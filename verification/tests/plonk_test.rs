use ark_ff::PrimeField;
use plonk_solana::plonk::{
    calculate_challenges, calculate_f, calculate_l1_and_pi, calculate_r0_and_d, compute_eval_bytes,
    g1_add, g1_mul, is_valid_pairing, Challenges,
};
use plonk_solana::transcript::hash_challenge;
use plonk_solana::{
    bigint_to_be_bytes, verify, verify_unchecked, CompressedG1, CompressedProof, Fr, PlonkError,
    Proof, VerificationKey, G1, G2,
};

// The snarkjs fixture key, proof and public inputs that these tests were
// written against are not available here. The key and proof below are
// stand-ins made of small multiples of the generator: they exercise every
// rejection path with the same inputs and expected errors, but they are not a
// valid proof, so no test here shows that a valid proof is accepted.

fn point(k: u64) -> G1 {
    g1_mul(&G1::generator(), &Fr::from(k)).unwrap()
}

/// A key over a domain of size 8 with one public input, whose commitments are
/// small multiples of the generator.
fn test_vk() -> VerificationKey {
    VerificationKey {
        n_public: 1,
        power: 3,
        k1: Fr::from(2u64),
        k2: Fr::from(3u64),
        w: Fr::from(5u64),
        qm: point(11),
        ql: point(12),
        qr: point(13),
        qo: point(14),
        qc: point(15),
        s1: point(16),
        s2: point(17),
        s3: point(18),
        x_2: G2::generator(),
    }
}

fn test_proof() -> Proof {
    Proof {
        a: point(21),
        b: point(22),
        c: point(23),
        z: point(24),
        t1: point(25),
        t2: point(26),
        t3: point(27),
        wxi: point(28),
        wxiw: point(29),
        eval_a: Fr::from(31u64),
        eval_b: Fr::from(32u64),
        eval_c: Fr::from(33u64),
        eval_s1: Fr::from(34u64),
        eval_s2: Fr::from(35u64),
        eval_zw: Fr::from(36u64),
    }
}

fn modulus_bytes() -> [u8; 32] {
    bigint_to_be_bytes(&<ark_bn254::Fr as PrimeField>::MODULUS.0)
}

#[test]
fn test_plonk_verify_wrong_input_count() {
    let result = verify::<0>(&test_vk(), &test_proof(), &[]);
    assert_eq!(
        result,
        Err(PlonkError::InvalidPublicInputsLength),
        "wrong number of public inputs should be rejected"
    );
}

#[test]
fn test_plonk_verify_public_input_greater_than_field_size() {
    let input = modulus_bytes();

    let result = verify(&test_vk(), &test_proof(), &[input]);
    assert_eq!(
        result,
        Err(PlonkError::PublicInputGreaterThanFieldSize),
        "public input >= field modulus should be rejected by verify"
    );

    // verify_unchecked does not check field size -- the non-canonical value
    // silently reduces and causes a proof verification failure instead.
    let fr_input = Fr::from_be_bytes_unchecked(&input);
    let result = verify_unchecked(&test_vk(), &test_proof(), &[fr_input]);
    assert_eq!(
        result,
        Err(PlonkError::ProofVerificationFailed),
        "verify_unchecked should not catch oversized inputs"
    );
}

#[test]
fn plonk_test_plonk_verify_invalid_public_input() {
    let result = verify(&test_vk(), &test_proof(), &[Fr::from(34u64).to_be_bytes()]);
    assert_eq!(
        result,
        Err(PlonkError::ProofVerificationFailed),
        "invalid public input should cause verification failure"
    );
}

#[test]
fn plonk_verify_test_test_verify_fails_invalid_public_input() {
    let bad_input = {
        let mut b = [0u8; 32];
        b[31] = 34;
        b
    };
    assert_eq!(
        verify(&test_vk(), &test_proof(), &[bad_input]),
        Err(PlonkError::ProofVerificationFailed),
        "Expected ProofVerificationFailed for wrong public input value"
    );
}

#[test]
fn plonk_verify_test_test_verify_fails_too_many_public_inputs() {
    // VK has n_public=1, pass 2 inputs
    assert_eq!(
        verify(&test_vk(), &test_proof(), &[[0u8; 32], [0u8; 32]]),
        Err(PlonkError::InvalidPublicInputsLength),
        "Expected InvalidPublicInputsLength for too many inputs"
    );
}

#[test]
fn plonk_verify_test_test_verify_fails_empty_public_inputs() {
    assert_eq!(
        verify::<0>(&test_vk(), &test_proof(), &[]),
        Err(PlonkError::InvalidPublicInputsLength),
        "Expected InvalidPublicInputsLength for empty inputs"
    );
}

#[test]
fn length_is_checked_before_field_size() {
    let m = modulus_bytes();
    assert_eq!(
        verify(&test_vk(), &test_proof(), &[m, m]),
        Err(PlonkError::InvalidPublicInputsLength)
    );
    assert_eq!(
        verify_unchecked::<2>(&test_vk(), &test_proof(), &[Fr::zero(), Fr::zero()]),
        Err(PlonkError::InvalidPublicInputsLength)
    );
}

#[test]
fn verify_agrees_with_unchecked_on_canonical_input() {
    let x = Fr::from(77u64);
    assert_eq!(
        verify(&test_vk(), &test_proof(), &[x.to_be_bytes()]),
        verify_unchecked(&test_vk(), &test_proof(), &[x])
    );
}

#[test]
fn invalid_commitment_is_reported_by_the_point_operation() {
    let mut proof = test_proof();
    let mut bad = G1::generator().0;
    bad[63] = 3;
    proof.wxiw = G1(bad);
    assert_eq!(
        verify_unchecked(&test_vk(), &proof, &[Fr::one()]),
        Err(PlonkError::G1MulFailed)
    );
}

#[test]
fn lagrange_division_by_zero_when_xi_in_domain() {
    let vk = test_vk();
    let proof = test_proof();
    let eb = compute_eval_bytes(&proof);
    let ch = calculate_challenges(&vk, &proof, &[Fr::one()], &eb).unwrap();
    // xi equal to w^0 = 1 makes the first denominator zero
    let ch = Challenges { xi: Fr::one(), ..ch };
    assert_eq!(
        calculate_l1_and_pi(&vk, &ch, &[Fr::one()]),
        Err(PlonkError::LagrangeDivisionByZero)
    );
}

#[test]
fn challenges_follow_the_transcript() {
    let vk = test_vk();
    let proof = test_proof();
    let pi = Fr::from(9u64);
    let eb = compute_eval_bytes(&proof);
    assert_eq!(eb[0], proof.eval_a.to_be_bytes());
    assert_eq!(eb[5], proof.eval_zw.to_be_bytes());
    let ch = calculate_challenges(&vk, &proof, &[pi], &eb).unwrap();

    let pi_bytes = pi.to_be_bytes();
    let beta_parts: [&[u8]; 12] = [
        &vk.qm.0, &vk.ql.0, &vk.qr.0, &vk.qo.0, &vk.qc.0, &vk.s1.0, &vk.s2.0, &vk.s3.0,
        &pi_bytes, &proof.a.0, &proof.b.0, &proof.c.0,
    ];
    let beta = hash_challenge(&beta_parts).unwrap();
    assert_eq!(ch.beta, beta);
    let beta_bytes = beta.to_be_bytes();
    let gamma_parts: [&[u8]; 1] = [&beta_bytes];
    let gamma = hash_challenge(&gamma_parts).unwrap();
    assert_eq!(ch.gamma, gamma);
    let gamma_bytes = gamma.to_be_bytes();
    let alpha_parts: [&[u8]; 3] = [&beta_bytes, &gamma_bytes, &proof.z.0];
    let alpha = hash_challenge(&alpha_parts).unwrap();
    assert_eq!(ch.alpha, alpha);
    let alpha_bytes = alpha.to_be_bytes();
    let xi_parts: [&[u8]; 4] = [&alpha_bytes, &proof.t1.0, &proof.t2.0, &proof.t3.0];
    let xi = hash_challenge(&xi_parts).unwrap();
    assert_eq!(ch.xi, xi);
    let xi_bytes = xi.to_be_bytes();
    let v1_parts: [&[u8]; 7] = [&xi_bytes, &eb[0], &eb[1], &eb[2], &eb[3], &eb[4], &eb[5]];
    let v1 = hash_challenge(&v1_parts).unwrap();
    assert_eq!(ch.v1, v1);
    assert_eq!(ch.v2, v1 * v1);
    assert_eq!(ch.v3, v1 * v1 * v1);
    assert_eq!(ch.v4, ch.v2 * ch.v2);
    assert_eq!(ch.v5, ch.v4 * v1);
    let u_parts: [&[u8]; 2] = [&proof.wxi.0, &proof.wxiw.0];
    let u = hash_challenge(&u_parts).unwrap();
    assert_eq!(ch.u, u);
    // power = 3: xin = xi^8
    let xi2 = xi * xi;
    let xi4 = xi2 * xi2;
    assert_eq!(ch.xin, xi4 * xi4);
    assert_eq!(ch.zh, ch.xin - Fr::one());
}

#[test]
fn beta_hashes_every_public_input() {
    let mut vk = test_vk();
    vk.n_public = 2;
    let proof = test_proof();
    let eb = compute_eval_bytes(&proof);
    let inputs = [Fr::from(5u64), Fr::from(6u64)];
    let ch = calculate_challenges(&vk, &proof, &inputs, &eb).unwrap();
    let in0 = inputs[0].to_be_bytes();
    let in1 = inputs[1].to_be_bytes();
    let beta_parts: [&[u8]; 13] = [
        &vk.qm.0, &vk.ql.0, &vk.qr.0, &vk.qo.0, &vk.qc.0, &vk.s1.0, &vk.s2.0, &vk.s3.0, &in0,
        &in1, &proof.a.0, &proof.b.0, &proof.c.0,
    ];
    assert_eq!(ch.beta, hash_challenge(&beta_parts).unwrap());
    let swapped = calculate_challenges(&vk, &proof, &[inputs[1], inputs[0]], &eb).unwrap();
    assert_ne!(ch.beta, swapped.beta);
    vk.n_public = 0;
    let none = calculate_challenges::<0>(&vk, &proof, &[], &eb).unwrap();
    let no_inputs: [&[u8]; 11] = [
        &vk.qm.0, &vk.ql.0, &vk.qr.0, &vk.qo.0, &vk.qc.0, &vk.s1.0, &vk.s2.0, &vk.s3.0,
        &proof.a.0, &proof.b.0, &proof.c.0,
    ];
    assert_eq!(none.beta, hash_challenge(&no_inputs).unwrap());
}

#[test]
fn l1_and_pi_match_the_lagrange_formula() {
    let vk = test_vk();
    let proof = test_proof();
    let eb = compute_eval_bytes(&proof);
    let input = Fr::from(9u64);
    let ch = calculate_challenges(&vk, &proof, &[input], &eb).unwrap();
    let (l1, pi) = calculate_l1_and_pi(&vk, &ch, &[input]).unwrap();
    // L1(xi) = zh / (n * (xi - 1)) with n = 8
    let den = Fr::from(8u64) * (ch.xi - Fr::one());
    let expected_l1 = ch.zh * den.inverse().unwrap();
    assert_eq!(l1, expected_l1);
    assert_eq!(pi, Fr::zero() - input * expected_l1);
}

#[test]
fn pipeline_pieces_compose_to_verify() {
    let vk = test_vk();
    let proof = test_proof();
    let input = Fr::from(9u64);
    let eb = compute_eval_bytes(&proof);
    let ch = calculate_challenges(&vk, &proof, &[input], &eb).unwrap();
    let (l1, pi) = calculate_l1_and_pi(&vk, &ch, &[input]).unwrap();
    let (r0, d) = calculate_r0_and_d(&vk, &proof, &ch, &l1, &pi, &eb).unwrap();
    let f = calculate_f(&vk, &proof, &ch, &d).unwrap();
    let valid = is_valid_pairing(&vk, &proof, &ch, &r0, &f).unwrap();
    assert!(!valid);
    assert_eq!(
        verify_unchecked(&vk, &proof, &[input]),
        Err(PlonkError::ProofVerificationFailed)
    );
    // F = D + v1*a + v2*b + v3*c + v4*s1 + v5*s2
    let mut expected = d;
    for (p, v) in [
        (&proof.a, ch.v1),
        (&proof.b, ch.v2),
        (&proof.c, ch.v3),
        (&vk.s1, ch.v4),
        (&vk.s2, ch.v5),
    ] {
        expected = g1_add(&expected, &g1_mul(p, &v).unwrap()).unwrap();
    }
    assert_eq!(f, expected);
    // r0 = pi - alpha^2 * l1 - (a + beta s1 + gamma)(b + beta s2 + gamma)(c + gamma) zw alpha
    let e3 = (proof.eval_a + ch.beta * proof.eval_s1 + ch.gamma)
        * (proof.eval_b + ch.beta * proof.eval_s2 + ch.gamma)
        * (proof.eval_c + ch.gamma)
        * proof.eval_zw
        * ch.alpha;
    assert_eq!(r0, pi - l1 * ch.alpha.square() - e3);
}

#[test]
fn plonk_test_compression_roundtrip() {
    let proof = test_proof();
    let decompressed = proof.compress().unwrap().decompress().unwrap();
    assert_eq!(
        proof, decompressed,
        "proof should survive compress/decompress roundtrip"
    );
}

#[test]
fn compression_test_test_compression_roundtrip() {
    let proof = test_proof();
    let compressed = proof.compress().unwrap();
    let decompressed = compressed.decompress().unwrap();
    assert_eq!(
        proof, decompressed,
        "Proof mismatch after compress/decompress roundtrip"
    );
}

#[test]
fn proof_try_from_matches_methods() {
    let proof = test_proof();
    let compressed = CompressedProof::try_from(&proof).unwrap();
    assert_eq!(compressed, proof.compress().unwrap());
    assert_eq!(Proof::try_from(&compressed).unwrap(), proof);
}

#[test]
fn test_decompress_fails_invalid_point() {
    let proof = test_proof();
    let mut compressed = proof.compress().unwrap();
    // Corrupt the 'a' point with a value exceeding the field modulus
    compressed.a = CompressedG1([0xFF; 32]);
    let result = compressed.decompress();
    assert_eq!(
        result,
        Err(PlonkError::G1DecompressionFailed),
        "Expected G1DecompressionFailed for invalid compressed point"
    );
}

#[test]
fn verification_keys_compare_by_value() {
    assert_eq!(test_vk(), test_vk());
    let mut other = test_vk();
    other.power = 4;
    assert_ne!(test_vk(), other);
    let mut other = test_proof();
    other.eval_zw = Fr::zero();
    assert_ne!(test_proof(), other);
}
