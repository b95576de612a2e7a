use plonk_solana::transcript::hash_challenge;
use plonk_solana::{Fr, PlonkError, Transcript};

/// Keccak256 of the empty string.
const KECCAK_EMPTY: [u8; 32] = [
    0xc5, 0xd2, 0x46, 0x01, 0x86, 0xf7, 0x23, 0x3c, 0x92, 0x7e, 0x7d, 0xb2, 0xdc, 0xc7, 0x03, 0xc0,
    0xe5, 0x00, 0xb6, 0x53, 0xca, 0x82, 0x27, 0x3b, 0x7b, 0xfa, 0xd8, 0x04, 0x5d, 0x85, 0xa4, 0x70,
];

#[test]
fn hash_of_empty_input_is_reduced_keccak() {
    let parts: [&[u8]; 0] = [];
    let c = hash_challenge(&parts).unwrap();
    assert_eq!(c, Fr::from_be_bytes_unchecked(&KECCAK_EMPTY));
    assert_ne!(c, Fr::zero());
}

#[test]
fn hash_depends_only_on_the_concatenation() {
    let a = [1u8, 2, 3];
    let b = [4u8, 5];
    let joined = [1u8, 2, 3, 4, 5];
    let split: [&[u8]; 2] = [&a, &b];
    let whole: [&[u8]; 1] = [&joined];
    assert_eq!(hash_challenge(&split).unwrap(), hash_challenge(&whole).unwrap());
    let other: [&[u8]; 1] = [&a];
    assert_ne!(hash_challenge(&split).unwrap(), hash_challenge(&other).unwrap());
}

#[test]
fn transcript_challenge_hashes_entries_in_order() {
    let mut t = Transcript::new();
    let p = [3u8; 64];
    let s = Fr::from(42u64);
    t.add_point(&p);
    t.add_scalar(&s);
    let s_bytes = s.to_be_bytes();
    let parts: [&[u8]; 2] = [&p, &s_bytes];
    assert_eq!(t.get_challenge().unwrap(), hash_challenge(&parts).unwrap());

    let mut u = Transcript::new();
    u.add_scalar(&s);
    u.add_point(&p);
    assert_ne!(t.get_challenge().unwrap(), u.get_challenge().unwrap());
}

#[test]
fn transcript_reset_forgets_entries() {
    let mut t = Transcript::new();
    t.add_point(&[9u8; 64]);
    t.reset();
    let empty = Transcript::new();
    assert_eq!(t.get_challenge().unwrap(), empty.get_challenge().unwrap());
    assert_eq!(
        empty.get_challenge(),
        Ok::<Fr, PlonkError>(Fr::from_be_bytes_unchecked(&KECCAK_EMPTY))
    );
}

#[test]
fn error_codes_are_stable() {
    let all = [
        (PlonkError::ProofVerificationFailed, 0u32),
        (PlonkError::G1AdditionFailed, 1),
        (PlonkError::G1MulFailed, 2),
        (PlonkError::G1DecompressionFailed, 3),
        (PlonkError::G1CompressionFailed, 4),
        (PlonkError::PairingFailed, 5),
        (PlonkError::InvalidPublicInputsLength, 6),
        (PlonkError::LagrangeDivisionByZero, 7),
        (PlonkError::KeccakFailed, 8),
        (PlonkError::PublicInputGreaterThanFieldSize, 9),
    ];
    for (e, code) in all {
        assert_eq!(u32::from(e), code);
    }
}

#[test]
fn transcript_after_reset_matches_a_new_one() {
    let mut used = Transcript::new();
    used.add_point(&[1u8; 64]);
    used.add_scalar(&Fr::from(3u64));
    used.reset();
    let mut fresh = Transcript::new();
    for t in [&mut used, &mut fresh] {
        t.add_scalar(&Fr::from(8u64));
        t.add_point(&[2u8; 64]);
    }
    assert_eq!(used.get_challenge().unwrap(), fresh.get_challenge().unwrap());
}
