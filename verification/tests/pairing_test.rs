use plonk_solana::g2::G2_GENERATOR;
use plonk_solana::plonk::g1_neg;
use plonk_solana::syscalls::pairing_be;
use plonk_solana::{PlonkError, G1, G2};

fn pair(p: &G1, q: &G2) -> Vec<u8> {
    let mut v = p.0.to_vec();
    v.extend_from_slice(&q.0);
    v
}

#[test]
fn pairing_of_point_and_its_negation_is_one() {
    let g = G1::generator();
    let mut input = pair(&g, &G2::generator());
    input.extend(pair(&g1_neg(&g), &G2::generator()));
    let out = pairing_be(&input).unwrap();
    assert_eq!(out[31], 1);
    assert!(out[..31].iter().all(|&b| b == 0));
}

#[test]
fn pairing_of_generators_is_not_one() {
    let input = pair(&G1::generator(), &G2::generator());
    let out = pairing_be(&input).unwrap();
    assert_eq!(out[31], 0);
}

#[test]
fn pairing_ignores_trailing_partial_pair() {
    let g = G1::generator();
    let mut input = pair(&g, &G2::generator());
    input.extend(pair(&g1_neg(&g), &G2::generator()));
    let full = pairing_be(&input).unwrap();
    input.extend_from_slice(&[1u8; 10]);
    assert_eq!(pairing_be(&input).unwrap(), full);
}

#[test]
fn pairing_rejects_invalid_g2() {
    let mut bad = G2_GENERATOR;
    bad[127] ^= 1;
    let input = pair(&G1::generator(), &G2(bad));
    assert_eq!(pairing_be(&input), Err(PlonkError::PairingFailed));
}

#[test]
fn empty_pairing_is_one() {
    let out = pairing_be(&[]).unwrap();
    assert_eq!(out[31], 1);
}
