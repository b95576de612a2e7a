use plonk_solana::g1::{G1_GENERATOR, G1_ZERO};
use plonk_solana::plonk::{g1_add, g1_mul, g1_mul_bytes, g1_neg, g1_sub};
use plonk_solana::syscalls::{g1_compress_be, g1_decompress_be, g1_multiplication_be};
use plonk_solana::{compress_g1, decompress_g1, CompressedG1, Fr, PlonkError, G1};

fn g1_from_scalar(scalar_bytes: [u8; 32]) -> G1 {
    let mut input = [0u8; 96];
    input[..64].copy_from_slice(&G1::generator().0);
    input[64..].copy_from_slice(&scalar_bytes);
    let bytes = g1_multiplication_be(&input).unwrap();
    G1(bytes)
}

fn scalars() -> Vec<[u8; 32]> {
    let mut out = Vec::new();
    for seed in [1u8, 2, 3, 17, 200] {
        let mut s = [0u8; 32];
        for (i, b) in s.iter_mut().enumerate() {
            *b = seed.wrapping_mul(i as u8 + 1).wrapping_add(seed);
        }
        s[0] &= 0x1f;
        out.push(s);
    }
    let mut one = [0u8; 32];
    one[31] = 1;
    out.push(one);
    out
}

#[test]
fn decompression_test_g1_compress_decompress_roundtrip() {
    let compressed = compress_g1(&G1_GENERATOR).unwrap();
    assert_ne!(compressed, [0u8; 32]);
    let decompressed = decompress_g1(&compressed).unwrap();
    assert_eq!(decompressed, G1_GENERATOR);
}

#[test]
fn decompression_test_g1_identity_compression() {
    let zero = [0u8; 64];
    let compressed = compress_g1(&zero).unwrap();
    assert_eq!(compressed, [0u8; 32]);
    let decompressed = decompress_g1(&compressed).unwrap();
    assert_eq!(decompressed, zero);
}

#[test]
fn syscall_compression_matches_point_methods() {
    let p = g1_from_scalar(scalars()[1]);
    let c = g1_compress_be(&p.0).unwrap();
    assert_eq!(CompressedG1(c), p.compress().unwrap());
    assert_eq!(G1(g1_decompress_be(&c).unwrap()), p);
    assert_eq!(g1_decompress_be(&[0xFF; 32]), Err(PlonkError::G1DecompressionFailed));
}

#[test]
fn compression_test_test_g1_compress_decompress_roundtrip() {
    let compressed = G1::generator().compress().unwrap();
    assert_ne!(compressed, CompressedG1([0u8; 32]));
    let decompressed = compressed.decompress().unwrap();
    assert_eq!(decompressed, G1::generator());
}

#[test]
fn compression_test_test_g1_identity_compression() {
    let compressed = G1::zero().compress().unwrap();
    assert_eq!(compressed, CompressedG1([0u8; 32]));
    let decompressed = compressed.decompress().unwrap();
    assert_eq!(decompressed, G1::zero());
}

#[test]
fn test_g1_compression_roundtrip() {
    for bytes in scalars() {
        let point = g1_from_scalar(bytes);
        let compressed = point.compress().unwrap();
        let decompressed = compressed.decompress().unwrap();
        assert_eq!(decompressed, point, "G1 roundtrip failed for scalar {:?}", bytes);
    }
}

#[test]
fn g1_try_from_matches_methods() {
    let p = g1_from_scalar(scalars()[0]);
    let c = CompressedG1::try_from(&p).unwrap();
    assert_eq!(c, p.compress().unwrap());
    let back = G1::try_from(&c).unwrap();
    assert_eq!(back, p);
    assert_eq!(G1::try_from(&CompressedG1([0xFF; 32])), Err(PlonkError::G1DecompressionFailed));
}

#[test]
fn g1_decompress_rejects_out_of_range_x() {
    assert_eq!(
        CompressedG1([0xFF; 32]).decompress(),
        Err(PlonkError::G1DecompressionFailed)
    );
}

#[test]
fn g1_neg_additive_inverse() {
    for bytes in scalars() {
        let scalar = Fr::from_be_bytes_unchecked(&bytes);
        if scalar == Fr::zero() {
            continue;
        }
        let p = g1_mul(&G1::generator(), &scalar).unwrap();
        let neg_p = g1_neg(&p);
        let sum = g1_add(&p, &neg_p).unwrap();
        assert_eq!(sum, G1::zero());
    }
}

#[test]
fn g1_neg_double_negation() {
    for bytes in scalars() {
        let scalar = Fr::from_be_bytes_unchecked(&bytes);
        if scalar == Fr::zero() {
            continue;
        }
        let p = g1_mul(&G1::generator(), &scalar).unwrap();
        assert_eq!(p, g1_neg(&g1_neg(&p)));
    }
}

#[test]
fn g1_neg_of_generator_and_identity() {
    // -(1, 2) = (1, q - 2)
    let neg = g1_neg(&G1::generator());
    let mut expected = [0u8; 64];
    expected[31] = 1;
    let q_minus_2: [u8; 32] = [
        0x30, 0x64, 0x4e, 0x72, 0xe1, 0x31, 0xa0, 0x29, 0xb8, 0x50, 0x45, 0xb6, 0x81, 0x81, 0x58,
        0x5d, 0x97, 0x81, 0x6a, 0x91, 0x68, 0x71, 0xca, 0x8d, 0x3c, 0x20, 0x8c, 0x16, 0xd8, 0x7c,
        0xfd, 0x45,
    ];
    expected[32..].copy_from_slice(&q_minus_2);
    assert_eq!(neg, G1(expected));
    assert_eq!(g1_neg(&G1::zero()), G1::zero());
}

#[test]
fn g1_add_and_mul_agree() {
    let g = G1::generator();
    let two_g = g1_add(&g, &g).unwrap();
    assert_eq!(two_g, g1_mul(&g, &Fr::from(2u64)).unwrap());
    let mut two = [0u8; 32];
    two[31] = 2;
    assert_eq!(two_g, g1_mul_bytes(&g, &two).unwrap());
    assert_ne!(two_g, g);
    let three_g = g1_add(&two_g, &g).unwrap();
    assert_eq!(three_g, g1_mul(&g, &Fr::from(3u64)).unwrap());
    assert_eq!(g1_sub(&three_g, &g).unwrap(), two_g);
    assert_eq!(g1_add(&g, &G1::zero()).unwrap(), g);
    assert_eq!(g1_mul(&g, &Fr::zero()).unwrap(), G1::zero());
}

#[test]
fn g1_add_rejects_point_off_curve() {
    let mut bad = G1_GENERATOR;
    bad[63] = 3;
    assert_eq!(g1_add(&G1(bad), &G1::generator()), Err(PlonkError::G1AdditionFailed));
    assert_eq!(g1_mul(&G1(bad), &Fr::one()), Err(PlonkError::G1MulFailed));
}

#[test]
fn g1_constants_and_accessors() {
    assert_eq!(G1::zero().0, G1_ZERO);
    assert_eq!(G1::generator().0, G1_GENERATOR);
    assert_eq!(G1::generator().as_bytes(), &G1_GENERATOR);
    let c = CompressedG1([7u8; 32]);
    assert_eq!(c.as_bytes(), &[7u8; 32]);
    assert_eq!(c.as_slice(), &[7u8; 32][..]);
    let r: &[u8; 32] = c.as_ref();
    assert_eq!(r, &[7u8; 32]);
    let generator = G1::generator();
    let g: &[u8; 64] = generator.as_ref();
    assert_eq!(g, &G1_GENERATOR);
    assert_eq!(G1::from(G1_GENERATOR), G1::generator());
    assert_eq!(CompressedG1::from([7u8; 32]), c);
}

#[test]
fn g1_neg_twice_loses_only_the_point_with_y_equal_q() {
    // (0, q) negates to (0, 0), which is read as the identity
    let q: [u8; 32] = [
        0x30, 0x64, 0x4e, 0x72, 0xe1, 0x31, 0xa0, 0x29, 0xb8, 0x50, 0x45, 0xb6, 0x81, 0x81, 0x58,
        0x5d, 0x97, 0x81, 0x6a, 0x91, 0x68, 0x71, 0xca, 0x8d, 0x3c, 0x20, 0x8c, 0x16, 0xd8, 0x7c,
        0xfd, 0x47,
    ];
    let mut p = [0u8; 64];
    p[32..].copy_from_slice(&q);
    let once = g1_neg(&G1(p));
    assert_eq!(once, G1::zero());
    assert_ne!(g1_neg(&once), G1(p));
    // any other encoding comes back, even one that is not on the curve
    let mut other = p;
    other[63] = 0x48;
    assert_eq!(g1_neg(&g1_neg(&G1(other))), G1(other));
}
