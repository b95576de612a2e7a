use ark_ff::PrimeField;
use plonk_solana::fr::{is_less_than_bn254_field_size_be, FR_MODULUS_LIMBS};
use plonk_solana::{bigint_from_be_bytes, bigint_to_be_bytes, Fr};

fn modulus_bytes() -> [u8; 32] {
    bigint_to_be_bytes(&<ark_bn254::Fr as PrimeField>::MODULUS.0)
}

fn sample_bytes() -> Vec<[u8; 32]> {
    let mut out = vec![[0u8; 32], [0xFF; 32], modulus_bytes()];
    let mut counting = [0u8; 32];
    for (i, b) in counting.iter_mut().enumerate() {
        *b = (i as u8).wrapping_mul(37).wrapping_add(11);
    }
    out.push(counting);
    let mut small = [0u8; 32];
    small[31] = 7;
    out.push(small);
    let mut high = [0u8; 32];
    high[0] = 0x30;
    high[31] = 1;
    out.push(high);
    out
}

#[test]
fn from_be_bytes_unchecked_at_modulus() {
    let modulus_bytes = modulus_bytes();
    assert_eq!(Fr::from_be_bytes_unchecked(&modulus_bytes), Fr::zero());
}

#[test]
fn from_be_bytes_unchecked_at_modulus_plus_one() {
    let mut bytes = modulus_bytes();
    for i in (0..32).rev() {
        let (val, overflow) = bytes[i].overflowing_add(1);
        bytes[i] = val;
        if !overflow {
            break;
        }
    }
    assert_eq!(Fr::from_be_bytes_unchecked(&bytes), Fr::one());
}

#[test]
fn from_be_bytes_unchecked_all_ones() {
    let bytes = [0xFF; 32];
    let fr = Fr::from_be_bytes_unchecked(&bytes);
    let fr2 = Fr::from_be_bytes_unchecked(&fr.to_be_bytes());
    assert_eq!(fr, fr2);
}

#[test]
fn from_be_bytes_rejects_modulus() {
    let modulus_bytes = modulus_bytes();
    assert!(Fr::from_be_bytes(&modulus_bytes).is_none());
}

#[test]
fn from_be_bytes_accepts_modulus_minus_one() {
    let mut bytes = modulus_bytes();
    for i in (0..32).rev() {
        let (val, underflow) = bytes[i].overflowing_sub(1);
        bytes[i] = val;
        if !underflow {
            break;
        }
    }
    assert!(Fr::from_be_bytes(&bytes).is_some());
}

#[test]
fn fr_modulus_limbs_match_arkworks() {
    assert_eq!(FR_MODULUS_LIMBS, <ark_bn254::Fr as PrimeField>::MODULUS.0);
}

#[test]
fn fr_canonical_roundtrip() {
    for bytes in sample_bytes() {
        if let Some(fr) = Fr::from_be_bytes(&bytes) {
            assert_eq!(fr.to_be_bytes(), bytes);
        }
    }
}

#[test]
fn fr_unchecked_idempotent() {
    for bytes in sample_bytes() {
        let fr = Fr::from_be_bytes_unchecked(&bytes);
        let fr2 = Fr::from_be_bytes_unchecked(&fr.to_be_bytes());
        assert_eq!(fr, fr2);
    }
}

#[test]
fn bigint_bytes_roundtrip() {
    for bytes in sample_bytes() {
        let bigint = bigint_from_be_bytes(&bytes);
        assert_eq!(bigint_to_be_bytes(&bigint), bytes);
    }
}

#[test]
fn bigint_limb_order_is_little_endian() {
    let mut bytes = [0u8; 32];
    bytes[31] = 1;
    bytes[0] = 2;
    assert_eq!(bigint_from_be_bytes(&bytes), [1, 0, 0, 2u64 << 56]);
}

#[test]
fn less_than_field_size_edges() {
    let m = modulus_bytes();
    assert!(!is_less_than_bn254_field_size_be(&m));
    let mut below = m;
    below[31] -= 1;
    assert!(is_less_than_bn254_field_size_be(&below));
    assert!(is_less_than_bn254_field_size_be(&[0u8; 32]));
    assert!(!is_less_than_bn254_field_size_be(&[0xFF; 32]));
}

#[test]
fn unchecked_all_ones_is_reduced_value() {
    // 2^256 - 1 mod r, computed with arkworks
    let expected = <ark_bn254::Fr as PrimeField>::from_be_bytes_mod_order(&[0xFF; 32]);
    let got = Fr::from_be_bytes_unchecked(&[0xFF; 32]);
    assert_eq!(got.to_be_bytes(), bigint_to_be_bytes(&expected.into_bigint().0));
}

#[test]
fn unchecked_short_and_long_inputs() {
    // shorter input: read right-aligned
    assert_eq!(Fr::from_be_bytes_unchecked(&[1, 0]), Fr::from(256u64));
    // empty input is zero
    assert_eq!(Fr::from_be_bytes_unchecked(&[]), Fr::zero());
    // longer input: every byte counts, 5 * 256^8 + 9
    let mut long = [0u8; 40];
    long[31] = 5;
    long[39] = 9;
    let two_32 = Fr::from(1u64 << 32);
    assert_eq!(
        Fr::from_be_bytes_unchecked(&long),
        Fr::from(5u64) * two_32 * two_32 + Fr::from(9u64)
    );
    // 32 zero bytes followed by 0x01 denote 1
    let mut tail_one = [0u8; 33];
    tail_one[32] = 1;
    assert_eq!(Fr::from_be_bytes_unchecked(&tail_one), Fr::one());
}

#[test]
fn unchecked_long_input_matches_arkworks() {
    let mut long = [0u8; 70];
    for (i, b) in long.iter_mut().enumerate() {
        *b = (i as u8).wrapping_mul(91).wrapping_add(3);
    }
    let expected = <ark_bn254::Fr as PrimeField>::from_be_bytes_mod_order(&long);
    assert_eq!(
        Fr::from_be_bytes_unchecked(&long).to_be_bytes(),
        bigint_to_be_bytes(&expected.into_bigint().0)
    );
}

#[test]
fn every_element_encodes_canonically() {
    for bytes in sample_bytes() {
        let y = Fr::from_be_bytes_unchecked(&bytes);
        let enc = y.to_be_bytes();
        assert!(is_less_than_bn254_field_size_be(&enc));
        assert_eq!(Fr::from_be_bytes(&enc), Some(y));
    }
}

#[test]
fn field_arithmetic_small_values() {
    let two = Fr::from(2u64);
    let three = Fr::from(3u64);
    assert_eq!(two + three, Fr::from(5u64));
    assert_eq!(three - two, Fr::one());
    assert_eq!(two * three, Fr::from(6u64));
    assert_eq!(three.square(), Fr::from(9u64));
    assert_eq!(Fr::one() + (-Fr::one()), Fr::zero());
    // 2 - 3 = r - 1
    let mut r_minus_one = modulus_bytes();
    r_minus_one[31] -= 1;
    assert_eq!(two - three, Fr::from_be_bytes(&r_minus_one).unwrap());
    assert_eq!(-Fr::one(), Fr::from_be_bytes(&r_minus_one).unwrap());
    assert_eq!(-Fr::zero(), Fr::zero());
}

#[test]
fn field_addition_wraps_at_modulus() {
    let mut r_minus_one = modulus_bytes();
    r_minus_one[31] -= 1;
    let m1 = Fr::from_be_bytes(&r_minus_one).unwrap();
    assert_eq!(m1 + Fr::one(), Fr::zero());
    // (r - 1) + (r - 1) = r - 2 = -2
    assert_eq!(m1 + m1, -Fr::from(2u64));
    assert_eq!((m1 + m1).to_be_bytes()[28..], [0xef, 0xff, 0xff, 0xff]);
}

#[test]
fn field_multiplication_matches_arkworks() {
    for a in sample_bytes() {
        for b in sample_bytes() {
            let x = Fr::from_be_bytes_unchecked(&a);
            let y = Fr::from_be_bytes_unchecked(&b);
            let ax = <ark_bn254::Fr as PrimeField>::from_be_bytes_mod_order(&a);
            let ay = <ark_bn254::Fr as PrimeField>::from_be_bytes_mod_order(&b);
            let prod = bigint_to_be_bytes(&(ax * ay).into_bigint().0);
            assert_eq!((x * y).to_be_bytes(), prod);
            let sum = bigint_to_be_bytes(&(ax + ay).into_bigint().0);
            assert_eq!((x + y).to_be_bytes(), sum);
            let diff = bigint_to_be_bytes(&(ax - ay).into_bigint().0);
            assert_eq!((x - y).to_be_bytes(), diff);
        }
    }
}

#[test]
fn inverse_of_zero_is_none() {
    assert!(Fr::zero().inverse().is_none());
}

#[test]
fn inverse_times_self_is_one() {
    for bytes in sample_bytes() {
        let x = Fr::from_be_bytes_unchecked(&bytes);
        match x.inverse() {
            Some(inv) => assert_eq!(x * inv, Fr::one()),
            None => assert_eq!(x, Fr::zero()),
        }
    }
    let two = Fr::from(2u64);
    let half = two.inverse().unwrap();
    assert_ne!(half, two);
    assert_eq!(half + half, Fr::one());
}

#[test]
fn limbs_bytes_roundtrip() {
    let samples: [[u64; 4]; 4] = [
        [0, 0, 0, 0],
        [u64::MAX; 4],
        [1, 2, 3, 4],
        <ark_bn254::Fr as PrimeField>::MODULUS.0,
    ];
    for l in samples {
        assert_eq!(bigint_from_be_bytes(&bigint_to_be_bytes(&l)), l);
    }
}
