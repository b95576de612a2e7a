use plonk_solana::vk_parser::{bigint_to_be32, parse_fr, parse_g1, parse_g2, VkParseError};
use plonk_solana::{Fr, G1, G2};

fn message(e: VkParseError) -> String {
    match e {
        VkParseError::InvalidData(m) => m,
    }
}

fn strings(v: &[&str]) -> Vec<String> {
    v.iter().map(|s| s.to_string()).collect()
}

#[test]
fn decimal_strings_become_padded_big_endian() {
    let mut one = [0u8; 32];
    one[31] = 1;
    assert_eq!(bigint_to_be32("1").unwrap(), one);
    let mut v = [0u8; 32];
    v[30] = 1;
    v[31] = 0;
    assert_eq!(bigint_to_be32("256").unwrap(), v);
    assert_eq!(bigint_to_be32("0").unwrap(), [0u8; 32]);
    // 2^256 - 1 fits, 2^256 does not
    let max = "115792089237316195423570985008687907853269984665640564039457584007913129639935";
    assert_eq!(bigint_to_be32(max).unwrap(), [0xFF; 32]);
    let over = "115792089237316195423570985008687907853269984665640564039457584007913129639936";
    assert_eq!(
        message(bigint_to_be32(over).unwrap_err()),
        format!("value too large for 32 bytes: {}", over)
    );
}

#[test]
fn non_numbers_are_rejected_with_the_parse_message() {
    assert_eq!(
        message(bigint_to_be32("12x").unwrap_err()),
        "invalid bigint '12x': invalid digit found in string"
    );
    assert_eq!(
        message(bigint_to_be32("").unwrap_err()),
        "invalid bigint '': cannot parse integer from empty string"
    );
}

#[test]
fn g1_coordinates() {
    let p = parse_g1(&strings(&["1", "2", "1"])).unwrap();
    assert_eq!(p, G1::generator());
    let z = parse_g1(&strings(&["5", "6", "0"])).unwrap();
    assert_eq!(z, G1::zero());
    assert_eq!(
        message(parse_g1(&strings(&["1", "2"])).unwrap_err()),
        "G1 point must have 3 coordinates"
    );
    assert!(parse_g1(&strings(&["1", "y", "1"])).is_err());
}

#[test]
fn g2_coordinates_in_eip197_order() {
    let coords = vec![strings(&["1", "2"]), strings(&["3", "4"]), strings(&["1", "0"])];
    let g = parse_g2(&coords).unwrap();
    let mut expected = [0u8; 128];
    expected[31] = 2;
    expected[63] = 1;
    expected[95] = 4;
    expected[127] = 3;
    assert_eq!(g, G2(expected));
    assert_eq!(
        message(parse_g2(&coords[..2]).unwrap_err()),
        "G2 point must have 3 coordinate pairs"
    );
}

#[test]
fn scalars_must_be_below_the_field_order() {
    assert_eq!(parse_fr("5").unwrap(), Fr::from(5u64));
    let r = "21888242871839275222246405745257275088548364400416034343698204186575808495617";
    assert_eq!(message(parse_fr(r).unwrap_err()), "scalar is not below the field order");
    let r_minus_one =
        "21888242871839275222246405745257275088548364400416034343698204186575808495616";
    assert_eq!(parse_fr(r_minus_one).unwrap(), -Fr::one());
}

#[test]
fn decimal_syntax_follows_from_str_radix() {
    let mut thousand = [0u8; 32];
    thousand[30] = 0x03;
    thousand[31] = 0xe8;
    assert_eq!(bigint_to_be32("1000").unwrap(), thousand);
    assert_eq!(bigint_to_be32("+1_000").unwrap(), thousand);
    assert_eq!(bigint_to_be32("1__0_00_").unwrap(), thousand);
    assert_eq!(
        message(bigint_to_be32("+").unwrap_err()),
        "invalid bigint '+': cannot parse integer from empty string"
    );
    assert_eq!(
        message(bigint_to_be32("++1").unwrap_err()),
        "invalid bigint '++1': invalid digit found in string"
    );
    assert_eq!(
        message(bigint_to_be32("_1").unwrap_err()),
        "invalid bigint '_1': invalid digit found in string"
    );
    assert_eq!(
        message(bigint_to_be32("1a").unwrap_err()),
        "invalid bigint '1a': invalid digit found in string"
    );
    assert_eq!(
        message(bigint_to_be32("-1").unwrap_err()),
        "invalid bigint '-1': invalid digit found in string"
    );
}
