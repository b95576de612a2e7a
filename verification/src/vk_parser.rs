//! Reading snarkjs JSON values: decimal strings become 32-byte big-endian
//! numbers, coordinate lists become points. The JSON itself is read by the
//! caller; this module turns the strings it holds into library values.
use vstd::prelude::*;
use num_bigint::BigUint;
use vstd::string::StringExecFns;
use crate::fr::{self, Fr};
use crate::g1::G1;
use crate::g2::G2;
use crate::syscalls;

verus! {

/// Why a verification key or proof could not be read.
#[derive(Debug)]
pub enum VkParseError {
    InvalidData(String),
}

/// The digits part of a decimal string: one leading `+` is dropped unless a
/// second `+` follows it (as `BigUint::from_str_radix` does).
pub open spec fn decimal_body(s: Seq<char>) -> Seq<char> {
    if s.len() > 0 && s[0] == '+' && !(s.len() > 1 && s[1] == '+') {
        s.drop_first()
    } else {
        s
    }
}

/// A decimal digit.
pub open spec fn is_digit(c: char) -> bool {
    48 <= (c as u32) <= 57
}

/// A string that `BigUint::from_str` accepts: after the optional `+`, at
/// least one character, not starting with `_`, and only digits and `_`.
pub open spec fn is_decimal(s: Seq<char>) -> bool {
    let t = decimal_body(s);
    &&& t.len() > 0
    &&& t[0] != '_'
    &&& forall|i: int| 0 <= i < t.len() ==> is_digit(#[trigger] t[i]) || t[i] == '_'
}

/// The number that decimal digits denote, `_` separators skipped.
pub open spec fn decimal_value(t: Seq<char>) -> nat
    decreases t.len(),
{
    if t.len() == 0 {
        0
    } else if t.last() == '_' {
        decimal_value(t.drop_last())
    } else {
        decimal_value(t.drop_last()) * 10 + ((t.last() as u32) - 48) as nat
    }
}

/// The minimal big-endian bytes of a number (`BigUint::to_bytes_be`): no
/// leading zero byte, and `[0]` for zero.
pub open spec fn minimal_be(n: nat) -> Seq<u8>
    decreases n,
{
    if n < 256 {
        seq![n as u8]
    } else {
        minimal_be(n / 256).push((n % 256) as u8)
    }
}

/// The minimal big-endian bytes of the number that a decimal string denotes
/// (`BigUint::from_str` then `to_bytes_be`), if the string is a number.
pub open spec fn decimal_be_bytes(s: Seq<char>) -> Option<Seq<u8>> {
    if is_decimal(s) {
        Some(minimal_be(decimal_value(decimal_body(s))))
    } else {
        None
    }
}

/// The message (`Display` of `ParseBigIntError`) of the error that parsing a
/// string that is not a number gives: one for an empty string, one for an
/// invalid digit.
pub open spec fn decimal_parse_error(s: Seq<char>) -> Seq<char> {
    if decimal_body(s).len() == 0 {
        "cannot parse integer from empty string"@
    } else {
        "invalid digit found in string"@
    }
}

/// `s.parse::<num_bigint::BigUint>()` followed by `BigUint::to_bytes_be`. As
/// its source (`from_str_radix`, `to_bytes_le`) shows: `Ok` with the minimal
/// big-endian bytes of the number exactly when the string is decimal digits
/// (with an optional leading `+` and `_` separators), otherwise the message of
/// the parse error.
#[verifier::external_body]
fn decimal_to_be_bytes(s: &str) -> (res: Result<Vec<u8>, String>)
    ensures
        match res {
            Ok(b) => decimal_be_bytes(s@) == Some(b@),
            Err(m) => decimal_be_bytes(s@) is None && m@ == decimal_parse_error(s@),
        },
{
    match s.parse::<BigUint>() {
        Ok(n) => Ok(n.to_bytes_be()),
        Err(e) => Err(e.to_string()),
    }
}

/// The message for a string that is not a number.
fn invalid_bigint_message(s: &str, reason: &str) -> (res: String)
    ensures
        res@ == "invalid bigint '"@ + s@ + "': "@ + reason@,
{
    String::from_str("invalid bigint '").concat(s).concat("': ").concat(reason)
}

/// The message for a number that needs more than 32 bytes.
fn too_large_message(s: &str) -> (res: String)
    ensures
        res@ == "value too large for 32 bytes: "@ + s@,
{
    String::from_str("value too large for 32 bytes: ").concat(s)
}

/// The 32-byte big-endian form of a decimal string: its minimal bytes padded
/// with leading zeros, if it is a number below `2^256`; otherwise the message
/// of the error.
pub open spec fn be32_outcome(s: Seq<char>) -> Result<Seq<u8>, Seq<char>> {
    match decimal_be_bytes(s) {
        Some(b) => if b.len() <= 32 {
            Ok(syscalls::zeros((32 - b.len()) as nat) + b)
        } else {
            Err("value too large for 32 bytes: "@ + s)
        },
        None => Err("invalid bigint '"@ + s + "': "@ + decimal_parse_error(s)),
    }
}

/// The message of an error.
pub open spec fn message(e: VkParseError) -> Seq<char> {
    match e {
        VkParseError::InvalidData(m) => m@,
    }
}

/// An outcome with its value and error as plain values.
pub open spec fn outcome<T: View>(r: Result<T, VkParseError>) -> Result<T::V, Seq<char>> {
    match r {
        Ok(v) => Ok(v@),
        Err(e) => Err(message(e)),
    }
}

/// Reads a decimal string as a 32-byte big-endian number; fails when the
/// string is not a number or the number needs more than 32 bytes.
pub fn bigint_to_be32(s: &str) -> (res: Result<[u8; 32], VkParseError>)
    ensures
        outcome(res) == be32_outcome(s@),
{
    let bytes = match decimal_to_be_bytes(s) {
        Ok(b) => b,
        Err(reason) => {
            return Err(VkParseError::InvalidData(invalid_bigint_message(s, reason.as_str())));
        },
    };
    if bytes.len() > 32 {
        return Err(VkParseError::InvalidData(too_large_message(s)));
    }
    let mut result = [0u8; 32];
    let start: usize = 32 - bytes.len();
    let mut i: usize = 0;
    while i < bytes.len()
        invariant
            bytes@.len() <= 32,
            start == 32 - bytes@.len(),
            0 <= i <= bytes@.len(),
            forall|j: int| 0 <= j < start ==> result@[j] == 0,
            forall|j: int| 0 <= j < i ==> result@[start + j] == bytes@[j],
        decreases bytes@.len() - i,
    {
        result[start + i] = bytes[i];
        i = i + 1;
    }
    assert(result@ =~= syscalls::zeros(start as nat) + bytes@);
    Ok(result)
}

/// The strings of a list of strings.
pub open spec fn strings_view(v: Seq<String>) -> Seq<Seq<char>> {
    v.map_values(|s: String| s@)
}

/// The 64-byte point that snarkjs projective coordinates `[x, y, z]` denote:
/// the identity when `z` is `"0"`, otherwise `x || y`; or the message of the
/// first error.
pub open spec fn g1_of_coords(coords: Seq<Seq<char>>) -> Result<Seq<u8>, Seq<char>> {
    if coords.len() != 3 {
        Err("G1 point must have 3 coordinates"@)
    } else if coords[2] == "0"@ {
        Ok(syscalls::zeros(64))
    } else {
        match be32_outcome(coords[0]) {
            Err(m) => Err(m),
            Ok(x) => match be32_outcome(coords[1]) {
                Err(m) => Err(m),
                Ok(y) => Ok(x + y),
            },
        }
    }
}

/// Reads a G1 point from snarkjs coordinates `[x, y, z]`.
pub fn parse_g1(coords: &[String]) -> (res: Result<G1, VkParseError>)
    ensures
        g1_outcome(res) == g1_of_coords(strings_view(coords@)),
{
    let ghost view = strings_view(coords@);
    if coords.len() != 3 {
        return Err(VkParseError::InvalidData("G1 point must have 3 coordinates".to_owned()));
    }
    proof {
        assert(view[0] == coords@[0]@);
        assert(view[1] == coords@[1]@);
        assert(view[2] == coords@[2]@);
    }
    let zero = "0".to_owned();
    if coords[2] == zero {
        return Ok(G1::zero());
    }
    let x = match bigint_to_be32(coords[0].as_str()) {
        Ok(b) => b,
        Err(e) => return Err(e),
    };
    let y = match bigint_to_be32(coords[1].as_str()) {
        Ok(b) => b,
        Err(e) => return Err(e),
    };
    let mut result = [0u8; 64];
    let mut i: usize = 0;
    while i < 32
        invariant
            0 <= i <= 32,
            forall|j: int| 0 <= j < i ==> result@[j] == x@[j],
            forall|j: int| 0 <= j < i ==> result@[32 + j] == y@[j],
        decreases 32 - i,
    {
        result[i] = x[i];
        result[32 + i] = y[i];
        i = i + 1;
    }
    assert(result@ =~= x@ + y@);
    Ok(G1(result))
}

/// The 128-byte EIP-197 form `x1 || x0 || y1 || y0` of snarkjs G2
/// coordinates `[[x0, x1], [y0, y1], z]`, read in that order; or the message
/// of the first error.
pub open spec fn g2_of_coords(coords: Seq<Seq<Seq<char>>>) -> Result<Seq<u8>, Seq<char>> {
    if coords.len() != 3 {
        Err("G2 point must have 3 coordinate pairs"@)
    } else {
        match be32_outcome(coords[0][1]) {
            Err(m) => Err(m),
            Ok(x1) => match be32_outcome(coords[0][0]) {
                Err(m) => Err(m),
                Ok(x0) => match be32_outcome(coords[1][1]) {
                    Err(m) => Err(m),
                    Ok(y1) => match be32_outcome(coords[1][0]) {
                        Err(m) => Err(m),
                        Ok(y0) => Ok(x1 + x0 + y1 + y0),
                    },
                },
            },
        }
    }
}

/// A G1 outcome as plain values.
pub open spec fn g1_outcome(r: Result<G1, VkParseError>) -> Result<Seq<u8>, Seq<char>> {
    match r {
        Ok(p) => Ok(p.0@),
        Err(e) => Err(message(e)),
    }
}

/// A G2 outcome as plain values.
pub open spec fn g2_outcome(r: Result<G2, VkParseError>) -> Result<Seq<u8>, Seq<char>> {
    match r {
        Ok(p) => Ok(p.0@),
        Err(e) => Err(message(e)),
    }
}

/// The strings of a list of lists of strings.
pub open spec fn string_lists_view(v: Seq<Vec<String>>) -> Seq<Seq<Seq<char>>> {
    v.map_values(|l: Vec<String>| strings_view(l@))
}

/// Copies 32 bytes into `out[start..start + 32]`.
fn put32(out: &mut [u8; 128], start: usize, src: &[u8; 32])
    requires
        start <= 96,
    ensures
        forall|j: int| 0 <= j < 32 ==> final(out)@[start + j] == src@[j],
        forall|j: int|
            0 <= j < 128 && !(start <= j < start + 32) ==> final(out)@[j] == old(out)@[j],
{
    let mut i: usize = 0;
    while i < 32
        invariant
            start <= 96,
            0 <= i <= 32,
            forall|j: int| 0 <= j < i ==> out@[start + j] == src@[j],
            forall|j: int|
                0 <= j < 128 && !(start <= j < start + 32) ==> out@[j] == old(out)@[j],
        decreases 32 - i,
    {
        out[start + i] = src[i];
        i = i + 1;
    }
}

/// Reads a G2 point from snarkjs coordinates `[[x0, x1], [y0, y1], z]` into
/// EIP-197 order `x1 || x0 || y1 || y0`.
pub fn parse_g2(coords: &[Vec<String>]) -> (res: Result<G2, VkParseError>)
    requires
        coords@.len() == 3 ==> coords@[0]@.len() >= 2 && coords@[1]@.len() >= 2,
    ensures
        g2_outcome(res) == g2_of_coords(string_lists_view(coords@)),
{
    let ghost view = string_lists_view(coords@);
    if coords.len() != 3 {
        return Err(VkParseError::InvalidData("G2 point must have 3 coordinate pairs".to_owned()));
    }
    proof {
        assert(view[0] == strings_view(coords@[0]@));
        assert(view[1] == strings_view(coords@[1]@));
        assert(view[0][0] == coords@[0]@[0]@);
        assert(view[0][1] == coords@[0]@[1]@);
        assert(view[1][0] == coords@[1]@[0]@);
        assert(view[1][1] == coords@[1]@[1]@);
    }
    let x1 = match bigint_to_be32(coords[0][1].as_str()) {
        Ok(b) => b,
        Err(e) => return Err(e),
    };
    let x0 = match bigint_to_be32(coords[0][0].as_str()) {
        Ok(b) => b,
        Err(e) => return Err(e),
    };
    let y1 = match bigint_to_be32(coords[1][1].as_str()) {
        Ok(b) => b,
        Err(e) => return Err(e),
    };
    let y0 = match bigint_to_be32(coords[1][0].as_str()) {
        Ok(b) => b,
        Err(e) => return Err(e),
    };
    let mut result = [0u8; 128];
    put32(&mut result, 0, &x1);
    put32(&mut result, 32, &x0);
    put32(&mut result, 64, &y1);
    put32(&mut result, 96, &y0);
    assert(result@ =~= x1@ + x0@ + y1@ + y0@);
    Ok(G2(result))
}

/// The field element that a decimal string denotes, or the message of the
/// error: the string must be a 32-byte number below the field order.
pub open spec fn fr_of_decimal(s: Seq<char>) -> Result<nat, Seq<char>> {
    match be32_outcome(s) {
        Err(m) => Err(m),
        Ok(b) => if crate::encoding::be_to_nat(b) < fr::fr_modulus() {
            Ok(crate::encoding::be_to_nat(b))
        } else {
            Err("scalar is not below the field order"@)
        },
    }
}

/// Reads a field element from a decimal string; fails when the string is not
/// a 32-byte number or the number is not below the field order.
pub fn parse_fr(s: &str) -> (res: Result<Fr, VkParseError>)
    ensures
        outcome(res) == fr_of_decimal(s@),
{
    let bytes = match bigint_to_be32(s) {
        Ok(b) => b,
        Err(e) => return Err(e),
    };
    match Fr::from_be_bytes(&bytes) {
        Some(f) => Ok(f),
        None => Err(VkParseError::InvalidData("scalar is not below the field order".to_owned())),
    }
}

/// The minimal bytes of `n` denote `n`, and fit in `k` bytes when
/// `n < 256^k` (one byte at least).
proof fn lemma_minimal_be(n: nat, k: nat)
    ensures
        crate::encoding::be_to_nat(minimal_be(n)) == n,
        minimal_be(n).len() >= 1,
        k >= 1 && n < crate::encoding::pow256(k) ==> minimal_be(n).len() <= k,
    decreases n,
{
    if n < 256 {
        let m = minimal_be(n);
        assert(m.drop_last() =~= Seq::<u8>::empty());
        assert(crate::encoding::be_to_nat(m.drop_last()) == 0);
        assert(m.last() == n as u8);
        assert((n as u8) as nat == n);
    } else {
        let k1 = if k >= 1 {
            (k - 1) as nat
        } else {
            0
        };
        lemma_minimal_be(n / 256, k1);
        let m = minimal_be(n);
        assert(m.drop_last() =~= minimal_be(n / 256));
        vstd::arithmetic::div_mod::lemma_fundamental_div_mod(n as int, 256);
        assert(((n % 256) as u8) as nat == n % 256);
        assert(crate::encoding::be_to_nat(m) == n);
        if k >= 1 && n < crate::encoding::pow256(k) {
            if k == 1 {
                assert(crate::encoding::pow256(1) == 256) by {
                    reveal_with_fuel(crate::encoding::pow256, 2);
                }
            } else {
                assert(crate::encoding::pow256(k) == 256 * crate::encoding::pow256(k1));
                vstd::arithmetic::div_mod::lemma_div_by_multiple_is_strongly_ordered(
                    n as int,
                    crate::encoding::pow256(k) as int,
                    crate::encoding::pow256(k1) as int,
                    256,
                );
            }
        }
    }
}

/// A decimal string denotes its number: when the string is decimal digits
/// (optional `+`, `_` separators) whose number is below `2^256`, its 32-byte
/// form is that number big-endian; a larger number is too large, and any other
/// string is not a number.
pub proof fn law_decimal_strings(s: Seq<char>)
    ensures
        is_decimal(s) && decimal_value(decimal_body(s)) < crate::encoding::pow256(32)
            ==> be32_outcome(s) == Ok::<Seq<u8>, Seq<char>>(
            crate::encoding::nat_to_be(decimal_value(decimal_body(s)), 32),
        ),
        is_decimal(s) && decimal_value(decimal_body(s)) >= crate::encoding::pow256(32)
            ==> be32_outcome(s) == Err::<Seq<u8>, Seq<char>>(
            "value too large for 32 bytes: "@ + s,
        ),
        !is_decimal(s) ==> be32_outcome(s) is Err,
{
    if is_decimal(s) {
        let n = decimal_value(decimal_body(s));
        let m = minimal_be(n);
        lemma_minimal_be(n, 32);
        crate::encoding::lemma_be_to_nat_bound(m);
        if n < crate::encoding::pow256(32) {
            let z = syscalls::zeros((32 - m.len()) as nat);
            let b = z + m;
            crate::encoding::lemma_be_to_nat_append(z, m);
            crate::encoding::lemma_be_to_nat_zeros(z);
            crate::encoding::lemma_nat_to_be_of_be_to_nat(b);
            assert(b.len() == 32);
        } else if m.len() <= 32 {
            crate::encoding::lemma_pow256_values();
            crate::encoding::lemma_pow256_pos(m.len());
            lemma_pow256_monotone(m.len(), 32);
        }
    }
}

/// Powers of 256 grow with the exponent.
proof fn lemma_pow256_monotone(a: nat, b: nat)
    requires
        a <= b,
    ensures
        crate::encoding::pow256(a) <= crate::encoding::pow256(b),
    decreases b - a,
{
    if a < b {
        lemma_pow256_monotone(a, (b - 1) as nat);
        crate::encoding::lemma_pow256_pos((b - 1) as nat);
    }
}

} // verus!
