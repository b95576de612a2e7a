//! 256-bit unsigned integers as four little-endian 64-bit limbs, and their
//! big-endian byte encoding.
use vstd::prelude::*;
use vstd::arithmetic::div_mod::lemma_fundamental_div_mod_converse;
use crate::encoding;

verus! {

/// The limbs of `n mod 2^256`, least significant first.
pub open spec fn nat_to_limbs(n: nat) -> [u64; 4] {
    [
        (n % 0x1_0000_0000_0000_0000nat) as u64,
        ((n / 0x1_0000_0000_0000_0000nat) % 0x1_0000_0000_0000_0000nat) as u64,
        ((n / 0x1_0000_0000_0000_0000_0000_0000_0000_0000nat) % 0x1_0000_0000_0000_0000nat) as u64,
        ((n / 0x1_0000_0000_0000_0000_0000_0000_0000_0000_0000_0000_0000_0000nat)
            % 0x1_0000_0000_0000_0000nat) as u64,
    ]
}

/// The eight big-endian bytes of a 64-bit word.
pub open spec fn u64_to_be(w: u64) -> Seq<u8> {
    seq![
        (w >> 56u64) as u8,
        (w >> 48u64) as u8,
        (w >> 40u64) as u8,
        (w >> 32u64) as u8,
        (w >> 24u64) as u8,
        (w >> 16u64) as u8,
        (w >> 8u64) as u8,
        w as u8,
    ]
}

/// Four limbs denote a number below `2^256`.
pub proof fn lemma_limbs_bound(l: [u64; 4])
    ensures
        encoding::limbs_to_nat(l) < encoding::pow256(32),
{
    encoding::lemma_pow256_values();
}

/// Limbs are determined by the number they denote.
pub proof fn lemma_nat_to_limbs_of_limbs(l: [u64; 4])
    ensures
        nat_to_limbs(encoding::limbs_to_nat(l)) == l,
{
    let k1: int = 0x1_0000_0000_0000_0000int;
    let k2: int = 0x1_0000_0000_0000_0000_0000_0000_0000_0000int;
    let k3: int = 0x1_0000_0000_0000_0000_0000_0000_0000_0000_0000_0000_0000_0000int;
    let v = encoding::limbs_to_nat(l) as int;
    let (l0, l1, l2, l3) = (l[0] as int, l[1] as int, l[2] as int, l[3] as int);
    lemma_fundamental_div_mod_converse(v, k1, l1 + l2 * k1 + l3 * k2, l0);
    lemma_fundamental_div_mod_converse(v, k2, l2 + l3 * k1, l0 + l1 * k1);
    lemma_fundamental_div_mod_converse(v, k3, l3, l0 + l1 * k1 + l2 * k2);
    lemma_fundamental_div_mod_converse(l1 + l2 * k1 + l3 * k2, k1, l2 + l3 * k1, l1);
    lemma_fundamental_div_mod_converse(l2 + l3 * k1, k1, l3, l2);
    lemma_fundamental_div_mod_converse(l3, k1, 0, l3);
    let m = nat_to_limbs(encoding::limbs_to_nat(l));
    assert(m =~= l);
}

/// Below `2^256`, a number is what its limbs denote.
pub proof fn lemma_limbs_of_nat(n: nat)
    requires
        n < encoding::pow256(32),
    ensures
        encoding::limbs_to_nat(nat_to_limbs(n)) == n,
{
    encoding::lemma_pow256_values();
    let k1: int = 0x1_0000_0000_0000_0000int;
    let k2: int = 0x1_0000_0000_0000_0000_0000_0000_0000_0000int;
    let k3: int = 0x1_0000_0000_0000_0000_0000_0000_0000_0000_0000_0000_0000_0000int;
    let l = nat_to_limbs(n);
    let x = n as int;
    let q3 = x / k3;
    let r3 = x % k3;
    vstd::arithmetic::div_mod::lemma_fundamental_div_mod(x, k3);
    assert(q3 < k1) by (nonlinear_arith)
        requires
            x == k3 * q3 + r3,
            0 <= r3,
            x < k3 * k1,
            k3 > 0,
    ;
    let q2 = x / k2;
    vstd::arithmetic::div_mod::lemma_fundamental_div_mod(x, k2);
    vstd::arithmetic::div_mod::lemma_fundamental_div_mod(x, k1);
    vstd::arithmetic::div_mod::lemma_fundamental_div_mod(x / k1, k1);
    vstd::arithmetic::div_mod::lemma_fundamental_div_mod(x / k2, k1);
    vstd::arithmetic::div_mod::lemma_div_denominator(x, k1, k1);
    vstd::arithmetic::div_mod::lemma_div_denominator(x, k2, k1);
    vstd::arithmetic::div_mod::lemma_small_mod(q3 as nat, k1 as nat);
    assert(k1 * k1 == k2);
    assert(k2 * k1 == k3);
    assert(l[3] as int == q3);
    assert(l[2] as int == q2 % k1);
    assert(l[1] as int == (x / k1) % k1);
    assert(l[0] as int == x % k1);
}

/// One 64-bit word read back from its eight big-endian bytes.
pub proof fn lemma_u64_to_be(w: u64)
    ensures
        u64_to_be(w).len() == 8,
        encoding::be_to_nat(u64_to_be(w)) == w,
{
    let s = u64_to_be(w);
    encoding::lemma_be_to_nat_8(s);
    assert(w == ((w >> 56u64) as u8) as u64 * 0x100_0000_0000_0000u64 + ((w >> 48u64) as u8) as u64
        * 0x1_0000_0000_0000u64 + ((w >> 40u64) as u8) as u64 * 0x100_0000_0000u64 + ((w
        >> 32u64) as u8) as u64 * 0x1_0000_0000u64 + ((w >> 24u64) as u8) as u64 * 0x100_0000u64
        + ((w >> 16u64) as u8) as u64 * 0x1_0000u64 + ((w >> 8u64) as u8) as u64 * 0x100u64 + (
    w as u8) as u64) by (bit_vector);
}

/// Reads the 64-bit word stored big-endian at `bytes[start..start + 8]`.
fn be_word(bytes: &[u8; 32], start: usize) -> (w: u64)
    requires
        start <= 24,
    ensures
        w == encoding::be_to_nat(bytes@.subrange(start as int, start + 8)),
{
    proof {
        encoding::lemma_be_to_nat_8(bytes@.subrange(start as int, start + 8));
    }
    (bytes[start] as u64) * 0x100_0000_0000_0000 + (bytes[start + 1] as u64) * 0x1_0000_0000_0000
        + (bytes[start + 2] as u64) * 0x100_0000_0000 + (bytes[start + 3] as u64) * 0x1_0000_0000
        + (bytes[start + 4] as u64) * 0x100_0000 + (bytes[start + 5] as u64) * 0x1_0000 + (
    bytes[start + 6] as u64) * 0x100 + (bytes[start + 7] as u64)
}

/// Writes `w` big-endian into `bytes[start..start + 8]`.
fn put_be_word(bytes: &mut [u8; 32], start: usize, w: u64)
    requires
        start <= 24,
    ensures
        final(bytes)@ == old(bytes)@.subrange(0, start as int) + u64_to_be(w) + old(
            bytes,
        )@.subrange(start + 8, 32),
{
    bytes[start] = (w >> 56u64) as u8;
    bytes[start + 1] = (w >> 48u64) as u8;
    bytes[start + 2] = (w >> 40u64) as u8;
    bytes[start + 3] = (w >> 32u64) as u8;
    bytes[start + 4] = (w >> 24u64) as u8;
    bytes[start + 5] = (w >> 16u64) as u8;
    bytes[start + 6] = (w >> 8u64) as u8;
    bytes[start + 7] = w as u8;
    assert(bytes@ =~= old(bytes)@.subrange(0, start as int) + u64_to_be(w) + old(
        bytes,
    )@.subrange(start + 8, 32));
}

/// The four limbs of the number that 32 big-endian bytes denote.
pub fn bigint_from_be_bytes(bytes: &[u8; 32]) -> (l: [u64; 4])
    ensures
        encoding::limbs_to_nat(l) == encoding::be_to_nat(bytes@),
{
    let l = [be_word(bytes, 24), be_word(bytes, 16), be_word(bytes, 8), be_word(bytes, 0)];
    proof {
        encoding::lemma_be_to_nat_32(bytes@);
    }
    l
}

/// The 32 big-endian bytes of the number that four limbs denote.
pub fn bigint_to_be_bytes(l: &[u64; 4]) -> (bytes: [u8; 32])
    ensures
        bytes@ == encoding::nat_to_be(encoding::limbs_to_nat(*l), 32),
        encoding::be_to_nat(bytes@) == encoding::limbs_to_nat(*l),
{
    let mut bytes = [0u8; 32];
    put_be_word(&mut bytes, 0, l[3]);
    put_be_word(&mut bytes, 8, l[2]);
    put_be_word(&mut bytes, 16, l[1]);
    put_be_word(&mut bytes, 24, l[0]);
    proof {
        lemma_u64_to_be(l[0]);
        lemma_u64_to_be(l[1]);
        lemma_u64_to_be(l[2]);
        lemma_u64_to_be(l[3]);
        assert(bytes@.subrange(0, 8) =~= u64_to_be(l[3]));
        assert(bytes@.subrange(8, 16) =~= u64_to_be(l[2]));
        assert(bytes@.subrange(16, 24) =~= u64_to_be(l[1]));
        assert(bytes@.subrange(24, 32) =~= u64_to_be(l[0]));
        encoding::lemma_be_to_nat_32(bytes@);
        encoding::lemma_nat_to_be_of_be_to_nat(bytes@);
    }
    bytes
}

/// Whether the first number is below the second.
pub fn limbs_lt(a: &[u64; 4], b: &[u64; 4]) -> (res: bool)
    ensures
        res == (encoding::limbs_to_nat(*a) < encoding::limbs_to_nat(*b)),
{
    if a[3] != b[3] {
        a[3] < b[3]
    } else if a[2] != b[2] {
        a[2] < b[2]
    } else if a[1] != b[1] {
        a[1] < b[1]
    } else {
        a[0] < b[0]
    }
}

/// One limb of a subtraction: `a - b - borrow_in`, with the borrow out.
fn sub_limb(a: u64, b: u64, borrow_in: u64) -> (res: (u64, u64))
    requires
        borrow_in <= 1,
    ensures
        res.1 <= 1,
        res.0 + b + borrow_in == a + res.1 as nat * 0x1_0000_0000_0000_0000,
{
    let t: u128 = a as u128 + 0x1_0000_0000_0000_0000u128 - b as u128 - borrow_in as u128;
    if t >= 0x1_0000_0000_0000_0000u128 {
        ((t - 0x1_0000_0000_0000_0000u128) as u64, 0)
    } else {
        (t as u64, 1)
    }
}

/// One limb of an addition: `a + b + carry_in`, with the carry out.
fn add_limb(a: u64, b: u64, carry_in: u64) -> (res: (u64, u64))
    requires
        carry_in <= 1,
    ensures
        res.1 <= 1,
        res.0 + res.1 as nat * 0x1_0000_0000_0000_0000 == a + b + carry_in,
{
    let t: u128 = a as u128 + b as u128 + carry_in as u128;
    if t >= 0x1_0000_0000_0000_0000u128 {
        ((t - 0x1_0000_0000_0000_0000u128) as u64, 1)
    } else {
        (t as u64, 0)
    }
}

/// `a - b` modulo `2^256`, and whether it borrowed (`a < b`).
pub fn limbs_sub(a: &[u64; 4], b: &[u64; 4]) -> (res: ([u64; 4], bool))
    ensures
        res.1 == (encoding::limbs_to_nat(*a) < encoding::limbs_to_nat(*b)),
        encoding::limbs_to_nat(res.0) + encoding::limbs_to_nat(*b) == encoding::limbs_to_nat(*a) + (if res.1 {
            encoding::pow256(32)
        } else {
            0
        }),
{
    proof {
        encoding::lemma_pow256_values();
        lemma_limbs_bound(*a);
        lemma_limbs_bound(*b);
    }
    let (d0, c1) = sub_limb(a[0], b[0], 0);
    let (d1, c2) = sub_limb(a[1], b[1], c1);
    let (d2, c3) = sub_limb(a[2], b[2], c2);
    let (d3, c4) = sub_limb(a[3], b[3], c3);
    let out = [d0, d1, d2, d3];
    proof {
        lemma_limbs_bound(out);
    }
    (out, c4 == 1)
}

/// `a + b` modulo `2^256`, and whether it carried out.
pub fn limbs_add(a: &[u64; 4], b: &[u64; 4]) -> (res: ([u64; 4], bool))
    ensures
        encoding::limbs_to_nat(res.0) + (if res.1 {
            encoding::pow256(32)
        } else {
            0
        }) == encoding::limbs_to_nat(*a) + encoding::limbs_to_nat(*b),
{
    proof {
        encoding::lemma_pow256_values();
    }
    let (d0, c1) = add_limb(a[0], b[0], 0);
    let (d1, c2) = add_limb(a[1], b[1], c1);
    let (d2, c3) = add_limb(a[2], b[2], c2);
    let (d3, c4) = add_limb(a[3], b[3], c3);
    ([d0, d1, d2, d3], c4 == 1)
}


/// Reading 32 big-endian bytes into limbs and writing them back gives the
/// same bytes: `bigint_to_be_bytes(bigint_from_be_bytes(b)) == b`.
pub proof fn law_bigint_bytes_roundtrip(bytes: Seq<u8>)
    requires
        bytes.len() == 32,
    ensures
        encoding::nat_to_be(encoding::be_to_nat(bytes), 32) == bytes,
{
    encoding::lemma_nat_to_be_of_be_to_nat(bytes);
}

/// Writing limbs as 32 big-endian bytes and reading them back gives the same
/// limbs: `bigint_from_be_bytes(bigint_to_be_bytes(l)) == l`.
pub proof fn law_limbs_bytes_roundtrip(l: [u64; 4], back: [u64; 4])
    requires
        encoding::limbs_to_nat(back) == encoding::be_to_nat(
            encoding::nat_to_be(encoding::limbs_to_nat(l), 32),
        ),
    ensures
        back == l,
{
    lemma_limbs_bound(l);
    encoding::lemma_be_to_nat_of_nat_to_be(encoding::limbs_to_nat(l), 32);
    vstd::arithmetic::div_mod::lemma_small_mod(
        encoding::limbs_to_nat(l),
        encoding::pow256(32),
    );
    lemma_nat_to_limbs_of_limbs(l);
    lemma_nat_to_limbs_of_limbs(back);
    assert(back =~= l);
}

} // verus!
