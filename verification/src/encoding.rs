//! Big-endian byte strings and little-endian 64-bit limbs as natural numbers.
use vstd::prelude::*;
use vstd::arithmetic::div_mod::{lemma_breakdown, lemma_fundamental_div_mod_converse};

verus! {

/// `256^n`.
pub open spec fn pow256(n: nat) -> nat
    decreases n,
{
    if n == 0 {
        1
    } else {
        256 * pow256((n - 1) as nat)
    }
}

/// The number that a big-endian byte string denotes.
pub open spec fn be_to_nat(s: Seq<u8>) -> nat
    decreases s.len(),
{
    if s.len() == 0 {
        0
    } else {
        be_to_nat(s.drop_last()) * 256 + s.last() as nat
    }
}

/// The `len` lowest bytes of `n`, most significant first.
pub open spec fn nat_to_be(n: nat, len: nat) -> Seq<u8>
    decreases len,
{
    if len == 0 {
        seq![]
    } else {
        nat_to_be(n / 256, (len - 1) as nat).push((n % 256) as u8)
    }
}

/// The number that four little-endian 64-bit limbs denote.
pub open spec fn limbs_to_nat(l: [u64; 4]) -> nat {
    l[0] as nat + l[1] as nat * 0x1_0000_0000_0000_0000 + l[2] as nat
        * 0x1_0000_0000_0000_0000_0000_0000_0000_0000 + l[3] as nat
        * 0x1_0000_0000_0000_0000_0000_0000_0000_0000_0000_0000_0000_0000
}

/// The powers of 256 at the limb boundaries.
pub proof fn lemma_pow256_values()
    ensures
        pow256(8) == 0x1_0000_0000_0000_0000,
        pow256(16) == 0x1_0000_0000_0000_0000_0000_0000_0000_0000,
        pow256(24) == 0x1_0000_0000_0000_0000_0000_0000_0000_0000_0000_0000_0000_0000,
        pow256(32) == 0x1_0000_0000_0000_0000_0000_0000_0000_0000_0000_0000_0000_0000_0000_0000_0000_0000,
{
    reveal_with_fuel(pow256, 33);
}

/// Every power of 256 is positive.
pub proof fn lemma_pow256_pos(n: nat)
    ensures
        pow256(n) > 0,
    decreases n,
{
    if n > 0 {
        lemma_pow256_pos((n - 1) as nat);
    }
}

/// The value of a concatenation: the head shifted by the length of the tail.
pub proof fn lemma_be_to_nat_append(a: Seq<u8>, b: Seq<u8>)
    ensures
        be_to_nat(a + b) == be_to_nat(a) * pow256(b.len()) + be_to_nat(b),
    decreases b.len(),
{
    if b.len() == 0 {
        assert(a + b =~= a);
        assert(pow256(0) == 1);
        assert(be_to_nat(b) == 0);
        assert(be_to_nat(a) * 1 == be_to_nat(a));
    } else {
        let b1 = b.drop_last();
        assert((a + b).drop_last() =~= a + b1);
        assert((a + b).last() == b.last());
        lemma_be_to_nat_append(a, b1);
        let x = be_to_nat(a);
        let p1 = pow256(b1.len());
        assert(pow256(b.len()) == 256 * p1);
        assert(be_to_nat(a + b) == be_to_nat(a + b1) * 256 + b.last() as nat);
        assert(be_to_nat(b) == be_to_nat(b1) * 256 + b.last() as nat);
        assert((x * p1 + be_to_nat(b1)) * 256 == x * (256 * p1) + be_to_nat(b1) * 256)
            by (nonlinear_arith);
    }
}

/// A string of `n` bytes denotes a number below `256^n`.
pub proof fn lemma_be_to_nat_bound(s: Seq<u8>)
    ensures
        be_to_nat(s) < pow256(s.len()),
    decreases s.len(),
{
    if s.len() > 0 {
        lemma_be_to_nat_bound(s.drop_last());
        let x = be_to_nat(s.drop_last());
        let p = pow256(s.drop_last().len());
        assert(x * 256 + s.last() < p * 256) by (nonlinear_arith)
            requires
                x < p,
                s.last() < 256,
        ;
    }
}

/// Encoding at width `len` gives `len` bytes.
pub proof fn lemma_nat_to_be_len(n: nat, len: nat)
    ensures
        nat_to_be(n, len).len() == len,
    decreases len,
{
    if len > 0 {
        lemma_nat_to_be_len(n / 256, (len - 1) as nat);
    }
}

/// Encoding then decoding keeps the number modulo the width.
pub proof fn lemma_be_to_nat_of_nat_to_be(n: nat, len: nat)
    ensures
        be_to_nat(nat_to_be(n, len)) == n % pow256(len),
    decreases len,
{
    if len == 0 {
    } else {
        let l1 = (len - 1) as nat;
        lemma_be_to_nat_of_nat_to_be(n / 256, l1);
        lemma_nat_to_be_len(n / 256, l1);
        let s = nat_to_be(n, len);
        assert(s.drop_last() =~= nat_to_be(n / 256, l1));
        lemma_pow256_pos(l1);
        lemma_breakdown(n as int, 256, pow256(l1) as int);
    }
}

/// Decoding then encoding at the same width gives the string back.
pub proof fn lemma_nat_to_be_of_be_to_nat(s: Seq<u8>)
    ensures
        nat_to_be(be_to_nat(s), s.len()) == s,
    decreases s.len(),
{
    if s.len() == 0 {
        assert(nat_to_be(be_to_nat(s), 0) =~= s);
    } else {
        let s1 = s.drop_last();
        let x = be_to_nat(s1);
        let n = be_to_nat(s);
        lemma_fundamental_div_mod_converse(n as int, 256, x as int, s.last() as int);
        lemma_nat_to_be_of_be_to_nat(s1);
        assert(nat_to_be(n, s.len()) =~= s1.push(s.last()));
        assert(s1.push(s.last()) =~= s);
    }
}

/// A string of eight bytes read as one 64-bit word.
pub proof fn lemma_be_to_nat_8(s: Seq<u8>)
    requires
        s.len() == 8,
    ensures
        be_to_nat(s) == s[0] as nat * 0x100_0000_0000_0000 + s[1] as nat * 0x1_0000_0000_0000
            + s[2] as nat * 0x100_0000_0000 + s[3] as nat * 0x1_0000_0000 + s[4] as nat
            * 0x100_0000 + s[5] as nat * 0x1_0000 + s[6] as nat * 0x100 + s[7] as nat,
{
    let s7 = s.drop_last();
    let s6 = s7.drop_last();
    let s5 = s6.drop_last();
    let s4 = s5.drop_last();
    let s3 = s4.drop_last();
    let s2 = s3.drop_last();
    let s1 = s2.drop_last();
    let s0 = s1.drop_last();
    assert(s0.len() == 0);
    assert(be_to_nat(s0) == 0);
    assert(s1.last() == s[0]);
    assert(s2.last() == s[1]);
    assert(s3.last() == s[2]);
    assert(s4.last() == s[3]);
    assert(s5.last() == s[4]);
    assert(s6.last() == s[5]);
    assert(s7.last() == s[6]);
    assert(be_to_nat(s1) == s[0] as nat);
    assert(be_to_nat(s2) == be_to_nat(s1) * 256 + s[1] as nat);
    assert(be_to_nat(s3) == be_to_nat(s2) * 256 + s[2] as nat);
    assert(be_to_nat(s4) == be_to_nat(s3) * 256 + s[3] as nat);
    assert(be_to_nat(s5) == be_to_nat(s4) * 256 + s[4] as nat);
    assert(be_to_nat(s6) == be_to_nat(s5) * 256 + s[5] as nat);
    assert(be_to_nat(s7) == be_to_nat(s6) * 256 + s[6] as nat);
    assert(be_to_nat(s) == be_to_nat(s7) * 256 + s[7] as nat);
}

/// Four 8-byte words, most significant first, read as a 256-bit number.
pub proof fn lemma_be_to_nat_32(s: Seq<u8>)
    requires
        s.len() == 32,
    ensures
        be_to_nat(s) == be_to_nat(s.subrange(24, 32)) + be_to_nat(s.subrange(16, 24))
            * 0x1_0000_0000_0000_0000 + be_to_nat(s.subrange(8, 16))
            * 0x1_0000_0000_0000_0000_0000_0000_0000_0000 + be_to_nat(s.subrange(0, 8))
            * 0x1_0000_0000_0000_0000_0000_0000_0000_0000_0000_0000_0000_0000,
{
    let w0 = s.subrange(0, 8);
    let w1 = s.subrange(8, 16);
    let w2 = s.subrange(16, 24);
    let w3 = s.subrange(24, 32);
    lemma_pow256_values();
    lemma_be_to_nat_append(w0, w1);
    lemma_be_to_nat_append(w0 + w1, w2);
    lemma_be_to_nat_append(w0 + w1 + w2, w3);
    assert(w0 + w1 + w2 + w3 =~= s);
    let (a0, a1, a2, a3) = (be_to_nat(w0), be_to_nat(w1), be_to_nat(w2), be_to_nat(w3));
    let p: nat = 0x1_0000_0000_0000_0000;
    assert(be_to_nat(w0 + w1) == a0 * p + a1);
    assert(be_to_nat(w0 + w1 + w2) == (a0 * p + a1) * p + a2);
    assert(be_to_nat(s) == ((a0 * p + a1) * p + a2) * p + a3);
    assert(((a0 * p + a1) * p + a2) * p + a3 == a3 + a2 * 0x1_0000_0000_0000_0000 + a1
        * 0x1_0000_0000_0000_0000_0000_0000_0000_0000 + a0
        * 0x1_0000_0000_0000_0000_0000_0000_0000_0000_0000_0000_0000_0000) by (nonlinear_arith)
        requires
            p == 0x1_0000_0000_0000_0000,
    ;
}

/// Leading zero bytes do not change the value.
pub proof fn lemma_be_to_nat_zeros(z: Seq<u8>)
    requires
        forall|j: int| 0 <= j < z.len() ==> z[j] == 0,
    ensures
        be_to_nat(z) == 0,
    decreases z.len(),
{
    if z.len() > 0 {
        lemma_be_to_nat_zeros(z.drop_last());
    }
}

} // verus!
