//! The BN254 scalar field Fr, stored canonically as four little-endian limbs.
//! All byte encodings are 32 bytes big-endian (snarkjs / EIP-197).
use vstd::prelude::*;
use vstd::arithmetic::div_mod::lemma_small_mod;
use ark_bn254::Fr as ArkFr;
use ark_ff::{BigInt, Field, PrimeField};
use crate::encoding;
use crate::limbs;
pub use crate::limbs::{bigint_from_be_bytes, bigint_to_be_bytes};

verus! {

/// The order `r` of the BN254 scalar field.
pub open spec fn fr_modulus() -> nat {
    21888242871839275222246405745257275088548364400416034343698204186575808495617nat
}

/// Field addition.
pub open spec fn fr_add(a: nat, b: nat) -> nat {
    (a + b) % fr_modulus()
}

/// Field subtraction.
pub open spec fn fr_sub(a: nat, b: nat) -> nat {
    ((a as int - b as int) % (fr_modulus() as int)) as nat
}

/// Field multiplication.
pub open spec fn fr_mul(a: nat, b: nat) -> nat {
    (a * b) % fr_modulus()
}

/// Field negation.
pub open spec fn fr_neg(a: nat) -> nat {
    fr_sub(0, a)
}

/// The multiplicative inverse of a nonzero element: the `w < r` with
/// `a * w = 1 (mod r)`.
pub open spec fn fr_inv(a: nat) -> nat {
    choose|w: nat| w < fr_modulus() && fr_mul(a, w) == 1
}

/// An element has at most one inverse below `r`, so any inverse found is
/// `fr_inv`.
pub proof fn lemma_fr_inv_unique(a: nat, w: nat)
    requires
        w < fr_modulus(),
        fr_mul(a, w) == 1,
    ensures
        fr_inv(a) == w,
{
    let r = fr_modulus() as int;
    let v = fr_inv(a);
    assert(v < fr_modulus() && fr_mul(a, v) == 1);
    // v = v * (a * w) = (a * v) * w = w  (mod r)
    vstd::arithmetic::div_mod::lemma_mul_mod_noop_right(v as int, (a * w) as int, r);
    vstd::arithmetic::mul::lemma_mul_is_associative(v as int, a as int, w as int);
    vstd::arithmetic::mul::lemma_mul_is_commutative(v as int, a as int);
    vstd::arithmetic::div_mod::lemma_mul_mod_noop_left((a * v) as int, w as int, r);
    lemma_small_mod(v, fr_modulus());
    lemma_small_mod(w, fr_modulus());
}

/// The value `Fr::from_be_bytes_unchecked` gives: all the bytes read
/// big-endian, reduced modulo `r`.
pub open spec fn unchecked_value(bytes: Seq<u8>) -> nat {
    encoding::be_to_nat(bytes) % fr_modulus()
}

/// The limbs of `r`, least significant first.
pub const FR_MODULUS_LIMBS: [u64; 4] = [
    0x43e1f593f0000001u64,
    0x2833e84879b97091u64,
    0xb85045b68181585du64,
    0x30644e72e131a029u64,
];

/// The limbs of `r` denote `r`, and `r` lies between `2^256 / 6` and `2^256 / 5`.
pub proof fn lemma_fr_modulus_limbs()
    ensures
        encoding::limbs_to_nat(FR_MODULUS_LIMBS) == fr_modulus(),
        fr_modulus() < encoding::pow256(32),
        5 * fr_modulus() < encoding::pow256(32) < 6 * fr_modulus(),
{
    encoding::lemma_pow256_values();
}

/// Whether 32 big-endian bytes denote a number below `r`. Use this to reject
/// non-canonical public inputs before converting them.
pub fn is_less_than_bn254_field_size_be(bytes: &[u8; 32]) -> (res: bool)
    ensures
        res == (encoding::be_to_nat(bytes@) < fr_modulus()),
{
    let value = bigint_from_be_bytes(bytes);
    proof {
        lemma_fr_modulus_limbs();
    }
    limbs::limbs_lt(&value, &FR_MODULUS_LIMBS)
}

/// An element of the BN254 scalar field.
#[derive(Clone, Copy, Debug, PartialEq, Eq, Structural)]
pub struct Fr {
    l0: u64,
    l1: u64,
    l2: u64,
    l3: u64,
}

impl Fr {
    /// The limbs, least significant first.
    spec fn limbs(self) -> [u64; 4] {
        [self.l0, self.l1, self.l2, self.l3]
    }

    fn limb_array(&self) -> (res: [u64; 4])
        ensures
            res == self.limbs(),
    {
        [self.l0, self.l1, self.l2, self.l3]
    }

    #[verifier::type_invariant]
    spec fn canonical(self) -> bool {
        encoding::limbs_to_nat(self.limbs()) < fr_modulus()
    }
}

impl View for Fr {
    type V = nat;

    /// The element as a number; it lies in `[0, r)`.
    closed spec fn view(&self) -> nat {
        encoding::limbs_to_nat(self.limbs())
    }
}

/// Two elements are equal exactly when their values are.
pub broadcast proof fn lemma_fr_eq(x: Fr, y: Fr)
    ensures
        #![trigger x@, y@]
        (x == y) <==> (x@ == y@),
{
    if x@ == y@ {
        limbs::lemma_nat_to_limbs_of_limbs(x.limbs());
        limbs::lemma_nat_to_limbs_of_limbs(y.limbs());
        assert(x.limbs() == y.limbs());
        assert(x.limbs()[0] == y.limbs()[0]);
        assert(x.limbs()[1] == y.limbs()[1]);
        assert(x.limbs()[2] == y.limbs()[2]);
        assert(x.limbs()[3] == y.limbs()[3]);
    }
}

/// The canonical element with value `n mod r`.
pub closed spec fn fr_of_nat(n: nat) -> Fr {
    let l = limbs::nat_to_limbs(n % fr_modulus());
    Fr { l0: l[0], l1: l[1], l2: l[2], l3: l[3] }
}

pub broadcast proof fn lemma_fr_of_nat(n: nat)
    ensures
        #[trigger] fr_of_nat(n)@ == n % fr_modulus(),
        fr_of_nat(n)@ == fr_of_nat(n % fr_modulus())@,
        n < fr_modulus() ==> fr_of_nat(n)@ == n,
{
    if n < fr_modulus() {
        lemma_small_mod(n, fr_modulus());
    }
    lemma_fr_modulus_limbs();
    limbs::lemma_limbs_of_nat(n % fr_modulus());
    vstd::arithmetic::div_mod::lemma_mod_twice(n as int, fr_modulus() as int);
    let l = limbs::nat_to_limbs(n % fr_modulus());
    assert(fr_of_nat(n).limbs() =~= l);
}

/// Reading one more byte of a string: the value of its first `k + 1` bytes
/// is the value of the first `k`, times 256, plus byte `k` (mod r).
proof fn lemma_unchecked_value_step(s: Seq<u8>, k: int)
    requires
        0 <= k < s.len(),
    ensures
        unchecked_value(s.take(k + 1)) == fr_add(fr_mul(unchecked_value(s.take(k)), 256), s[k] as nat),
{
    assert(s.take(k + 1) =~= s.take(k).push(s[k]));
    lemma_unchecked_value_push(s.take(k), s[k]);
}

/// Reading one more byte: `v(s + [b]) = v(s) * 256 + b (mod r)`.
proof fn lemma_unchecked_value_push(s: Seq<u8>, b: u8)
    ensures
        unchecked_value(s.push(b)) == fr_add(fr_mul(unchecked_value(s), 256), b as nat),
{
    let r = fr_modulus() as int;
    let x = encoding::be_to_nat(s) as int;
    assert(s.push(b).drop_last() =~= s);
    assert(encoding::be_to_nat(s.push(b)) == x * 256 + b);
    vstd::arithmetic::div_mod::lemma_mul_mod_noop_left(x, 256, r);
    vstd::arithmetic::div_mod::lemma_add_mod_noop(x * 256, b as int, r);
    vstd::arithmetic::div_mod::lemma_mod_twice((x % r) * 256, r);
    vstd::arithmetic::div_mod::lemma_add_mod_noop(((x % r) * 256) % r, b as int, r);
    vstd::arithmetic::div_mod::lemma_add_mod_noop((x % r) * 256, b as int, r);
}

impl Fr {
    /// The element from limbs whose value is below `r`.
    fn from_limbs(l: [u64; 4]) -> (res: Fr)
        requires
            encoding::limbs_to_nat(l) < fr_modulus(),
        ensures
            res@ == encoding::limbs_to_nat(l),
            res == fr_of_nat(res@),
    {
        proof {
            limbs::lemma_nat_to_limbs_of_limbs(l);
            lemma_small_mod(encoding::limbs_to_nat(l), fr_modulus());
        }
        let res = Fr { l0: l[0], l1: l[1], l2: l[2], l3: l[3] };
        assert(res.limbs() =~= l);
        assert(fr_of_nat(res@).limbs() =~= l);
        res
    }

    /// `self * 256 + b`: one more big-endian byte shifted in.
    fn shift_in_byte(self, b: u8) -> (res: Fr)
        ensures
            res@ == fr_add(fr_mul(self@, 256), b as nat),
    {
        let base = Fr::from_u64(256);
        let byte = Fr::from_u64(b as u64);
        let shifted = self * base;
        proof {
            lemma_fr_of_nat(fr_mul(self@, 256));
            lemma_small_mod(fr_mul(self@, 256), fr_modulus());
        }
        let res = shifted + byte;
        proof {
            lemma_fr_of_nat(fr_add(shifted@, byte@));
            lemma_small_mod(fr_add(shifted@, byte@), fr_modulus());
        }
        res
    }

    /// The additive identity.
    pub fn zero() -> (res: Fr)
        ensures
            res@ == 0,
    {
        Fr::from_limbs([0, 0, 0, 0])
    }

    /// The multiplicative identity.
    pub fn one() -> (res: Fr)
        ensures
            res@ == 1,
    {
        Fr::from_limbs([1, 0, 0, 0])
    }

    /// The element with value `v` (always below `r`).
    pub(crate) fn from_u64(v: u64) -> (res: Fr)
        ensures
            res@ == v,
            res == fr_of_nat(v as nat),
    {
        let res = Fr::from_limbs([v, 0, 0, 0]);
        assert(res@ == v);
        res
    }

    /// Converts big-endian bytes, rejecting non-canonical values: `None` exactly
    /// when the value is at least `r`.
    pub fn from_be_bytes(bytes: &[u8; 32]) -> (res: Option<Fr>)
        ensures
            res is Some <==> encoding::be_to_nat(bytes@) < fr_modulus(),
            res matches Some(f) ==> f@ == encoding::be_to_nat(bytes@),
    {
        let l = limbs::bigint_from_be_bytes(bytes);
        proof {
            lemma_fr_modulus_limbs();
        }
        if !limbs::limbs_lt(&l, &FR_MODULUS_LIMBS) {
            return None;
        }
        Some(Fr::from_limbs(l))
    }

    /// Converts big-endian bytes of any length with silent reduction modulo
    /// `r`: the value of all the bytes, reduced.
    pub fn from_be_bytes_unchecked(bytes: &[u8]) -> (res: Fr)
        ensures
            res@ == unchecked_value(bytes@),
    {
        // The first (at most 32) bytes, right-aligned in a 32-byte buffer.
        let len: usize = if bytes.len() < 32 {
            bytes.len()
        } else {
            32
        };
        let start: usize = 32 - len;
        let mut padded = [0u8; 32];
        let mut i: usize = 0;
        while i < len
            invariant
                len <= bytes.len(),
                len <= 32,
                start == 32 - len,
                0 <= i <= len,
                forall|j: int| 0 <= j < start ==> padded@[j] == 0,
                forall|j: int| 0 <= j < i ==> padded@[start + j] == bytes@[j],
            decreases len - i,
        {
            padded[start + i] = bytes[i];
            i = i + 1;
        }
        proof {
            let taken = bytes@.take(len as int);
            let zeros = padded@.subrange(0, start as int);
            assert(padded@ =~= zeros + taken);
            encoding::lemma_be_to_nat_append(zeros, taken);
            encoding::lemma_be_to_nat_zeros(zeros);
        }
        let mut value = limbs::bigint_from_be_bytes(&padded);
        proof {
            lemma_fr_modulus_limbs();
            limbs::lemma_limbs_bound(value);
        }
        let ghost target = encoding::be_to_nat(padded@) % fr_modulus();
        loop
            invariant
                encoding::limbs_to_nat(value) % fr_modulus() == target,
                encoding::limbs_to_nat(FR_MODULUS_LIMBS) == fr_modulus(),
            ensures
                encoding::limbs_to_nat(value) % fr_modulus() == target,
                encoding::limbs_to_nat(value) < fr_modulus(),
            decreases encoding::limbs_to_nat(value),
        {
            let (reduced, borrow) = limbs::limbs_sub(&value, &FR_MODULUS_LIMBS);
            if borrow {
                break;
            }
            proof {
                vstd::arithmetic::div_mod::lemma_mod_sub_multiples_vanish(
                    encoding::limbs_to_nat(value) as int,
                    fr_modulus() as int,
                );
            }
            value = reduced;
        }
        proof {
            lemma_small_mod(encoding::limbs_to_nat(value), fr_modulus());
        }
        let mut acc = Fr::from_limbs(value);
        // Any further bytes, one at a time: acc = acc * 256 + b.
        let mut k: usize = len;
        while k < bytes.len()
            invariant
                len <= k <= bytes.len(),
                acc@ == unchecked_value(bytes@.take(k as int)),
            decreases bytes.len() - k,
        {
            proof {
                lemma_unchecked_value_step(bytes@, k as int);
            }
            acc = acc.shift_in_byte(bytes[k]);
            k = k + 1;
        }
        assert(bytes@.take(bytes@.len() as int) =~= bytes@);
        acc
    }

    /// The canonical 32-byte big-endian encoding.
    pub fn to_be_bytes(&self) -> (res: [u8; 32])
        ensures
            res@ == encoding::nat_to_be(self@, 32),
            encoding::be_to_nat(res@) == self@,
            encoding::be_to_nat(res@) < fr_modulus(),
    {
        proof {
            use_type_invariant(self);
        }
        limbs::bigint_to_be_bytes(&self.limb_array())
    }

    /// `self * self`.
    pub fn square(&self) -> (res: Fr)
        ensures
            res@ == fr_mul(self@, self@),
    {
        proof {
            use_type_invariant(self);
        }
        let l = ark_fr_square(&self.limb_array());
        Fr::from_limbs(l)
    }

    /// The multiplicative inverse, `None` exactly for zero.
    pub fn inverse(&self) -> (res: Option<Fr>)
        ensures
            res is None <==> self@ == 0,
            res matches Some(w) ==> fr_mul(self@, w@) == 1 && w@ == fr_inv(self@),
    {
        proof {
            use_type_invariant(self);
        }
        match ark_fr_inverse(&self.limb_array()) {
            Some(l) => {
                let w = Fr::from_limbs(l);
                proof {
                    lemma_fr_inv_unique(self@, w@);
                }
                Some(w)
            },
            None => None,
        }
    }
}


impl core::ops::Add for Fr {
    type Output = Fr;

    /// Field addition.
    fn add(self, rhs: Fr) -> (res: Fr) {
        proof {
            use_type_invariant(&self);
            use_type_invariant(&rhs);
            lemma_fr_modulus_limbs();
        }
        let (sum, _carry) = limbs::limbs_add(&self.limb_array(), &rhs.limb_array());
        if limbs::limbs_lt(&sum, &FR_MODULUS_LIMBS) {
            proof {
                lemma_small_mod(encoding::limbs_to_nat(sum), fr_modulus());
            }
            Fr::from_limbs(sum)
        } else {
            let (reduced, _borrow) = limbs::limbs_sub(&sum, &FR_MODULUS_LIMBS);
            proof {
                vstd::arithmetic::div_mod::lemma_mod_sub_multiples_vanish(
                    encoding::limbs_to_nat(sum) as int,
                    fr_modulus() as int,
                );
                lemma_small_mod(encoding::limbs_to_nat(reduced), fr_modulus());
            }
            Fr::from_limbs(reduced)
        }
    }
}

impl vstd::std_specs::ops::AddSpecImpl for Fr {
    open spec fn obeys_add_spec() -> bool {
        true
    }

    open spec fn add_req(self, rhs: Fr) -> bool {
        true
    }

    open spec fn add_spec(self, rhs: Fr) -> Fr {
        fr_of_nat(fr_add(self@, rhs@))
    }
}

/// The canonical difference of two canonical values.
proof fn lemma_fr_sub_value(a: nat, b: nat, v: nat)
    requires
        a < fr_modulus(),
        b < fr_modulus(),
        v == a - b + (if a < b {
            fr_modulus() as int
        } else {
            0
        }),
    ensures
        v == fr_sub(a, b),
        v < fr_modulus(),
{
    let d = a as int - b as int;
    let m = fr_modulus() as int;
    if a < b {
        vstd::arithmetic::div_mod::lemma_mod_add_multiples_vanish(d, m);
        lemma_small_mod(v, fr_modulus());
    } else {
        lemma_small_mod(v, fr_modulus());
    }
}

impl core::ops::Sub for Fr {
    type Output = Fr;

    /// Field subtraction.
    fn sub(self, rhs: Fr) -> (res: Fr) {
        proof {
            use_type_invariant(&self);
            use_type_invariant(&rhs);
            lemma_fr_modulus_limbs();
        }
        let (diff, borrow) = limbs::limbs_sub(&self.limb_array(), &rhs.limb_array());
        if borrow {
            let (wrapped, _carry) = limbs::limbs_add(&diff, &FR_MODULUS_LIMBS);
            proof {
                limbs::lemma_limbs_bound(wrapped);
                limbs::lemma_limbs_bound(diff);
                let a = self@;
                let b = rhs@;
                assert(encoding::limbs_to_nat(diff) == a - b + encoding::pow256(32));
                assert(_carry);
                assert(encoding::limbs_to_nat(wrapped) == a - b + fr_modulus());
                lemma_fr_sub_value(a, b, encoding::limbs_to_nat(wrapped));
            }
            Fr::from_limbs(wrapped)
        } else {
            proof {
                lemma_fr_sub_value(self@, rhs@, encoding::limbs_to_nat(diff));
            }
            Fr::from_limbs(diff)
        }
    }
}

impl vstd::std_specs::ops::SubSpecImpl for Fr {
    open spec fn obeys_sub_spec() -> bool {
        true
    }

    open spec fn sub_req(self, rhs: Fr) -> bool {
        true
    }

    open spec fn sub_spec(self, rhs: Fr) -> Fr {
        fr_of_nat(fr_sub(self@, rhs@))
    }
}

impl core::ops::Mul for Fr {
    type Output = Fr;

    /// Field multiplication.
    fn mul(self, rhs: Fr) -> (res: Fr) {
        proof {
            use_type_invariant(&self);
            use_type_invariant(&rhs);
        }
        let l = ark_fr_mul(&self.limb_array(), &rhs.limb_array());
        Fr::from_limbs(l)
    }
}

impl vstd::std_specs::ops::MulSpecImpl for Fr {
    open spec fn obeys_mul_spec() -> bool {
        true
    }

    open spec fn mul_req(self, rhs: Fr) -> bool {
        true
    }

    open spec fn mul_spec(self, rhs: Fr) -> Fr {
        fr_of_nat(fr_mul(self@, rhs@))
    }
}

impl core::ops::Neg for Fr {
    type Output = Fr;

    /// Field negation.
    fn neg(self) -> (res: Fr) {
        Fr::zero() - self
    }
}

impl vstd::std_specs::ops::NegSpecImpl for Fr {
    open spec fn obeys_neg_spec() -> bool {
        true
    }

    open spec fn neg_req(self) -> bool {
        true
    }

    open spec fn neg_spec(self) -> Fr {
        fr_of_nat(fr_neg(self@))
    }
}

impl From<u64> for Fr {
    /// The element with value `v`.
    fn from(v: u64) -> (res: Fr) {
        Fr::from_u64(v)
    }
}

impl vstd::std_specs::convert::FromSpecImpl<u64> for Fr {
    open spec fn obeys_from_spec() -> bool {
        true
    }

    open spec fn from_spec(v: u64) -> Fr {
        fr_of_nat(v as nat)
    }
}

/// Multiplication in `ark_bn254::Fr`: the result is `a * b mod r`.
#[verifier::external_body]
fn ark_fr_mul(a: &[u64; 4], b: &[u64; 4]) -> (res: [u64; 4])
    requires
        encoding::limbs_to_nat(*a) < fr_modulus(),
        encoding::limbs_to_nat(*b) < fr_modulus(),
    ensures
        encoding::limbs_to_nat(res) == (encoding::limbs_to_nat(*a) * encoding::limbs_to_nat(*b))
            % fr_modulus(),
{
    let x = ArkFr::from_bigint(BigInt::new(*a)).unwrap();
    let y = ArkFr::from_bigint(BigInt::new(*b)).unwrap();
    (x * y).into_bigint().0
}

/// `ark_ff::Field::square` on `ark_bn254::Fr`: the result is `a * a mod r`.
#[verifier::external_body]
fn ark_fr_square(a: &[u64; 4]) -> (res: [u64; 4])
    requires
        encoding::limbs_to_nat(*a) < fr_modulus(),
    ensures
        encoding::limbs_to_nat(res) == (encoding::limbs_to_nat(*a) * encoding::limbs_to_nat(*a))
            % fr_modulus(),
{
    ArkFr::from_bigint(BigInt::new(*a)).unwrap().square().into_bigint().0
}

/// `ark_ff::Field::inverse` on `ark_bn254::Fr`: `None` for zero, otherwise the
/// canonical `w < r` with `a * w = 1 mod r`.
#[verifier::external_body]
fn ark_fr_inverse(a: &[u64; 4]) -> (res: Option<[u64; 4]>)
    requires
        encoding::limbs_to_nat(*a) < fr_modulus(),
    ensures
        res is None <==> encoding::limbs_to_nat(*a) == 0,
        res matches Some(w) ==> encoding::limbs_to_nat(w) < fr_modulus() && (
        encoding::limbs_to_nat(*a) * encoding::limbs_to_nat(w)) % fr_modulus() == 1,
{
    match ArkFr::from_bigint(BigInt::new(*a)).unwrap().inverse() {
        Some(w) => Some(w.into_bigint().0),
        None => None,
    }
}


/// A canonical encoding survives conversion: when `Fr::from_be_bytes(b)` is
/// `Some(f)`, `f.to_be_bytes() == b`.
pub proof fn law_fr_canonical_roundtrip(bytes: Seq<u8>)
    requires
        bytes.len() == 32,
        encoding::be_to_nat(bytes) < fr_modulus(),
    ensures
        encoding::nat_to_be(encoding::be_to_nat(bytes), 32) == bytes,
{
    encoding::lemma_nat_to_be_of_be_to_nat(bytes);
}

/// The unchecked conversion is idempotent: converting the encoding of its
/// result gives the same element,
/// `from_be_bytes_unchecked(from_be_bytes_unchecked(b).to_be_bytes())
/// == from_be_bytes_unchecked(b)`.
pub proof fn law_unchecked_idempotent(bytes: Seq<u8>)
    ensures
        unchecked_value(encoding::nat_to_be(unchecked_value(bytes), 32)) == unchecked_value(bytes),
{
    let v = unchecked_value(bytes);
    let enc = encoding::nat_to_be(v, 32);
    lemma_fr_modulus_limbs();
    encoding::lemma_be_to_nat_of_nat_to_be(v, 32);
    lemma_small_mod(v, encoding::pow256(32));
    lemma_small_mod(v, fr_modulus());
}


/// Every element survives `to_be_bytes` then `from_be_bytes`: its encoding
/// is canonical (below `r`) and reads back as the same element, so
/// `Fr::from_be_bytes(&y.to_be_bytes()) == Some(y)`.
pub proof fn law_fr_element_roundtrip(y: Fr)
    requires
        y@ < fr_modulus(),
    ensures
        encoding::be_to_nat(encoding::nat_to_be(y@, 32)) == y@,
        encoding::be_to_nat(encoding::nat_to_be(y@, 32)) < fr_modulus(),
        forall|f: Fr| f@ == encoding::be_to_nat(encoding::nat_to_be(y@, 32)) ==> f == y,
{
    lemma_fr_modulus_limbs();
    encoding::lemma_be_to_nat_of_nat_to_be(y@, 32);
    lemma_small_mod(y@, encoding::pow256(32));
    assert forall|f: Fr| f@ == encoding::be_to_nat(encoding::nat_to_be(y@, 32)) implies f == y by {
        lemma_fr_eq(f, y);
    }
}

/// The residue of an integer modulo `r`, as a field value.
pub open spec fn fr_of_int(x: int) -> nat {
    (x % (fr_modulus() as int)) as nat
}

/// Field addition of values congruent to `x` and `y` is the residue of
/// `x + y`.
pub proof fn lemma_fr_add_cong(a: nat, b: nat, x: int, y: int)
    requires
        a as int % (fr_modulus() as int) == x % (fr_modulus() as int),
        b as int % (fr_modulus() as int) == y % (fr_modulus() as int),
    ensures
        fr_add(a, b) == fr_of_int(x + y),
        fr_add(a, b) as int % (fr_modulus() as int) == (x + y) % (fr_modulus() as int),
{
    let m = fr_modulus() as int;
    vstd::arithmetic::div_mod::lemma_add_mod_noop(a as int, b as int, m);
    vstd::arithmetic::div_mod::lemma_add_mod_noop(x, y, m);
    vstd::arithmetic::div_mod::lemma_mod_twice(a as int + b as int, m);
}

/// Field subtraction of values congruent to `x` and `y` is the residue of
/// `x - y`.
pub proof fn lemma_fr_sub_cong(a: nat, b: nat, x: int, y: int)
    requires
        a as int % (fr_modulus() as int) == x % (fr_modulus() as int),
        b as int % (fr_modulus() as int) == y % (fr_modulus() as int),
    ensures
        fr_sub(a, b) == fr_of_int(x - y),
        fr_sub(a, b) as int % (fr_modulus() as int) == (x - y) % (fr_modulus() as int),
{
    let m = fr_modulus() as int;
    vstd::arithmetic::div_mod::lemma_sub_mod_noop(a as int, b as int, m);
    vstd::arithmetic::div_mod::lemma_sub_mod_noop(x, y, m);
    vstd::arithmetic::div_mod::lemma_mod_twice(a as int - b as int, m);
}

/// Field multiplication of values congruent to `x` and `y` is the residue of
/// `x * y`.
pub proof fn lemma_fr_mul_cong(a: nat, b: nat, x: int, y: int)
    requires
        a as int % (fr_modulus() as int) == x % (fr_modulus() as int),
        b as int % (fr_modulus() as int) == y % (fr_modulus() as int),
    ensures
        fr_mul(a, b) == fr_of_int(x * y),
        fr_mul(a, b) as int % (fr_modulus() as int) == (x * y) % (fr_modulus() as int),
{
    let m = fr_modulus() as int;
    vstd::arithmetic::div_mod::lemma_mul_mod_noop(a as int, b as int, m);
    vstd::arithmetic::div_mod::lemma_mul_mod_noop(x, y, m);
    vstd::arithmetic::div_mod::lemma_mod_twice(a as int * b as int, m);
}

/// Negation of a value congruent to `x` is the residue of `-x`.
pub proof fn lemma_fr_neg_cong(a: nat, x: int)
    requires
        a as int % (fr_modulus() as int) == x % (fr_modulus() as int),
    ensures
        fr_neg(a) == fr_of_int(-x),
        fr_neg(a) as int % (fr_modulus() as int) == (-x) % (fr_modulus() as int),
{
    lemma_fr_sub_cong(0, a, 0, x);
}

} // verus!