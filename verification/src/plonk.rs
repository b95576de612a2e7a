//! PLONK verifier for BN254 (snarkjs-compatible).
//!
//! All G1 points are 64 bytes big-endian (x || y), G2 points 128 bytes
//! big-endian (x1 || x0 || y1 || y0), scalars 32 bytes big-endian.
use vstd::prelude::*;
use crate::encoding;
use crate::errors::PlonkError;
use crate::fr::{self, Fr};
use crate::g1::{self, CompressedG1, G1};
use crate::g2::{self, G2};
use crate::limbs;
use crate::syscalls;
use crate::transcript;
use core::ops::Neg;

verus! {

broadcast use fr::lemma_fr_eq, fr::lemma_fr_of_nat;

/// Verification key: selector and permutation commitments, the G2 point
/// `[x]_2`, and the domain parameters.
#[derive(Debug)]
pub struct VerificationKey {
    pub n_public: u32,
    pub power: u32,
    pub k1: Fr,
    pub k2: Fr,
    pub w: Fr,
    pub qm: G1,
    pub ql: G1,
    pub qr: G1,
    pub qo: G1,
    pub qc: G1,
    pub s1: G1,
    pub s2: G1,
    pub s3: G1,
    pub x_2: G2,
}

/// Proof: nine G1 commitments and six scalar evaluations.
#[derive(Debug)]
pub struct Proof {
    pub a: G1,
    pub b: G1,
    pub c: G1,
    pub z: G1,
    pub t1: G1,
    pub t2: G1,
    pub t3: G1,
    pub wxi: G1,
    pub wxiw: G1,
    pub eval_a: Fr,
    pub eval_b: Fr,
    pub eval_c: Fr,
    pub eval_s1: Fr,
    pub eval_s2: Fr,
    pub eval_zw: Fr,
}

/// Compressed proof: the nine G1 points in 32 bytes each
/// (9 * 32 + 6 * 32 = 480 bytes against 768 uncompressed).
#[derive(Debug)]
pub struct CompressedProof {
    pub a: CompressedG1,
    pub b: CompressedG1,
    pub c: CompressedG1,
    pub z: CompressedG1,
    pub t1: CompressedG1,
    pub t2: CompressedG1,
    pub t3: CompressedG1,
    pub wxi: CompressedG1,
    pub wxiw: CompressedG1,
    pub eval_a: Fr,
    pub eval_b: Fr,
    pub eval_c: Fr,
    pub eval_s1: Fr,
    pub eval_s2: Fr,
    pub eval_zw: Fr,
}

/// The Fiat-Shamir challenges and the values derived from them.
pub struct Challenges {
    pub beta: Fr,
    pub gamma: Fr,
    pub alpha: Fr,
    pub xi: Fr,
    pub xin: Fr,
    pub zh: Fr,
    pub v1: Fr,
    pub v2: Fr,
    pub v3: Fr,
    pub v4: Fr,
    pub v5: Fr,
    pub u: Fr,
}

// ---------------------------------------------------------------------------
// Proof compression
// ---------------------------------------------------------------------------

/// The nine points of a proof, in order.
pub open spec fn proof_points(p: Proof) -> Seq<Seq<u8>> {
    seq![p.a.0@, p.b.0@, p.c.0@, p.z.0@, p.t1.0@, p.t2.0@, p.t3.0@, p.wxi.0@, p.wxiw.0@]
}

/// The nine points of a compressed proof, in order.
pub open spec fn compressed_points(c: CompressedProof) -> Seq<Seq<u8>> {
    seq![c.a.0@, c.b.0@, c.c.0@, c.z.0@, c.t1.0@, c.t2.0@, c.t3.0@, c.wxi.0@, c.wxiw.0@]
}

/// The six evaluations of a proof, in order.
pub open spec fn proof_evals(p: Proof) -> Seq<nat> {
    seq![p.eval_a@, p.eval_b@, p.eval_c@, p.eval_s1@, p.eval_s2@, p.eval_zw@]
}

/// The six evaluations of a compressed proof, in order.
pub open spec fn compressed_evals(c: CompressedProof) -> Seq<nat> {
    seq![c.eval_a@, c.eval_b@, c.eval_c@, c.eval_s1@, c.eval_s2@, c.eval_zw@]
}

/// Every point of a proof lies on the curve (or is the identity).
pub open spec fn proof_on_curve(p: Proof) -> bool {
    forall|i: int| 0 <= i < 9 ==> syscalls::g1_on_curve(#[trigger] proof_points(p)[i])
}

/// `c` is `p` with every point compressed.
pub open spec fn is_compression_of(c: CompressedProof, p: Proof) -> bool {
    &&& forall|i: int|
        0 <= i < 9 ==> syscalls::bn254_g1_compress(#[trigger] proof_points(p)[i]) == Some(
            compressed_points(c)[i],
        )
    &&& compressed_evals(c) == proof_evals(p)
}

/// `p` is `c` with every point decompressed.
pub open spec fn is_decompression_of(p: Proof, c: CompressedProof) -> bool {
    &&& forall|i: int|
        0 <= i < 9 ==> syscalls::bn254_g1_decompress(#[trigger] compressed_points(c)[i]) == Some(
            proof_points(p)[i],
        )
    &&& proof_evals(p) == compressed_evals(c)
}

impl CompressedProof {
    /// Decompresses every point; fails with `G1DecompressionFailed` exactly
    /// when some point does not decompress. The compression of a proof whose
    /// points lie on the curve decompresses to that proof.
    pub fn decompress(&self) -> (res: Result<Proof, PlonkError>)
        ensures
            res is Ok <==> forall|i: int|
                0 <= i < 9 ==> (#[trigger] syscalls::bn254_g1_decompress(
                    compressed_points(*self)[i],
                )) is Some,
            res is Err ==> res == Err::<Proof, PlonkError>(PlonkError::G1DecompressionFailed),
            res matches Ok(p) ==> is_decompression_of(p, *self),
            forall|p: Proof|
                #![trigger is_compression_of(*self, p)]
                proof_on_curve(p) && is_compression_of(*self, p) ==> res == Ok::<
                    Proof,
                    PlonkError,
                >(p),
    {
        let a = self.a.decompress()?;
        let b = self.b.decompress()?;
        let c = self.c.decompress()?;
        let z = self.z.decompress()?;
        let t1 = self.t1.decompress()?;
        let t2 = self.t2.decompress()?;
        let t3 = self.t3.decompress()?;
        let wxi = self.wxi.decompress()?;
        let wxiw = self.wxiw.decompress()?;
        proof {
            assert forall|p: Proof| proof_on_curve(p) && is_compression_of(*self, p) implies (Ok::<
                Proof,
                PlonkError,
            >(
                Proof {
                    a,
                    b,
                    c,
                    z,
                    t1,
                    t2,
                    t3,
                    wxi,
                    wxiw,
                    eval_a: self.eval_a,
                    eval_b: self.eval_b,
                    eval_c: self.eval_c,
                    eval_s1: self.eval_s1,
                    eval_s2: self.eval_s2,
                    eval_zw: self.eval_zw,
                },
            ) == Ok::<Proof, PlonkError>(p)) by {
                assert(syscalls::g1_on_curve(proof_points(p)[0]));
                assert(syscalls::g1_on_curve(proof_points(p)[1]));
                assert(syscalls::g1_on_curve(proof_points(p)[2]));
                assert(syscalls::g1_on_curve(proof_points(p)[3]));
                assert(syscalls::g1_on_curve(proof_points(p)[4]));
                assert(syscalls::g1_on_curve(proof_points(p)[5]));
                assert(syscalls::g1_on_curve(proof_points(p)[6]));
                assert(syscalls::g1_on_curve(proof_points(p)[7]));
                assert(syscalls::g1_on_curve(proof_points(p)[8]));
                assert(syscalls::bn254_g1_compress(proof_points(p)[0]) == Some(compressed_points(*self)[0]));
                assert(syscalls::bn254_g1_compress(proof_points(p)[1]) == Some(compressed_points(*self)[1]));
                assert(syscalls::bn254_g1_compress(proof_points(p)[2]) == Some(compressed_points(*self)[2]));
                assert(syscalls::bn254_g1_compress(proof_points(p)[3]) == Some(compressed_points(*self)[3]));
                assert(syscalls::bn254_g1_compress(proof_points(p)[4]) == Some(compressed_points(*self)[4]));
                assert(syscalls::bn254_g1_compress(proof_points(p)[5]) == Some(compressed_points(*self)[5]));
                assert(syscalls::bn254_g1_compress(proof_points(p)[6]) == Some(compressed_points(*self)[6]));
                assert(syscalls::bn254_g1_compress(proof_points(p)[7]) == Some(compressed_points(*self)[7]));
                assert(syscalls::bn254_g1_compress(proof_points(p)[8]) == Some(compressed_points(*self)[8]));
                assert(a.0 =~= p.a.0);
                assert(b.0 =~= p.b.0);
                assert(c.0 =~= p.c.0);
                assert(z.0 =~= p.z.0);
                assert(t1.0 =~= p.t1.0);
                assert(t2.0 =~= p.t2.0);
                assert(t3.0 =~= p.t3.0);
                assert(wxi.0 =~= p.wxi.0);
                assert(wxiw.0 =~= p.wxiw.0);
                assert(proof_evals(p)[0] == self.eval_a@);
                assert(proof_evals(p)[1] == self.eval_b@);
                assert(proof_evals(p)[2] == self.eval_c@);
                assert(proof_evals(p)[3] == self.eval_s1@);
                assert(proof_evals(p)[4] == self.eval_s2@);
                assert(proof_evals(p)[5] == self.eval_zw@);
            }
        }
        Ok(
            Proof {
                a,
                b,
                c,
                z,
                t1,
                t2,
                t3,
                wxi,
                wxiw,
                eval_a: self.eval_a,
                eval_b: self.eval_b,
                eval_c: self.eval_c,
                eval_s1: self.eval_s1,
                eval_s2: self.eval_s2,
                eval_zw: self.eval_zw,
            },
        )
    }
}

impl Proof {
    /// Compresses every point; fails with `G1CompressionFailed` exactly when
    /// some point does not compress, which never happens when every point lies
    /// on the curve.
    pub fn compress(&self) -> (res: Result<CompressedProof, PlonkError>)
        ensures
            res is Ok <==> forall|i: int|
                0 <= i < 9 ==> (#[trigger] syscalls::bn254_g1_compress(proof_points(*self)[i])) is Some,
            res is Err ==> res == Err::<CompressedProof, PlonkError>(
                PlonkError::G1CompressionFailed,
            ),
            res matches Ok(c) ==> is_compression_of(c, *self),
            proof_on_curve(*self) ==> res is Ok,
    {
        proof {
            if proof_on_curve(*self) {
                assert(syscalls::g1_on_curve(proof_points(*self)[0]));
                assert(syscalls::g1_on_curve(proof_points(*self)[1]));
                assert(syscalls::g1_on_curve(proof_points(*self)[2]));
                assert(syscalls::g1_on_curve(proof_points(*self)[3]));
                assert(syscalls::g1_on_curve(proof_points(*self)[4]));
                assert(syscalls::g1_on_curve(proof_points(*self)[5]));
                assert(syscalls::g1_on_curve(proof_points(*self)[6]));
                assert(syscalls::g1_on_curve(proof_points(*self)[7]));
                assert(syscalls::g1_on_curve(proof_points(*self)[8]));
            }
        }
        let a = self.a.compress()?;
        let b = self.b.compress()?;
        let c = self.c.compress()?;
        let z = self.z.compress()?;
        let t1 = self.t1.compress()?;
        let t2 = self.t2.compress()?;
        let t3 = self.t3.compress()?;
        let wxi = self.wxi.compress()?;
        let wxiw = self.wxiw.compress()?;
        Ok(
            CompressedProof {
                a,
                b,
                c,
                z,
                t1,
                t2,
                t3,
                wxi,
                wxiw,
                eval_a: self.eval_a,
                eval_b: self.eval_b,
                eval_c: self.eval_c,
                eval_s1: self.eval_s1,
                eval_s2: self.eval_s2,
                eval_zw: self.eval_zw,
            },
        )
    }
}


/// What decompressing every point of a compressed proof gives.
pub open spec fn decompress_proof_outcome(c: CompressedProof) -> Result<Proof, PlonkError> {
    if forall|i: int|
        0 <= i < 9 ==> (#[trigger] syscalls::bn254_g1_decompress(compressed_points(c)[i])) is Some {
        Ok(
            Proof {
                a: g1::decompress_outcome(c.a)->Ok_0,
                b: g1::decompress_outcome(c.b)->Ok_0,
                c: g1::decompress_outcome(c.c)->Ok_0,
                z: g1::decompress_outcome(c.z)->Ok_0,
                t1: g1::decompress_outcome(c.t1)->Ok_0,
                t2: g1::decompress_outcome(c.t2)->Ok_0,
                t3: g1::decompress_outcome(c.t3)->Ok_0,
                wxi: g1::decompress_outcome(c.wxi)->Ok_0,
                wxiw: g1::decompress_outcome(c.wxiw)->Ok_0,
                eval_a: c.eval_a,
                eval_b: c.eval_b,
                eval_c: c.eval_c,
                eval_s1: c.eval_s1,
                eval_s2: c.eval_s2,
                eval_zw: c.eval_zw,
            },
        )
    } else {
        Err(PlonkError::G1DecompressionFailed)
    }
}

/// What compressing every point of a proof gives.
pub open spec fn compress_proof_outcome(p: Proof) -> Result<CompressedProof, PlonkError> {
    if forall|i: int|
        0 <= i < 9 ==> (#[trigger] syscalls::bn254_g1_compress(proof_points(p)[i])) is Some {
        Ok(
            CompressedProof {
                a: g1::compress_outcome(p.a)->Ok_0,
                b: g1::compress_outcome(p.b)->Ok_0,
                c: g1::compress_outcome(p.c)->Ok_0,
                z: g1::compress_outcome(p.z)->Ok_0,
                t1: g1::compress_outcome(p.t1)->Ok_0,
                t2: g1::compress_outcome(p.t2)->Ok_0,
                t3: g1::compress_outcome(p.t3)->Ok_0,
                wxi: g1::compress_outcome(p.wxi)->Ok_0,
                wxiw: g1::compress_outcome(p.wxiw)->Ok_0,
                eval_a: p.eval_a,
                eval_b: p.eval_b,
                eval_c: p.eval_c,
                eval_s1: p.eval_s1,
                eval_s2: p.eval_s2,
                eval_zw: p.eval_zw,
            },
        )
    } else {
        Err(PlonkError::G1CompressionFailed)
    }
}

impl<'a> TryFrom<&'a CompressedProof> for Proof {
    type Error = PlonkError;

    fn try_from(compressed: &'a CompressedProof) -> (res: Result<Proof, PlonkError>) {
        let res = compressed.decompress();
        proof {
            if res is Ok {
                let p = res->Ok_0;
                g1::lemma_decompress_outcome(compressed.a, p.a);
                g1::lemma_decompress_outcome(compressed.b, p.b);
                g1::lemma_decompress_outcome(compressed.c, p.c);
                g1::lemma_decompress_outcome(compressed.z, p.z);
                g1::lemma_decompress_outcome(compressed.t1, p.t1);
                g1::lemma_decompress_outcome(compressed.t2, p.t2);
                g1::lemma_decompress_outcome(compressed.t3, p.t3);
                g1::lemma_decompress_outcome(compressed.wxi, p.wxi);
                g1::lemma_decompress_outcome(compressed.wxiw, p.wxiw);
                assert(proof_evals(p)[0] == compressed_evals(*compressed)[0]);
                assert(proof_evals(p)[1] == compressed_evals(*compressed)[1]);
                assert(proof_evals(p)[2] == compressed_evals(*compressed)[2]);
                assert(proof_evals(p)[3] == compressed_evals(*compressed)[3]);
                assert(proof_evals(p)[4] == compressed_evals(*compressed)[4]);
                assert(proof_evals(p)[5] == compressed_evals(*compressed)[5]);
            }
        }
        res
    }
}

impl<'a> vstd::std_specs::convert::TryFromSpecImpl<&'a CompressedProof> for Proof {
    open spec fn obeys_try_from_spec() -> bool {
        true
    }

    open spec fn try_from_spec(compressed: &'a CompressedProof) -> Result<Proof, PlonkError> {
        decompress_proof_outcome(*compressed)
    }
}

impl<'a> TryFrom<&'a Proof> for CompressedProof {
    type Error = PlonkError;

    fn try_from(proof: &'a Proof) -> (res: Result<CompressedProof, PlonkError>) {
        let res = proof.compress();
        proof {
            if res is Ok {
                let c = res->Ok_0;
                g1::lemma_compress_outcome(proof.a, c.a);
                g1::lemma_compress_outcome(proof.b, c.b);
                g1::lemma_compress_outcome(proof.c, c.c);
                g1::lemma_compress_outcome(proof.z, c.z);
                g1::lemma_compress_outcome(proof.t1, c.t1);
                g1::lemma_compress_outcome(proof.t2, c.t2);
                g1::lemma_compress_outcome(proof.t3, c.t3);
                g1::lemma_compress_outcome(proof.wxi, c.wxi);
                g1::lemma_compress_outcome(proof.wxiw, c.wxiw);
                assert(proof_evals(*proof)[0] == compressed_evals(c)[0]);
                assert(proof_evals(*proof)[1] == compressed_evals(c)[1]);
                assert(proof_evals(*proof)[2] == compressed_evals(c)[2]);
                assert(proof_evals(*proof)[3] == compressed_evals(c)[3]);
                assert(proof_evals(*proof)[4] == compressed_evals(c)[4]);
                assert(proof_evals(*proof)[5] == compressed_evals(c)[5]);
            }
        }
        res
    }
}

impl<'a> vstd::std_specs::convert::TryFromSpecImpl<&'a Proof> for CompressedProof {
    open spec fn obeys_try_from_spec() -> bool {
        true
    }

    open spec fn try_from_spec(proof: &'a Proof) -> Result<CompressedProof, PlonkError> {
        compress_proof_outcome(*proof)
    }
}

impl PartialEq for Proof {
    fn eq(&self, other: &Proof) -> (res: bool) {
        self.a == other.a && self.b == other.b && self.c == other.c && self.z == other.z
            && self.t1 == other.t1 && self.t2 == other.t2 && self.t3 == other.t3 && self.wxi
            == other.wxi && self.wxiw == other.wxiw && self.eval_a == other.eval_a && self.eval_b
            == other.eval_b && self.eval_c == other.eval_c && self.eval_s1 == other.eval_s1
            && self.eval_s2 == other.eval_s2 && self.eval_zw == other.eval_zw
    }
}

impl vstd::std_specs::cmp::PartialEqSpecImpl for Proof {
    open spec fn obeys_eq_spec() -> bool {
        true
    }

    open spec fn eq_spec(&self, other: &Proof) -> bool {
        proof_points(*self) == proof_points(*other) && proof_evals(*self) == proof_evals(*other)
    }
}

impl Eq for Proof {
}

impl PartialEq for CompressedProof {
    fn eq(&self, other: &CompressedProof) -> (res: bool) {
        self.a == other.a && self.b == other.b && self.c == other.c && self.z == other.z
            && self.t1 == other.t1 && self.t2 == other.t2 && self.t3 == other.t3 && self.wxi
            == other.wxi && self.wxiw == other.wxiw && self.eval_a == other.eval_a && self.eval_b
            == other.eval_b && self.eval_c == other.eval_c && self.eval_s1 == other.eval_s1
            && self.eval_s2 == other.eval_s2 && self.eval_zw == other.eval_zw
    }
}

impl vstd::std_specs::cmp::PartialEqSpecImpl for CompressedProof {
    open spec fn obeys_eq_spec() -> bool {
        true
    }

    open spec fn eq_spec(&self, other: &CompressedProof) -> bool {
        compressed_points(*self) == compressed_points(*other) && compressed_evals(*self)
            == compressed_evals(*other)
    }
}

impl Eq for CompressedProof {
}

/// The key's scalar parameters and commitments, in order.
pub open spec fn vk_fields(vk: VerificationKey) -> (Seq<nat>, Seq<Seq<u8>>) {
    (
        seq![vk.n_public as nat, vk.power as nat, vk.k1@, vk.k2@, vk.w@],
        seq![
            vk.qm.0@,
            vk.ql.0@,
            vk.qr.0@,
            vk.qo.0@,
            vk.qc.0@,
            vk.s1.0@,
            vk.s2.0@,
            vk.s3.0@,
            vk.x_2.0@,
        ],
    )
}

impl PartialEq for VerificationKey {
    fn eq(&self, other: &VerificationKey) -> (res: bool) {
        self.n_public == other.n_public && self.power == other.power && self.k1 == other.k1
            && self.k2 == other.k2 && self.w == other.w && self.qm == other.qm && self.ql
            == other.ql && self.qr == other.qr && self.qo == other.qo && self.qc == other.qc
            && self.s1 == other.s1 && self.s2 == other.s2 && self.s3 == other.s3 && self.x_2
            == other.x_2
    }
}

impl vstd::std_specs::cmp::PartialEqSpecImpl for VerificationKey {
    open spec fn obeys_eq_spec() -> bool {
        true
    }

    open spec fn eq_spec(&self, other: &VerificationKey) -> bool {
        vk_fields(*self) == vk_fields(*other)
    }
}

impl Eq for VerificationKey {
}

// ---------------------------------------------------------------------------
// G1 operations
// ---------------------------------------------------------------------------

/// The 32-byte big-endian encoding of a scalar value.
pub open spec fn scalar_bytes(x: nat) -> Seq<u8> {
    encoding::nat_to_be(x, 32)
}

/// What adding two points gives.
pub open spec fn g1_add_spec(a: Seq<u8>, b: Seq<u8>) -> Result<Seq<u8>, PlonkError> {
    syscalls::or_error(syscalls::bn254_g1_addition(a + b), PlonkError::G1AdditionFailed)
}

/// What multiplying a point by a 32-byte big-endian scalar gives.
pub open spec fn g1_mul_spec(p: Seq<u8>, scalar: Seq<u8>) -> Result<Seq<u8>, PlonkError> {
    syscalls::or_error(syscalls::bn254_g1_multiplication(p + scalar), PlonkError::G1MulFailed)
}

/// The negation of a point: the identity stays; otherwise `y` becomes
/// `q - y`, computed modulo `2^256` as a 256-bit subtraction.
pub open spec fn g1_neg_spec(p: Seq<u8>) -> Seq<u8> {
    if p == syscalls::zeros(64) {
        syscalls::zeros(64)
    } else {
        p.subrange(0, 32) + encoding::nat_to_be(
            ((syscalls::fq_modulus() as int - encoding::be_to_nat(p.subrange(32, 64)) as int)
                % (encoding::pow256(32) as int)) as nat,
            32,
        )
    }
}

/// Two byte arrays side by side.
fn join_bytes<const A: usize, const B: usize, const C: usize>(a: &[u8; A], b: &[u8; B]) -> (res:
    [u8; C])
    requires
        A + B == C,
    ensures
        res@ == a@ + b@,
{
    let mut out = [0u8; C];
    let mut i: usize = 0;
    while i < A
        invariant
            A + B == C,
            out@.len() == C,
            a@.len() == A,
            0 <= i <= A,
            forall|j: int| 0 <= j < i ==> out@[j] == a@[j],
        decreases A - i,
    {
        out[i] = a[i];
        i = i + 1;
    }
    let mut k: usize = 0;
    while k < B
        invariant
            A + B == C,
            out@.len() == C,
            a@.len() == A,
            b@.len() == B,
            0 <= k <= B,
            forall|j: int| 0 <= j < A ==> out@[j] == a@[j],
            forall|j: int| 0 <= j < k ==> out@[A + j] == b@[j],
        decreases B - k,
    {
        out[A + k] = b[k];
        k = k + 1;
    }
    assert(out@ =~= a@ + b@);
    out
}

/// The bytes `p[start..start + 32]` as an array.
fn take32(p: &[u8; 64], start: usize) -> (res: [u8; 32])
    requires
        start <= 32,
    ensures
        res@ == p@.subrange(start as int, start + 32),
{
    let mut out = [0u8; 32];
    let mut i: usize = 0;
    while i < 32
        invariant
            start <= 32,
            p@.len() == 64,
            out@.len() == 32,
            0 <= i <= 32,
            forall|j: int| 0 <= j < i ==> out@[j] == p@[start + j],
        decreases 32 - i,
    {
        out[i] = p[start + i];
        i = i + 1;
    }
    assert(out@ =~= p@.subrange(start as int, start + 32));
    out
}

/// Adds two points.
pub fn g1_add(a: &G1, b: &G1) -> (res: Result<G1, PlonkError>)
    ensures
        g1::g1_result(res) == g1_add_spec(a.0@, b.0@),
        res matches Ok(p) ==> syscalls::g1_on_curve(p.0@),
{
    let input = join_bytes::<64, 64, 128>(&a.0, &b.0);
    match syscalls::g1_addition_be(&input) {
        Ok(bytes) => Ok(G1(bytes)),
        Err(e) => Err(e),
    }
}

/// The limbs of the base field order `q`, least significant first.
pub const FQ_MODULUS_LIMBS: [u64; 4] = [
    0x3c208c16d87cfd47u64,
    0x97816a916871ca8du64,
    0xb85045b68181585du64,
    0x30644e72e131a029u64,
];

/// Negates a point: `(x, y)` becomes `(x, q - y)`; the identity stays.
pub fn g1_neg(p: &G1) -> (res: G1)
    ensures
        res.0@ == g1_neg_spec(p.0@),
{
    let zero = G1::zero();
    if g1::bytes_eq(&p.0, &zero.0) {
        return zero;
    }
    let x = take32(&p.0, 0);
    let y = take32(&p.0, 32);
    let y_limbs = limbs::bigint_from_be_bytes(&y);
    let (neg_y, _borrow) = limbs::limbs_sub(&FQ_MODULUS_LIMBS, &y_limbs);
    let neg_y_bytes = limbs::bigint_to_be_bytes(&neg_y);
    proof {
        let q = syscalls::fq_modulus() as int;
        let yv = encoding::be_to_nat(y@) as int;
        let m = encoding::pow256(32) as int;
        let d = encoding::limbs_to_nat(neg_y) as int;
        assert(encoding::limbs_to_nat(FQ_MODULUS_LIMBS) == q);
        limbs::lemma_limbs_bound(neg_y);
        vstd::arithmetic::div_mod::lemma_fundamental_div_mod_converse(
            q - yv,
            m,
            if _borrow {
                -1int
            } else {
                0int
            },
            d,
        );
    }
    G1(join_bytes::<32, 32, 64>(&x, &neg_y_bytes))
}

/// Subtracts the second point from the first.
pub fn g1_sub(a: &G1, b: &G1) -> (res: Result<G1, PlonkError>)
    ensures
        g1::g1_result(res) == g1_add_spec(a.0@, g1_neg_spec(b.0@)),
        res matches Ok(p) ==> syscalls::g1_on_curve(p.0@),
{
    let neg_b = g1_neg(b);
    g1_add(a, &neg_b)
}

/// Multiplies a point by a scalar.
pub fn g1_mul(point: &G1, scalar: &Fr) -> (res: Result<G1, PlonkError>)
    ensures
        g1::g1_result(res) == g1_mul_spec(point.0@, scalar_bytes(scalar@)),
        res matches Ok(p) ==> syscalls::g1_on_curve(p.0@),
{
    let s = scalar.to_be_bytes();
    g1_mul_bytes(point, &s)
}

/// Multiplies a point by a 32-byte big-endian scalar.
pub fn g1_mul_bytes(point: &G1, scalar_bytes: &[u8; 32]) -> (res: Result<G1, PlonkError>)
    ensures
        g1::g1_result(res) == g1_mul_spec(point.0@, scalar_bytes@),
        res matches Ok(p) ==> syscalls::g1_on_curve(p.0@),
{
    let input = join_bytes::<64, 32, 96>(&point.0, scalar_bytes);
    match syscalls::g1_multiplication_be(&input) {
        Ok(bytes) => Ok(G1(bytes)),
        Err(e) => Err(e),
    }
}

/// The 32-byte encodings of the six evaluations of a proof, in order.
pub fn compute_eval_bytes(proof: &Proof) -> (res: [[u8; 32]; 6])
    ensures
        forall|i: int| 0 <= i < 6 ==> (#[trigger] res@[i])@ == scalar_bytes(proof_evals(*proof)[i]),
{
    [
        proof.eval_a.to_be_bytes(),
        proof.eval_b.to_be_bytes(),
        proof.eval_c.to_be_bytes(),
        proof.eval_s1.to_be_bytes(),
        proof.eval_s2.to_be_bytes(),
        proof.eval_zw.to_be_bytes(),
    ]
}


// ---------------------------------------------------------------------------
// Challenges
// ---------------------------------------------------------------------------

/// The 32-byte encodings of the public inputs, one after another.
pub open spec fn public_inputs_bytes(pis: Seq<Fr>) -> Seq<u8> {
    transcript::concat(pis.map_values(|x: Fr| scalar_bytes(x@)))
}

/// The bytes hashed for `beta`: the eight verification key commitments, the
/// public inputs, and the commitments `a`, `b`, `c`.
pub open spec fn beta_input(vk: VerificationKey, proof: Proof, pis: Seq<Fr>) -> Seq<u8> {
    vk.qm.0@ + vk.ql.0@ + vk.qr.0@ + vk.qo.0@ + vk.qc.0@ + vk.s1.0@ + vk.s2.0@ + vk.s3.0@
        + public_inputs_bytes(pis) + proof.a.0@ + proof.b.0@ + proof.c.0@
}

/// `x^(2^k)` in the field.
pub open spec fn fr_pow2k(x: nat, k: nat) -> nat
    decreases k,
{
    if k == 0 {
        x
    } else {
        let y = fr_pow2k(x, (k - 1) as nat);
        fr::fr_mul(y, y)
    }
}

/// The challenges for a verification key, a proof, its public inputs and
/// the encodings of its evaluations.
pub open spec fn challenges_spec(
    vk: VerificationKey,
    proof: Proof,
    pis: Seq<Fr>,
    eval_bytes: Seq<Seq<u8>>,
) -> Challenges {
    let beta = transcript::challenge_of(beta_input(vk, proof, pis));
    let gamma = transcript::challenge_of(scalar_bytes(beta));
    let alpha = transcript::challenge_of(scalar_bytes(beta) + scalar_bytes(gamma) + proof.z.0@);
    let xi = transcript::challenge_of(
        scalar_bytes(alpha) + proof.t1.0@ + proof.t2.0@ + proof.t3.0@,
    );
    let v1 = transcript::challenge_of(
        scalar_bytes(xi) + eval_bytes[0] + eval_bytes[1] + eval_bytes[2] + eval_bytes[3]
            + eval_bytes[4] + eval_bytes[5],
    );
    let v2 = fr::fr_mul(v1, v1);
    let v3 = fr::fr_mul(v2, v1);
    let v4 = fr::fr_mul(v2, v2);
    let v5 = fr::fr_mul(v4, v1);
    let u = transcript::challenge_of(proof.wxi.0@ + proof.wxiw.0@);
    let xin = fr_pow2k(xi, vk.power as nat);
    let zh = fr::fr_sub(xin, 1);
    Challenges {
        beta: fr::fr_of_nat(beta),
        gamma: fr::fr_of_nat(gamma),
        alpha: fr::fr_of_nat(alpha),
        xi: fr::fr_of_nat(xi),
        xin: fr::fr_of_nat(xin),
        zh: fr::fr_of_nat(zh),
        v1: fr::fr_of_nat(v1),
        v2: fr::fr_of_nat(v2),
        v3: fr::fr_of_nat(v3),
        v4: fr::fr_of_nat(v4),
        v5: fr::fr_of_nat(v5),
        u: fr::fr_of_nat(u),
    }
}

/// The views of an array of byte arrays.
pub open spec fn byte_arrays_view<const N: usize, const M: usize>(a: [[u8; M]; N]) -> Seq<Seq<u8>> {
    a@.map_values(|b: [u8; M]| b@)
}

/// Computes the challenges `beta`, `gamma`, `alpha`, `xi`, `v1..v5`, `u`,
/// then `xin = xi^(2^power)` and `zh = xin - 1`.
pub fn calculate_challenges<const N: usize>(
    vk: &VerificationKey,
    proof: &Proof,
    public_inputs: &[Fr; N],
    eval_bytes: &[[u8; 32]; 6],
) -> (res: Result<Challenges, PlonkError>)
    ensures
        res == Ok::<Challenges, PlonkError>(
            challenges_spec(*vk, *proof, public_inputs@, byte_arrays_view(*eval_bytes)),
        ),
{
    let (beta, gamma, alpha, xi) = challenge_rounds_1_to_4(vk, proof, public_inputs);
    let v1 = challenge_v1(&xi, eval_bytes);
    proof {
        let ebv = byte_arrays_view(*eval_bytes);
        assert(ebv[0] == eval_bytes[0]@);
        assert(ebv[1] == eval_bytes[1]@);
        assert(ebv[2] == eval_bytes[2]@);
        assert(ebv[3] == eval_bytes[3]@);
        assert(ebv[4] == eval_bytes[4]@);
        assert(ebv[5] == eval_bytes[5]@);
    }
    let v2 = v1.square();
    let v3 = v2 * v1;
    let v4 = v2.square();
    let v5 = v4 * v1;
    let u = hash_points(&proof.wxi, &proof.wxiw);
    let mut xin = xi;
    let mut k: u32 = 0;
    while k < vk.power
        invariant
            0 <= k <= vk.power,
            xin@ == fr_pow2k(xi@, k as nat),
        decreases vk.power - k,
    {
        xin = xin.square();
        k = k + 1;
    }
    let zh = xin - Fr::one();
    let ch = Challenges { beta, gamma, alpha, xi, xin, zh, v1, v2, v3, v4, v5, u };
    proof {
        let spec_ch = challenges_spec(*vk, *proof, public_inputs@, byte_arrays_view(*eval_bytes));
        lemma_fr_is(v1, v1@);
        lemma_fr_is(v2, v2@);
        lemma_fr_is(v3, v3@);
        lemma_fr_is(v4, v4@);
        lemma_fr_is(v5, v5@);
        lemma_fr_is(u, u@);
        lemma_fr_is(xin, xin@);
        lemma_fr_is(zh, zh@);
        assert(ch.beta == spec_ch.beta);
        assert(ch.gamma == spec_ch.gamma);
        assert(ch.alpha == spec_ch.alpha);
        assert(ch.xi == spec_ch.xi);
        assert(ch.v1 == spec_ch.v1);
        assert(ch.v2 == spec_ch.v2);
        assert(ch.v3 == spec_ch.v3);
        assert(ch.v4 == spec_ch.v4);
        assert(ch.v5 == spec_ch.v5);
        assert(ch.u == spec_ch.u);
        assert(ch.xin == spec_ch.xin);
        assert(ch.zh == spec_ch.zh);
    }
    Ok(ch)
}

/// The challenge of two points hashed together.
fn hash_points(p: &G1, q: &G1) -> (res: Fr)
    ensures
        res@ == transcript::challenge_of(p.0@ + q.0@),
{
    let slices: [&[u8]; 2] = [p.0.as_slice(), q.0.as_slice()];
    proof {
        let parts = transcript::slices_view(slices@);
        assert(parts =~= seq![p.0@, q.0@]);
        reveal_with_fuel(transcript::concat, 3);
        assert(parts.drop_last().drop_last() =~= Seq::<Seq<u8>>::empty());
        assert(transcript::concat(parts) =~= p.0@ + q.0@);
    }
    let res = transcript::hash_challenge(&slices);
    match res {
        Ok(c) => c,
        Err(_) => Fr::zero(),
    }
}

/// Appends 32 bytes to a byte vector.
fn push_bytes32(out: &mut Vec<u8>, bytes: &[u8; 32])
    ensures
        final(out)@ == old(out)@ + bytes@,
{
    let mut i: usize = 0;
    while i < 32
        invariant
            0 <= i <= 32,
            out@ == old(out)@ + bytes@.take(i as int),
        decreases 32 - i,
    {
        out.push(bytes[i]);
        i = i + 1;
        assert(out@ =~= old(out)@ + bytes@.take(i as int));
    }
    assert(bytes@.take(32) =~= bytes@);
}

/// The 32-byte encodings of the public inputs, one after another.
fn encode_public_inputs<const N: usize>(public_inputs: &[Fr; N]) -> (res: Vec<u8>)
    ensures
        res@ == public_inputs_bytes(public_inputs@),
{
    let ghost parts = public_inputs@.map_values(|x: Fr| scalar_bytes(x@));
    let mut out: Vec<u8> = Vec::new();
    let mut i: usize = 0;
    while i < N
        invariant
            0 <= i <= N,
            parts == public_inputs@.map_values(|x: Fr| scalar_bytes(x@)),
            parts.len() == N,
            out@ == transcript::concat(parts.take(i as int)),
        decreases N - i,
    {
        let bytes = public_inputs[i].to_be_bytes();
        push_bytes32(&mut out, &bytes);
        proof {
            assert(parts.take(i + 1).drop_last() =~= parts.take(i as int));
            assert(parts.take(i + 1).last() == parts[i as int]);
        }
        i = i + 1;
    }
    assert(parts.take(N as int) =~= parts);
    out
}

/// Rounds one to four of the transcript: `beta`, `gamma`, `alpha`, `xi`.
fn challenge_rounds_1_to_4<const N: usize>(
    vk: &VerificationKey,
    proof: &Proof,
    public_inputs: &[Fr; N],
) -> (res: (Fr, Fr, Fr, Fr))
    ensures
        ({
            let spec_ch = challenges_spec(*vk, *proof, public_inputs@, seq![]);
            &&& res.0 == spec_ch.beta
            &&& res.1 == spec_ch.gamma
            &&& res.2 == spec_ch.alpha
            &&& res.3 == spec_ch.xi
        }),
{
    let pi_all = encode_public_inputs(public_inputs);
    let pi_slice: &[u8] = pi_all.as_slice();
    let beta_slices: [&[u8]; 12] = [
        vk.qm.0.as_slice(),
        vk.ql.0.as_slice(),
        vk.qr.0.as_slice(),
        vk.qo.0.as_slice(),
        vk.qc.0.as_slice(),
        vk.s1.0.as_slice(),
        vk.s2.0.as_slice(),
        vk.s3.0.as_slice(),
        pi_slice,
        proof.a.0.as_slice(),
        proof.b.0.as_slice(),
        proof.c.0.as_slice(),
    ];
    proof {
        let parts = transcript::slices_view(beta_slices@);
        assert(parts =~= seq![
            vk.qm.0@,
            vk.ql.0@,
            vk.qr.0@,
            vk.qo.0@,
            vk.qc.0@,
            vk.s1.0@,
            vk.s2.0@,
            vk.s3.0@,
            pi_slice@,
            proof.a.0@,
            proof.b.0@,
            proof.c.0@,
        ]);
        reveal_with_fuel(transcript::concat, 13);
        assert(transcript::concat(parts) =~= beta_input(*vk, *proof, public_inputs@));
    }
    let beta = unwrap_challenge(transcript::hash_challenge(&beta_slices));

    let beta_bytes = beta.to_be_bytes();
    let gamma_slices: [&[u8]; 1] = [beta_bytes.as_slice()];
    proof {
        reveal_with_fuel(transcript::concat, 2);
        assert(transcript::slices_view(gamma_slices@) =~= seq![beta_bytes@]);
        assert(transcript::concat(transcript::slices_view(gamma_slices@)) =~= beta_bytes@);
    }
    let gamma = unwrap_challenge(transcript::hash_challenge(&gamma_slices));

    let gamma_bytes = gamma.to_be_bytes();
    let alpha_slices: [&[u8]; 3] = [beta_bytes.as_slice(), gamma_bytes.as_slice(), proof.z.0.as_slice()];
    proof {
        reveal_with_fuel(transcript::concat, 4);
        assert(transcript::slices_view(alpha_slices@) =~= seq![beta_bytes@, gamma_bytes@, proof.z.0@]);
        assert(transcript::concat(transcript::slices_view(alpha_slices@)) =~= beta_bytes@
            + gamma_bytes@ + proof.z.0@);
    }
    let alpha = unwrap_challenge(transcript::hash_challenge(&alpha_slices));

    let alpha_bytes = alpha.to_be_bytes();
    let xi_slices: [&[u8]; 4] = [
        alpha_bytes.as_slice(),
        proof.t1.0.as_slice(),
        proof.t2.0.as_slice(),
        proof.t3.0.as_slice(),
    ];
    proof {
        reveal_with_fuel(transcript::concat, 5);
        assert(transcript::slices_view(xi_slices@) =~= seq![
            alpha_bytes@,
            proof.t1.0@,
            proof.t2.0@,
            proof.t3.0@,
        ]);
        assert(transcript::concat(transcript::slices_view(xi_slices@)) =~= alpha_bytes@
            + proof.t1.0@ + proof.t2.0@ + proof.t3.0@);
    }
    let xi = unwrap_challenge(transcript::hash_challenge(&xi_slices));
    proof {
        let b = transcript::challenge_of(beta_input(*vk, *proof, public_inputs@));
        lemma_fr_is(beta, b);
        let g = transcript::challenge_of(scalar_bytes(b));
        lemma_fr_is(gamma, g);
        let a = transcript::challenge_of(scalar_bytes(b) + scalar_bytes(g) + proof.z.0@);
        lemma_fr_is(alpha, a);
        let x = transcript::challenge_of(
            scalar_bytes(a) + proof.t1.0@ + proof.t2.0@ + proof.t3.0@,
        );
        lemma_fr_is(xi, x);
    }
    (beta, gamma, alpha, xi)
}

/// The challenge `v1`: `xi` and the six evaluations hashed together.
fn challenge_v1(xi: &Fr, eval_bytes: &[[u8; 32]; 6]) -> (res: Fr)
    ensures
        res@ == transcript::challenge_of(
            scalar_bytes(xi@) + eval_bytes[0]@ + eval_bytes[1]@ + eval_bytes[2]@ + eval_bytes[3]@
                + eval_bytes[4]@ + eval_bytes[5]@,
        ),
{
    let xi_bytes = xi.to_be_bytes();
    let slices: [&[u8]; 7] = [
        xi_bytes.as_slice(),
        eval_bytes[0].as_slice(),
        eval_bytes[1].as_slice(),
        eval_bytes[2].as_slice(),
        eval_bytes[3].as_slice(),
        eval_bytes[4].as_slice(),
        eval_bytes[5].as_slice(),
    ];
    proof {
        reveal_with_fuel(transcript::concat, 8);
        assert(transcript::slices_view(slices@) =~= seq![
            xi_bytes@,
            eval_bytes[0]@,
            eval_bytes[1]@,
            eval_bytes[2]@,
            eval_bytes[3]@,
            eval_bytes[4]@,
            eval_bytes[5]@,
        ]);
    }
    unwrap_challenge(transcript::hash_challenge(&slices))
}

/// An element is the canonical element of its value.
proof fn lemma_fr_is(x: Fr, n: nat)
    requires
        x@ == n,
        n < fr::fr_modulus(),
    ensures
        x == fr::fr_of_nat(n),
{
    fr::lemma_fr_of_nat(n);
    fr::lemma_fr_eq(x, fr::fr_of_nat(n));
}

/// The challenge out of a hash that is known to succeed.
fn unwrap_challenge(res: Result<Fr, PlonkError>) -> (c: Fr)
    requires
        res is Ok,
    ensures
        c == res->Ok_0,
{
    match res {
        Ok(c) => c,
        Err(_) => Fr::zero(),
    }
}


// ---------------------------------------------------------------------------
// Lagrange basis and public input polynomial
// ---------------------------------------------------------------------------

/// The values of a sequence of field elements.
pub open spec fn fr_values(xs: Seq<Fr>) -> Seq<nat> {
    xs.map_values(|x: Fr| x@)
}

/// The state `(l1, pi, w^i)` after the first `i` rounds of the Lagrange loop,
/// with `omega` the domain generator, `n` the domain size and `pis` the public
/// inputs. Round `k` computes `L_k(xi) = w^k * zh / (n * (xi - w^k))`, keeps
/// it as `l1` when `k == 0` and subtracts `pis[k] * L_k(xi)` from `pi` while
/// `k < pis.len()`; it fails when `n * (xi - w^k)` is zero.
pub open spec fn lagrange_rounds(
    omega: nat,
    zh: nat,
    xi: nat,
    n: nat,
    pis: Seq<nat>,
    i: nat,
) -> Result<(nat, nat, nat), PlonkError>
    decreases i,
{
    if i == 0 {
        Ok((0nat, 0nat, 1nat))
    } else {
        let k = (i - 1) as nat;
        match lagrange_rounds(omega, zh, xi, n, pis, k) {
            Err(e) => Err(e),
            Ok(state) => {
                let (l1, pi, w) = state;
                let den = fr::fr_mul(n, fr::fr_sub(xi, w));
                if den == 0 {
                    Err(PlonkError::LagrangeDivisionByZero)
                } else {
                    let li = fr::fr_mul(fr::fr_mul(w, zh), fr::fr_inv(den));
                    Ok(
                        (
                            if k == 0 {
                                li
                            } else {
                                l1
                            },
                            if k < pis.len() {
                                fr::fr_sub(pi, fr::fr_mul(pis[k as int], li))
                            } else {
                                pi
                            },
                            fr::fr_mul(w, omega),
                        ),
                    )
                }
            },
        }
    }
}

/// Once the Lagrange loop fails, it stays failed with the same error.
proof fn lemma_lagrange_err_stays(
    omega: nat,
    zh: nat,
    xi: nat,
    n: nat,
    pis: Seq<nat>,
    i: nat,
    j: nat,
)
    requires
        i <= j,
        lagrange_rounds(omega, zh, xi, n, pis, i) is Err,
    ensures
        lagrange_rounds(omega, zh, xi, n, pis, j) == lagrange_rounds(omega, zh, xi, n, pis, i),
    decreases j - i,
{
    if i < j {
        lemma_lagrange_err_stays(omega, zh, xi, n, pis, i, (j - 1) as nat);
    }
}

/// The number of Lagrange rounds: the number of public inputs, at least one.
pub open spec fn lagrange_count(vk: VerificationKey) -> nat {
    if vk.n_public == 0 {
        1
    } else {
        vk.n_public as nat
    }
}

/// `L_1(xi)` and the public input polynomial `PI(xi)` over the domain of size
/// `2^power`.
pub open spec fn l1_and_pi_spec(vk: VerificationKey, ch: Challenges, pis: Seq<Fr>) -> Result<
    (nat, nat),
    PlonkError,
> {
    match lagrange_rounds(
        vk.w@,
        ch.zh@,
        ch.xi@,
        vstd::arithmetic::power2::pow2(vk.power as nat),
        fr_values(pis),
        lagrange_count(vk),
    ) {
        Ok(state) => Ok((state.0, state.1)),
        Err(e) => Err(e),
    }
}

/// Two field elements as their values.
pub open spec fn fr_pair_result(r: Result<(Fr, Fr), PlonkError>) -> Result<(nat, nat), PlonkError> {
    match r {
        Ok(p) => Ok((p.0@, p.1@)),
        Err(e) => Err(e),
    }
}

/// Computes `L_1(xi)` and `PI(xi)`; fails with `LagrangeDivisionByZero` when
/// some `xi` equals a point `w^i` of the domain that the loop visits.
pub fn calculate_l1_and_pi<const N: usize>(
    vk: &VerificationKey,
    ch: &Challenges,
    public_inputs: &[Fr; N],
) -> (res: Result<(Fr, Fr), PlonkError>)
    requires
        vk.power < 64,
    ensures
        fr_pair_result(res) == l1_and_pi_spec(*vk, *ch, public_inputs@),
{
    let shift: u64 = vk.power as u64;
    proof {
        vstd::bits::lemma_u64_pow2_no_overflow(shift as nat);
        vstd::bits::lemma_u64_shl_is_mul(1u64, shift);
    }
    let domain_size: u64 = 1u64 << shift;
    let n = Fr::from(domain_size);
    let ghost omega = vk.w@;
    let ghost zh = ch.zh@;
    let ghost xi = ch.xi@;
    let ghost nn = vstd::arithmetic::power2::pow2(vk.power as nat);
    let ghost pis = fr_values(public_inputs@);
    proof {
        assert(nn < fr::fr_modulus());
        assert(n@ == nn);
    }
    let mut w = Fr::one();
    let mut l1 = Fr::zero();
    let mut pi = Fr::zero();
    let count: usize = if vk.n_public == 0 {
        1
    } else {
        vk.n_public as usize
    };
    let mut i: usize = 0;
    while i < count
        invariant
            count == lagrange_count(*vk),
            0 <= i <= count,
            n@ == nn,
            nn == vstd::arithmetic::power2::pow2(vk.power as nat),
            omega == vk.w@,
            zh == ch.zh@,
            xi == ch.xi@,
            pis == fr_values(public_inputs@),
            pis.len() == N,
            lagrange_rounds(omega, zh, xi, nn, pis, i as nat) == Ok::<(nat, nat, nat), PlonkError>(
                (l1@, pi@, w@),
            ),
            l1@ < fr::fr_modulus(),
            pi@ < fr::fr_modulus(),
        decreases count - i,
    {
        let num = w * ch.zh;
        let den = n * (ch.xi - w);
        let inv = match den.inverse() {
            Some(v) => v,
            None => {
                proof {
                    assert(lagrange_rounds(omega, zh, xi, nn, pis, (i + 1) as nat) == Err::<
                        (nat, nat, nat),
                        PlonkError,
                    >(PlonkError::LagrangeDivisionByZero));
                    lemma_lagrange_err_stays(omega, zh, xi, nn, pis, (i + 1) as nat, count as nat);
                    assert(l1_and_pi_spec(*vk, *ch, public_inputs@) == Err::<(nat, nat), PlonkError>(
                        PlonkError::LagrangeDivisionByZero,
                    ));
                }
                return Err(PlonkError::LagrangeDivisionByZero);
            },
        };
        let li = num * inv;
        if i == 0 {
            l1 = li;
        }
        if i < N {
            pi = pi - public_inputs[i] * li;
        }
        w = w * vk.w;
        i = i + 1;
    }
    proof {
        lemma_fr_is(l1, l1@);
        lemma_fr_is(pi, pi@);
    }
    Ok((l1, pi))
}


// ---------------------------------------------------------------------------
// r0 and the batched commitment D
// ---------------------------------------------------------------------------

/// `a + b` where `a` is the outcome of an earlier step: its error, if any,
/// comes first.
pub open spec fn then_add(a: Result<Seq<u8>, PlonkError>, b: Seq<u8>) -> Result<
    Seq<u8>,
    PlonkError,
> {
    match a {
        Ok(x) => g1_add_spec(x, b),
        Err(e) => Err(e),
    }
}

/// `alpha^2 * L_1(xi)`.
pub open spec fn l1_alpha_sq_spec(ch: Challenges, l1: nat) -> nat {
    fr::fr_mul(l1, fr::fr_mul(ch.alpha@, ch.alpha@))
}

/// `a + beta * s1 + gamma`.
pub open spec fn beta_s1_gamma_spec(proof: Proof, ch: Challenges) -> nat {
    fr::fr_add(fr::fr_add(proof.eval_a@, fr::fr_mul(ch.beta@, proof.eval_s1@)), ch.gamma@)
}

/// `b + beta * s2 + gamma`.
pub open spec fn beta_s2_gamma_spec(proof: Proof, ch: Challenges) -> nat {
    fr::fr_add(fr::fr_add(proof.eval_b@, fr::fr_mul(ch.beta@, proof.eval_s2@)), ch.gamma@)
}

/// `r0 = PI(xi) - alpha^2 * L_1(xi)
///       - (a + beta*s1 + gamma) * (b + beta*s2 + gamma) * (c + gamma) * zw * alpha`.
pub open spec fn r0_spec(proof: Proof, ch: Challenges, l1: nat, pi: nat) -> nat {
    let e3 = fr::fr_mul(
        fr::fr_mul(
            fr::fr_mul(
                fr::fr_mul(beta_s1_gamma_spec(proof, ch), beta_s2_gamma_spec(proof, ch)),
                fr::fr_add(proof.eval_c@, ch.gamma@),
            ),
            proof.eval_zw@,
        ),
        ch.alpha@,
    );
    fr::fr_sub(fr::fr_sub(pi, l1_alpha_sq_spec(ch, l1)), e3)
}

/// The scalar of `z` in D: `(a + beta*xi + gamma) * (b + beta*k1*xi + gamma)
/// * (c + beta*k2*xi + gamma) * alpha + alpha^2 * L_1(xi) + u`.
pub open spec fn d2_scalar_spec(vk: VerificationKey, proof: Proof, ch: Challenges, l1: nat) -> nat {
    let betaxi = fr::fr_mul(ch.beta@, ch.xi@);
    let d2a1 = fr::fr_add(fr::fr_add(proof.eval_a@, betaxi), ch.gamma@);
    let d2a2 = fr::fr_add(fr::fr_add(proof.eval_b@, fr::fr_mul(betaxi, vk.k1@)), ch.gamma@);
    let d2a3 = fr::fr_add(fr::fr_add(proof.eval_c@, fr::fr_mul(betaxi, vk.k2@)), ch.gamma@);
    let d2a = fr::fr_mul(fr::fr_mul(fr::fr_mul(d2a1, d2a2), d2a3), ch.alpha@);
    fr::fr_add(fr::fr_add(d2a, l1_alpha_sq_spec(ch, l1)), ch.u@)
}

/// The scalar of `s3` in D:
/// `-((a + beta*s1 + gamma) * (b + beta*s2 + gamma) * alpha * beta * zw)`.
pub open spec fn d3_scalar_spec(proof: Proof, ch: Challenges) -> nat {
    let d3c = fr::fr_mul(fr::fr_mul(ch.alpha@, ch.beta@), proof.eval_zw@);
    fr::fr_neg(
        fr::fr_mul(fr::fr_mul(beta_s1_gamma_spec(proof, ch), beta_s2_gamma_spec(proof, ch)), d3c),
    )
}

/// `D1 = (a*b)*qm + a*ql + b*qr + c*qo + qc`, the scalars of `ql`, `qr`, `qo`
/// given by their encodings `eb[0..3]`.
pub open spec fn d1_spec(vk: VerificationKey, ab: nat, eb: Seq<Seq<u8>>) -> Result<
    Seq<u8>,
    PlonkError,
> {
    match g1_mul_spec(vk.qm.0@, scalar_bytes(ab)) {
        Err(e) => Err(e),
        Ok(t0) => match g1_mul_spec(vk.ql.0@, eb[0]) {
            Err(e) => Err(e),
            Ok(t1) => match g1_mul_spec(vk.qr.0@, eb[1]) {
                Err(e) => Err(e),
                Ok(t2) => match g1_mul_spec(vk.qo.0@, eb[2]) {
                    Err(e) => Err(e),
                    Ok(t3) => then_add(
                        then_add(then_add(g1_add_spec(t0, t1), t2), t3),
                        vk.qc.0@,
                    ),
                },
            },
        },
    }
}

/// `D4 = -zh * (t1 + (xin*t2 + xin^2*t3))`.
pub open spec fn d4_spec(proof: Proof, ch: Challenges) -> Result<Seq<u8>, PlonkError> {
    match g1_mul_spec(proof.t2.0@, scalar_bytes(ch.xin@)) {
        Err(e) => Err(e),
        Ok(d4_t2) => match g1_mul_spec(
            proof.t3.0@,
            scalar_bytes(fr::fr_mul(ch.xin@, ch.xin@)),
        ) {
            Err(e) => Err(e),
            Ok(d4_t3) => match g1_add_spec(d4_t2, d4_t3) {
                Err(e) => Err(e),
                Ok(inner) => match g1_add_spec(proof.t1.0@, inner) {
                    Err(e) => Err(e),
                    Ok(sum) => g1_mul_spec(sum, scalar_bytes(fr::fr_neg(ch.zh@))),
                },
            },
        },
    }
}

/// `D = D1 + d2*z + d3*s3 + D4`, each part computed in this order.
pub open spec fn d_spec(
    vk: VerificationKey,
    proof: Proof,
    ch: Challenges,
    l1: nat,
    eb: Seq<Seq<u8>>,
) -> Result<Seq<u8>, PlonkError> {
    match d1_spec(vk, fr::fr_mul(proof.eval_a@, proof.eval_b@), eb) {
        Err(e) => Err(e),
        Ok(d1) => match g1_mul_spec(proof.z.0@, scalar_bytes(d2_scalar_spec(vk, proof, ch, l1))) {
            Err(e) => Err(e),
            Ok(d2) => match g1_mul_spec(vk.s3.0@, scalar_bytes(d3_scalar_spec(proof, ch))) {
                Err(e) => Err(e),
                Ok(d3) => match d4_spec(proof, ch) {
                    Err(e) => Err(e),
                    Ok(d4) => then_add(then_add(g1_add_spec(d1, d2), d3), d4),
                },
            },
        },
    }
}

/// What `calculate_r0_and_d` gives: `r0`, and `D` unless a point operation
/// fails.
pub open spec fn r0_and_d_spec(
    vk: VerificationKey,
    proof: Proof,
    ch: Challenges,
    l1: nat,
    pi: nat,
    eb: Seq<Seq<u8>>,
) -> Result<(nat, Seq<u8>), PlonkError> {
    match d_spec(vk, proof, ch, l1, eb) {
        Ok(d) => Ok((r0_spec(proof, ch, l1, pi), d)),
        Err(e) => Err(e),
    }
}

/// A scalar and a point as plain values.
pub open spec fn scalar_point_result(r: Result<(Fr, G1), PlonkError>) -> Result<
    (nat, Seq<u8>),
    PlonkError,
> {
    match r {
        Ok(p) => Ok((p.0@, p.1.0@)),
        Err(e) => Err(e),
    }
}

/// Computes `D1`.
fn d1_term(vk: &VerificationKey, ab: &Fr, eval_bytes: &[[u8; 32]; 6]) -> (res: Result<
    G1,
    PlonkError,
>)
    ensures
        g1::g1_result(res) == d1_spec(*vk, ab@, byte_arrays_view(*eval_bytes)),
{
    proof {
        let ebv = byte_arrays_view(*eval_bytes);
        assert(ebv[0] == eval_bytes[0]@);
        assert(ebv[1] == eval_bytes[1]@);
        assert(ebv[2] == eval_bytes[2]@);
    }
    let t0 = match g1_mul(&vk.qm, ab) {
        Ok(p) => p,
        Err(e) => return Err(e),
    };
    let t1 = match g1_mul_bytes(&vk.ql, &eval_bytes[0]) {
        Ok(p) => p,
        Err(e) => return Err(e),
    };
    let t2 = match g1_mul_bytes(&vk.qr, &eval_bytes[1]) {
        Ok(p) => p,
        Err(e) => return Err(e),
    };
    let t3 = match g1_mul_bytes(&vk.qo, &eval_bytes[2]) {
        Ok(p) => p,
        Err(e) => return Err(e),
    };
    let r = match g1_add(&t0, &t1) {
        Ok(p) => p,
        Err(e) => return Err(e),
    };
    let r = match g1_add(&r, &t2) {
        Ok(p) => p,
        Err(e) => return Err(e),
    };
    let r = match g1_add(&r, &t3) {
        Ok(p) => p,
        Err(e) => return Err(e),
    };
    g1_add(&r, &vk.qc)
}

/// Computes `D4`.
fn d4_term(proof: &Proof, ch: &Challenges) -> (res: Result<G1, PlonkError>)
    ensures
        g1::g1_result(res) == d4_spec(*proof, *ch),
{
    let xin_sq = ch.xin.square();
    let d4_t2 = match g1_mul(&proof.t2, &ch.xin) {
        Ok(p) => p,
        Err(e) => return Err(e),
    };
    let d4_t3 = match g1_mul(&proof.t3, &xin_sq) {
        Ok(p) => p,
        Err(e) => return Err(e),
    };
    let inner = match g1_add(&d4_t2, &d4_t3) {
        Ok(p) => p,
        Err(e) => return Err(e),
    };
    let d4_sum = match g1_add(&proof.t1, &inner) {
        Ok(p) => p,
        Err(e) => return Err(e),
    };
    let neg_zh = ch.zh.neg();
    g1_mul(&d4_sum, &neg_zh)
}

/// Computes `r0` and the batched commitment `D` of the linearisation.
pub fn calculate_r0_and_d(
    vk: &VerificationKey,
    proof: &Proof,
    ch: &Challenges,
    l1: &Fr,
    pi: &Fr,
    eval_bytes: &[[u8; 32]; 6],
) -> (res: Result<(Fr, G1), PlonkError>)
    ensures
        scalar_point_result(res) == r0_and_d_spec(
            *vk,
            *proof,
            *ch,
            l1@,
            pi@,
            byte_arrays_view(*eval_bytes),
        ),
{
    // Shared sub-expressions
    let alpha_sq = ch.alpha.square();
    let l1_alpha_sq = *l1 * alpha_sq;
    let beta_s1_gamma = proof.eval_a + ch.beta * proof.eval_s1 + ch.gamma;
    let beta_s2_gamma = proof.eval_b + ch.beta * proof.eval_s2 + ch.gamma;

    // r0
    let e3c = proof.eval_c + ch.gamma;
    let e3 = beta_s1_gamma * beta_s2_gamma * e3c * proof.eval_zw * ch.alpha;
    let r0 = *pi - l1_alpha_sq - e3;

    // D
    let ab = proof.eval_a * proof.eval_b;
    let d1 = match d1_term(vk, &ab, eval_bytes) {
        Ok(p) => p,
        Err(e) => return Err(e),
    };

    let betaxi = ch.beta * ch.xi;
    let d2a1 = proof.eval_a + betaxi + ch.gamma;
    let d2a2 = proof.eval_b + betaxi * vk.k1 + ch.gamma;
    let d2a3 = proof.eval_c + betaxi * vk.k2 + ch.gamma;
    let d2a = d2a1 * d2a2 * d2a3 * ch.alpha;
    let d2_scalar = d2a + l1_alpha_sq + ch.u;
    let d2 = match g1_mul(&proof.z, &d2_scalar) {
        Ok(p) => p,
        Err(e) => return Err(e),
    };

    let d3c = ch.alpha * ch.beta * proof.eval_zw;
    let d3_scalar = (beta_s1_gamma * beta_s2_gamma * d3c).neg();
    let d3 = match g1_mul(&vk.s3, &d3_scalar) {
        Ok(p) => p,
        Err(e) => return Err(e),
    };

    let d4 = match d4_term(proof, ch) {
        Ok(p) => p,
        Err(e) => return Err(e),
    };

    let r = match g1_add(&d1, &d2) {
        Ok(p) => p,
        Err(e) => return Err(e),
    };
    let r = match g1_add(&r, &d3) {
        Ok(p) => p,
        Err(e) => return Err(e),
    };
    let d = match g1_add(&r, &d4) {
        Ok(p) => p,
        Err(e) => return Err(e),
    };
    Ok((r0, d))
}


// ---------------------------------------------------------------------------
// F and the pairing check
// ---------------------------------------------------------------------------

/// `F = D + v1*a + v2*b + v3*c + v4*s1 + v5*s2`, the products first.
pub open spec fn f_spec(vk: VerificationKey, proof: Proof, ch: Challenges, d: Seq<u8>) -> Result<
    Seq<u8>,
    PlonkError,
> {
    match g1_mul_spec(proof.a.0@, scalar_bytes(ch.v1@)) {
        Err(e) => Err(e),
        Ok(t1) => match g1_mul_spec(proof.b.0@, scalar_bytes(ch.v2@)) {
            Err(e) => Err(e),
            Ok(t2) => match g1_mul_spec(proof.c.0@, scalar_bytes(ch.v3@)) {
                Err(e) => Err(e),
                Ok(t3) => match g1_mul_spec(vk.s1.0@, scalar_bytes(ch.v4@)) {
                    Err(e) => Err(e),
                    Ok(t4) => match g1_mul_spec(vk.s2.0@, scalar_bytes(ch.v5@)) {
                        Err(e) => Err(e),
                        Ok(t5) => then_add(
                            then_add(then_add(then_add(g1_add_spec(d, t1), t2), t3), t4),
                            t5,
                        ),
                    },
                },
            },
        },
    }
}

/// Computes `F`.
pub fn calculate_f(vk: &VerificationKey, proof: &Proof, ch: &Challenges, d: &G1) -> (res: Result<
    G1,
    PlonkError,
>)
    ensures
        g1::g1_result(res) == f_spec(*vk, *proof, *ch, d.0@),
{
    let t1 = match g1_mul(&proof.a, &ch.v1) {
        Ok(p) => p,
        Err(e) => return Err(e),
    };
    let t2 = match g1_mul(&proof.b, &ch.v2) {
        Ok(p) => p,
        Err(e) => return Err(e),
    };
    let t3 = match g1_mul(&proof.c, &ch.v3) {
        Ok(p) => p,
        Err(e) => return Err(e),
    };
    let t4 = match g1_mul(&vk.s1, &ch.v4) {
        Ok(p) => p,
        Err(e) => return Err(e),
    };
    let t5 = match g1_mul(&vk.s2, &ch.v5) {
        Ok(p) => p,
        Err(e) => return Err(e),
    };
    let r = match g1_add(d, &t1) {
        Ok(p) => p,
        Err(e) => return Err(e),
    };
    let r = match g1_add(&r, &t2) {
        Ok(p) => p,
        Err(e) => return Err(e),
    };
    let r = match g1_add(&r, &t3) {
        Ok(p) => p,
        Err(e) => return Err(e),
    };
    let r = match g1_add(&r, &t4) {
        Ok(p) => p,
        Err(e) => return Err(e),
    };
    g1_add(&r, &t5)
}

/// The scalar of the generator in the pairing check, `-E`:
/// `r0 - v1*a - v2*b - v3*c - v4*s1 - v5*s2 - u*zw`.
pub open spec fn neg_e_scalar_spec(proof: Proof, ch: Challenges, r0: nat) -> nat {
    fr::fr_sub(
        fr::fr_sub(
            fr::fr_sub(
                fr::fr_sub(
                    fr::fr_sub(
                        fr::fr_sub(r0, fr::fr_mul(ch.v1@, proof.eval_a@)),
                        fr::fr_mul(ch.v2@, proof.eval_b@),
                    ),
                    fr::fr_mul(ch.v3@, proof.eval_c@),
                ),
                fr::fr_mul(ch.v4@, proof.eval_s1@),
            ),
            fr::fr_mul(ch.v5@, proof.eval_s2@),
        ),
        fr::fr_mul(ch.u@, proof.eval_zw@),
    )
}

/// The pairing input: `(-A1, [x]_2)` and `(B1, [1]_2)`, 192 bytes each.
pub open spec fn pairing_input_spec(vk: VerificationKey, a1: Seq<u8>, b1: Seq<u8>) -> Seq<u8> {
    g1_neg_spec(a1) + vk.x_2.0@ + b1 + g2::G2_GENERATOR@
}

/// What the pairing check gives: with `A1 = Wxi + u*Wxiw` and
/// `B1 = xi*(Wxi + u*w*Wxiw) + F - E*[1]_1`, whether
/// `e(-A1, [x]_2) * e(B1, [1]_2) = 1`, that is whether byte 31 of the
/// pairing result is 1.
pub open spec fn pairing_spec(
    vk: VerificationKey,
    proof: Proof,
    ch: Challenges,
    r0: nat,
    f: Seq<u8>,
) -> Result<bool, PlonkError> {
    match g1_mul_spec(proof.wxiw.0@, scalar_bytes(ch.u@)) {
        Err(e) => Err(e),
        Ok(u_wxiw) => match g1_add_spec(proof.wxi.0@, u_wxiw) {
            Err(e) => Err(e),
            Ok(a1) => match g1_mul_spec(proof.wxiw.0@, scalar_bytes(fr::fr_mul(ch.u@, vk.w@))) {
                Err(e) => Err(e),
                Ok(uw_wxiw) => match g1_add_spec(proof.wxi.0@, uw_wxiw) {
                    Err(e) => Err(e),
                    Ok(sum) => match g1_mul_spec(sum, scalar_bytes(ch.xi@)) {
                        Err(e) => Err(e),
                        Ok(xi_sum) => match g1_add_spec(xi_sum, f) {
                            Err(e) => Err(e),
                            Ok(b1) => match g1_mul_spec(
                                g1::G1_GENERATOR@,
                                scalar_bytes(neg_e_scalar_spec(proof, ch, r0)),
                            ) {
                                Err(e) => Err(e),
                                Ok(neg_e) => match g1_add_spec(b1, neg_e) {
                                    Err(e) => Err(e),
                                    Ok(b1) => match syscalls::or_error(
                                        syscalls::bn254_pairing(pairing_input_spec(vk, a1, b1)),
                                        PlonkError::PairingFailed,
                                    ) {
                                        Err(e) => Err(e),
                                        Ok(out) => Ok(out[31] == 1),
                                    },
                                },
                            },
                        },
                    },
                },
            },
        },
    }
}

/// Runs the final pairing check `e(-A1, [x]_2) * e(B1, [1]_2) == 1`.
pub fn is_valid_pairing(
    vk: &VerificationKey,
    proof: &Proof,
    ch: &Challenges,
    r0: &Fr,
    f: &G1,
) -> (res: Result<bool, PlonkError>)
    ensures
        res == pairing_spec(*vk, *proof, *ch, r0@, f.0@),
{
    let u_wxiw = match g1_mul(&proof.wxiw, &ch.u) {
        Ok(p) => p,
        Err(e) => return Err(e),
    };
    let a1 = match g1_add(&proof.wxi, &u_wxiw) {
        Ok(p) => p,
        Err(e) => return Err(e),
    };

    // xi*(wxi + u*w*wxiw) takes one multiplication less than xi*wxi + u*xi*w*wxiw
    let uw = ch.u * vk.w;
    let uw_wxiw = match g1_mul(&proof.wxiw, &uw) {
        Ok(p) => p,
        Err(e) => return Err(e),
    };
    let sum = match g1_add(&proof.wxi, &uw_wxiw) {
        Ok(p) => p,
        Err(e) => return Err(e),
    };
    let xi_sum = match g1_mul(&sum, &ch.xi) {
        Ok(p) => p,
        Err(e) => return Err(e),
    };
    let b1 = match g1_add(&xi_sum, f) {
        Ok(p) => p,
        Err(e) => return Err(e),
    };

    // -E with the scalar negated, in place of a subtraction of points
    let neg_e_scalar = *r0 - ch.v1 * proof.eval_a - ch.v2 * proof.eval_b - ch.v3 * proof.eval_c
        - ch.v4 * proof.eval_s1 - ch.v5 * proof.eval_s2 - ch.u * proof.eval_zw;
    let neg_e = match g1_mul(&G1::generator(), &neg_e_scalar) {
        Ok(p) => p,
        Err(e) => return Err(e),
    };
    let b1 = match g1_add(&b1, &neg_e) {
        Ok(p) => p,
        Err(e) => return Err(e),
    };

    let neg_a1 = g1_neg(&a1);

    // Two pairs (G1, G2) of 64 + 128 bytes: (-A1, [x]_2) and (B1, [1]_2)
    let first = join_bytes::<64, 128, 192>(&neg_a1.0, &vk.x_2.0);
    let second = join_bytes::<64, 128, 192>(&b1.0, &G2::generator().0);
    let pairing_input = join_bytes::<192, 192, 384>(&first, &second);
    proof {
        assert(pairing_input@.take(384) =~= pairing_input@);
        assert(pairing_input@ =~= pairing_input_spec(*vk, a1.0@, b1.0@));
    }
    let result = match syscalls::pairing_be(&pairing_input) {
        Ok(r) => r,
        Err(e) => return Err(e),
    };
    Ok(result[31] == 1)
}


// ---------------------------------------------------------------------------
// Verification
// ---------------------------------------------------------------------------

/// The 32-byte encodings of the six evaluations of a proof.
pub open spec fn eval_bytes_spec(proof: Proof) -> Seq<Seq<u8>> {
    proof_evals(proof).map_values(|v: nat| scalar_bytes(v))
}

/// What verifying a proof against field elements as public inputs gives:
/// `InvalidPublicInputsLength` when their number is not `n_public`;
/// otherwise the first failure of the Lagrange step or of a point operation;
/// otherwise `Ok` exactly when the pairing check holds, and
/// `ProofVerificationFailed` when it does not.
#[verifier::opaque]
pub open spec fn verify_unchecked_spec(vk: VerificationKey, proof: Proof, pis: Seq<Fr>) -> Result<
    (),
    PlonkError,
> {
    if pis.len() != vk.n_public as nat {
        Err(PlonkError::InvalidPublicInputsLength)
    } else {
        let eb = eval_bytes_spec(proof);
        let ch = challenges_spec(vk, proof, pis, eb);
        match l1_and_pi_spec(vk, ch, pis) {
            Err(e) => Err(e),
            Ok(lp) => match r0_and_d_spec(vk, proof, ch, lp.0, lp.1, eb) {
                Err(e) => Err(e),
                Ok(rd) => match f_spec(vk, proof, ch, rd.1) {
                    Err(e) => Err(e),
                    Ok(f) => match pairing_spec(vk, proof, ch, rd.0, f) {
                        Err(e) => Err(e),
                        Ok(valid) => if valid {
                            Ok(())
                        } else {
                            Err(PlonkError::ProofVerificationFailed)
                        },
                    },
                },
            },
        }
    }
}

/// The field elements that 32-byte big-endian public inputs denote.
pub open spec fn inputs_as_fr(inputs: Seq<Seq<u8>>) -> Seq<Fr> {
    inputs.map_values(|b: Seq<u8>| fr::fr_of_nat(encoding::be_to_nat(b)))
}

/// Some public input is not below the field order.
pub open spec fn some_input_too_large(inputs: Seq<Seq<u8>>) -> bool {
    exists|i: int| 0 <= i < inputs.len() && encoding::be_to_nat(#[trigger] inputs[i]) >= fr::fr_modulus()
}

/// What verifying a proof against 32-byte public inputs gives:
/// `InvalidPublicInputsLength` when their number is not `n_public`, then
/// `PublicInputGreaterThanFieldSize` when one of them is at least `r`,
/// otherwise the outcome of verifying against the elements they denote.
pub open spec fn verify_spec(vk: VerificationKey, proof: Proof, inputs: Seq<Seq<u8>>) -> Result<
    (),
    PlonkError,
> {
    if inputs.len() != vk.n_public as nat {
        Err(PlonkError::InvalidPublicInputsLength)
    } else if some_input_too_large(inputs) {
        Err(PlonkError::PublicInputGreaterThanFieldSize)
    } else {
        verify_unchecked_spec(vk, proof, inputs_as_fr(inputs))
    }
}

/// Verifies a PLONK proof, first checking that every public input is below
/// the field order. Public inputs are 32-byte big-endian values.
pub fn verify<const N: usize>(
    vk: &VerificationKey,
    proof: &Proof,
    public_inputs: &[[u8; 32]; N],
) -> (res: Result<(), PlonkError>)
    requires
        N == vk.n_public ==> vk.power < 64,
    ensures
        res == verify_spec(*vk, *proof, byte_arrays_view(*public_inputs)),
{
    let ghost inputs = byte_arrays_view(*public_inputs);
    if N != vk.n_public as usize {
        return Err(PlonkError::InvalidPublicInputsLength);
    }
    let mut i: usize = 0;
    while i < N
        invariant
            0 <= i <= N,
            N == vk.n_public,
            inputs == byte_arrays_view(*public_inputs),
            inputs.len() == N,
            forall|j: int| 0 <= j < i ==> encoding::be_to_nat(#[trigger] inputs[j]) < fr::fr_modulus(),
        decreases N - i,
    {
        if !fr::is_less_than_bn254_field_size_be(&public_inputs[i]) {
            proof {
                assert(inputs[i as int] == public_inputs[i as int]@);
            }
            return Err(PlonkError::PublicInputGreaterThanFieldSize);
        }
        proof {
            assert(inputs[i as int] == public_inputs[i as int]@);
        }
        i = i + 1;
    }
    let mut fr_inputs: [Fr; N] = [Fr::zero(); N];
    let mut k: usize = 0;
    while k < N
        invariant
            0 <= k <= N,
            N == vk.n_public,
            inputs == byte_arrays_view(*public_inputs),
            inputs.len() == N,
            fr_inputs@.len() == N,
            forall|j: int| 0 <= j < N ==> encoding::be_to_nat(#[trigger] inputs[j]) < fr::fr_modulus(),
            forall|j: int| 0 <= j < k ==> #[trigger] fr_inputs@[j] == inputs_as_fr(inputs)[j],
        decreases N - k,
    {
        let x = Fr::from_be_bytes_unchecked(&public_inputs[k]);
        proof {
            let b = public_inputs[k as int]@;
            assert(inputs[k as int] == b);
            encoding::lemma_be_to_nat_bound(b);
            fr::lemma_fr_modulus_limbs();
            vstd::arithmetic::div_mod::lemma_small_mod(encoding::be_to_nat(b), fr::fr_modulus());
            lemma_fr_is(x, encoding::be_to_nat(b));
        }
        fr_inputs[k] = x;
        k = k + 1;
    }
    proof {
        assert(fr_inputs@ =~= inputs_as_fr(inputs));
    }
    verify_unchecked(vk, proof, &fr_inputs)
}

/// Verifies a PLONK proof without checking that the public inputs are below
/// the field order; use it when they are known to be canonical elements.
pub fn verify_unchecked<const N: usize>(
    vk: &VerificationKey,
    proof: &Proof,
    public_inputs: &[Fr; N],
) -> (res: Result<(), PlonkError>)
    requires
        N == vk.n_public ==> vk.power < 64,
    ensures
        res == verify_unchecked_spec(*vk, *proof, public_inputs@),
{
    proof {
        reveal(verify_unchecked_spec);
    }
    if N != vk.n_public as usize {
        return Err(PlonkError::InvalidPublicInputsLength);
    }

    let eval_bytes = compute_eval_bytes(proof);
    proof {
        assert(byte_arrays_view(eval_bytes) =~= eval_bytes_spec(*proof));
    }
    let challenges = match calculate_challenges(vk, proof, public_inputs, &eval_bytes) {
        Ok(c) => c,
        Err(e) => return Err(e),
    };
    let (l1, pi) = match calculate_l1_and_pi(vk, &challenges, public_inputs) {
        Ok(lp) => lp,
        Err(e) => return Err(e),
    };
    let (r0, d) = match calculate_r0_and_d(vk, proof, &challenges, &l1, &pi, &eval_bytes) {
        Ok(rd) => rd,
        Err(e) => return Err(e),
    };
    let f = match calculate_f(vk, proof, &challenges, &d) {
        Ok(f) => f,
        Err(e) => return Err(e),
    };
    let valid = match is_valid_pairing(vk, proof, &challenges, &r0, &f) {
        Ok(v) => v,
        Err(e) => return Err(e),
    };
    if valid {
        Ok(())
    } else {
        Err(PlonkError::ProofVerificationFailed)
    }
}


// ---------------------------------------------------------------------------
// Laws
// ---------------------------------------------------------------------------

/// Negating a point twice gives it back: `g1_neg(g1_neg(p)) == p` for every
/// 64-byte `p` except `(0, q)`, whose negation `(0, 0)` is read as the
/// identity.
pub proof fn law_g1_neg_involution(p: Seq<u8>)
    requires
        p.len() == 64,
        p != syscalls::zeros(32) + encoding::nat_to_be(syscalls::fq_modulus(), 32),
    ensures
        g1_neg_spec(g1_neg_spec(p)) == p,
{
    if p != syscalls::zeros(64) {
        let q = syscalls::fq_modulus() as int;
        let m = encoding::pow256(32) as int;
        let x = p.subrange(0, 32);
        let ys = p.subrange(32, 64);
        let y = encoding::be_to_nat(ys) as int;
        encoding::lemma_pow256_values();
        encoding::lemma_be_to_nat_bound(ys);
        encoding::lemma_nat_to_be_of_be_to_nat(ys);
        let n1 = ((q - y) % m) as nat;
        let e1 = encoding::nat_to_be(n1, 32);
        encoding::lemma_nat_to_be_len(n1, 32);
        encoding::lemma_be_to_nat_of_nat_to_be(n1, 32);
        vstd::arithmetic::div_mod::lemma_small_mod(n1, m as nat);
        let np = g1_neg_spec(p);
        assert(np == x + e1);
        assert(np.subrange(0, 32) =~= x);
        assert(np.subrange(32, 64) =~= e1);
        if np == syscalls::zeros(64) {
            assert(e1 =~= syscalls::zeros(32));
            encoding::lemma_be_to_nat_zeros(e1);
            vstd::arithmetic::div_mod::lemma_fundamental_div_mod(q - y, m);
            assert(y == q);
            assert(x =~= syscalls::zeros(32));
            assert(p =~= syscalls::zeros(32) + encoding::nat_to_be(syscalls::fq_modulus(), 32));
        }
        // (q - ((q - y) mod m)) mod m == y
        vstd::arithmetic::div_mod::lemma_fundamental_div_mod(q - y, m);
        let k = (q - y) / m;
        assert(q - n1 == m * k + y);
        vstd::arithmetic::div_mod::lemma_mod_multiples_vanish(k, y, m);
        vstd::arithmetic::div_mod::lemma_small_mod(y as nat, m as nat);
        assert(g1_neg_spec(np) =~= x + ys);
        assert(x + ys =~= p);
    }
}

/// `verify` on the canonical encodings of field elements agrees with
/// `verify_unchecked` on the elements themselves.
pub proof fn law_verify_agrees_on_canonical_inputs(
    vk: VerificationKey,
    proof: Proof,
    pis: Seq<Fr>,
)
    requires
        forall|i: int| 0 <= i < pis.len() ==> (#[trigger] pis[i])@ < fr::fr_modulus(),
    ensures
        verify_spec(vk, proof, pis.map_values(|x: Fr| scalar_bytes(x@))) == verify_unchecked_spec(
            vk,
            proof,
            pis,
        ),
{
    reveal(verify_unchecked_spec);
    let inputs = pis.map_values(|x: Fr| scalar_bytes(x@));
    encoding::lemma_pow256_values();
    assert forall|i: int| 0 <= i < inputs.len() implies encoding::be_to_nat(#[trigger] inputs[i])
        == pis[i]@ by {
        encoding::lemma_be_to_nat_of_nat_to_be(pis[i]@, 32);
        vstd::arithmetic::div_mod::lemma_small_mod(pis[i]@, encoding::pow256(32));
    }
    assert forall|i: int| 0 <= i < pis.len() implies #[trigger] inputs_as_fr(inputs)[i] == pis[i] by {
        assert(encoding::be_to_nat(inputs[i]) == pis[i]@);
        lemma_fr_is(pis[i], pis[i]@);
    }
    assert(inputs_as_fr(inputs) =~= pis);
}

} // verus!
