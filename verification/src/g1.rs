//! BN254 G1 points: 64 bytes big-endian `x || y`, or 32 bytes compressed.
use vstd::prelude::*;
use crate::errors::PlonkError;
use crate::syscalls;

verus! {

/// Whether two byte arrays hold the same bytes.
pub(crate) fn bytes_eq<const N: usize>(a: &[u8; N], b: &[u8; N]) -> (res: bool)
    ensures
        res == (a@ == b@),
{
    let mut i: usize = 0;
    while i < N
        invariant
            a@.len() == N,
            b@.len() == N,
            0 <= i <= N,
            forall|j: int| 0 <= j < i ==> a@[j] == b@[j],
        decreases N - i,
    {
        if a[i] != b[i] {
            return false;
        }
        i = i + 1;
    }
    assert(a@ =~= b@);
    true
}

/// The identity of G1, encoded as 64 zero bytes.
pub const G1_ZERO: [u8; 64] = [
    0, 0, 0, 0, 0, 0, 0, 0, 0, 0, 0, 0, 0, 0, 0, 0, 0, 0, 0, 0, 0, 0, 0, 0, 0, 0, 0, 0, 0, 0, 0, 0,
    0, 0, 0, 0, 0, 0, 0, 0, 0, 0, 0, 0, 0, 0, 0, 0, 0, 0, 0, 0, 0, 0, 0, 0, 0, 0, 0, 0, 0, 0, 0, 0,
];

/// The generator (1, 2) of G1, big-endian.
pub const G1_GENERATOR: [u8; 64] = [
    0, 0, 0, 0, 0, 0, 0, 0, 0, 0, 0, 0, 0, 0, 0, 0, 0, 0, 0, 0, 0, 0, 0, 0, 0, 0, 0, 0, 0, 0, 0, 1,
    0, 0, 0, 0, 0, 0, 0, 0, 0, 0, 0, 0, 0, 0, 0, 0, 0, 0, 0, 0, 0, 0, 0, 0, 0, 0, 0, 0, 0, 0, 0, 2,
];

/// Uncompressed G1 point on BN254: 64 bytes big-endian (x || y).
#[derive(Clone, Copy, Debug)]
pub struct G1(pub [u8; 64]);

/// Compressed G1 point on BN254: 32 bytes big-endian.
#[derive(Clone, Copy, Debug)]
pub struct CompressedG1(pub [u8; 32]);

impl G1 {
    /// The identity, encoded as 64 zero bytes.
    pub fn zero() -> (res: G1)
        ensures
            res.0 == G1_ZERO,
            res.0@ == syscalls::zeros(64),
    {
        assert(G1_ZERO@ =~= syscalls::zeros(64));
        G1(G1_ZERO)
    }

    /// The generator (1, 2).
    pub fn generator() -> (res: G1)
        ensures
            res.0 == G1_GENERATOR,
    {
        G1(G1_GENERATOR)
    }

    /// The 64 bytes of the point.
    pub fn as_bytes(&self) -> (res: &[u8; 64])
        ensures
            *res == self.0,
    {
        &self.0
    }

    /// Compresses the point to 32 bytes.
    pub fn compress(&self) -> (res: Result<CompressedG1, PlonkError>)
        ensures
            compressed_result(res) == syscalls::or_error(
                syscalls::bn254_g1_compress(self.0@),
                PlonkError::G1CompressionFailed,
            ),
            self.0@ == syscalls::zeros(64) ==> (res is Ok && res->Ok_0.0@ == syscalls::zeros(32)),
            syscalls::g1_on_curve(self.0@) ==> res is Ok,
    {
        match syscalls::g1_compress_be(&self.0) {
            Ok(bytes) => Ok(CompressedG1(bytes)),
            Err(e) => Err(e),
        }
    }
}

impl CompressedG1 {
    /// The 32 bytes of the compressed point.
    pub fn as_bytes(&self) -> (res: &[u8; 32])
        ensures
            *res == self.0,
    {
        &self.0
    }

    /// The 32 bytes of the compressed point, as a slice.
    pub fn as_slice(&self) -> (res: &[u8])
        ensures
            res@ == self.0@,
    {
        self.0.as_slice()
    }

    /// Decompresses the point to its 64-byte form.
    pub fn decompress(&self) -> (res: Result<G1, PlonkError>)
        ensures
            g1_result(res) == syscalls::or_error(
                syscalls::bn254_g1_decompress(self.0@),
                PlonkError::G1DecompressionFailed,
            ),
            self.0@ == syscalls::zeros(32) ==> (res is Ok && res->Ok_0.0@ == syscalls::zeros(64)),
            forall|p: Seq<u8>|
                #![trigger syscalls::bn254_g1_compress(p)]
                syscalls::g1_on_curve(p) && syscalls::bn254_g1_compress(p) == Some(self.0@) ==> (
                res is Ok && res->Ok_0.0@ == p),
    {
        match syscalls::g1_decompress_be(&self.0) {
            Ok(bytes) => Ok(G1(bytes)),
            Err(e) => Err(e),
        }
    }
}

/// Decompresses a G1 point from 32 to 64 bytes (big-endian).
pub fn decompress_g1(bytes: &[u8; 32]) -> (res: Result<[u8; 64], PlonkError>)
    ensures
        syscalls::bytes_result(res) == syscalls::or_error(
            syscalls::bn254_g1_decompress(bytes@),
            PlonkError::G1DecompressionFailed,
        ),
        bytes@ == syscalls::zeros(32) ==> (res is Ok && res->Ok_0@ == syscalls::zeros(64)),
        forall|p: Seq<u8>|
            #![trigger syscalls::bn254_g1_compress(p)]
            syscalls::g1_on_curve(p) && syscalls::bn254_g1_compress(p) == Some(bytes@) ==> (res is Ok
                && res->Ok_0@ == p),
{
    syscalls::g1_decompress_be(bytes)
}

/// Compresses a G1 point from 64 to 32 bytes (big-endian).
pub fn compress_g1(bytes: &[u8; 64]) -> (res: Result<[u8; 32], PlonkError>)
    ensures
        syscalls::bytes_result(res) == syscalls::or_error(
            syscalls::bn254_g1_compress(bytes@),
            PlonkError::G1CompressionFailed,
        ),
        bytes@ == syscalls::zeros(64) ==> (res is Ok && res->Ok_0@ == syscalls::zeros(32)),
        syscalls::g1_on_curve(bytes@) ==> res is Ok,
{
    syscalls::g1_compress_be(bytes)
}

/// The outcome of an operation that gives a point, as plain values.
pub open spec fn g1_result(r: Result<G1, PlonkError>) -> Result<Seq<u8>, PlonkError> {
    match r {
        Ok(p) => Ok(p.0@),
        Err(e) => Err(e),
    }
}

/// The outcome of an operation that gives a compressed point, as plain values.
pub open spec fn compressed_result(r: Result<CompressedG1, PlonkError>) -> Result<
    Seq<u8>,
    PlonkError,
> {
    match r {
        Ok(p) => Ok(p.0@),
        Err(e) => Err(e),
    }
}

impl PartialEq for G1 {
    fn eq(&self, other: &G1) -> (res: bool) {
        bytes_eq(&self.0, &other.0)
    }
}

impl vstd::std_specs::cmp::PartialEqSpecImpl for G1 {
    open spec fn obeys_eq_spec() -> bool {
        true
    }

    open spec fn eq_spec(&self, other: &G1) -> bool {
        self.0@ == other.0@
    }
}

impl Eq for G1 {
}

impl PartialEq for CompressedG1 {
    fn eq(&self, other: &CompressedG1) -> (res: bool) {
        bytes_eq(&self.0, &other.0)
    }
}

impl vstd::std_specs::cmp::PartialEqSpecImpl for CompressedG1 {
    open spec fn obeys_eq_spec() -> bool {
        true
    }

    open spec fn eq_spec(&self, other: &CompressedG1) -> bool {
        self.0@ == other.0@
    }
}

impl Eq for CompressedG1 {
}

impl From<[u8; 64]> for G1 {
    fn from(bytes: [u8; 64]) -> (res: G1) {
        G1(bytes)
    }
}

impl vstd::std_specs::convert::FromSpecImpl<[u8; 64]> for G1 {
    open spec fn obeys_from_spec() -> bool {
        true
    }

    open spec fn from_spec(bytes: [u8; 64]) -> G1 {
        G1(bytes)
    }
}

impl From<[u8; 32]> for CompressedG1 {
    fn from(bytes: [u8; 32]) -> (res: CompressedG1) {
        CompressedG1(bytes)
    }
}

impl vstd::std_specs::convert::FromSpecImpl<[u8; 32]> for CompressedG1 {
    open spec fn obeys_from_spec() -> bool {
        true
    }

    open spec fn from_spec(bytes: [u8; 32]) -> CompressedG1 {
        CompressedG1(bytes)
    }
}

/// What compressing a point gives.
pub open spec fn compress_outcome(p: G1) -> Result<CompressedG1, PlonkError> {
    match syscalls::bn254_g1_compress(p.0@) {
        Some(v) => Ok(CompressedG1(choose|a: [u8; 32]| #![trigger a@] a@ == v)),
        None => Err(PlonkError::G1CompressionFailed),
    }
}

/// What decompressing a compressed point gives.
pub open spec fn decompress_outcome(c: CompressedG1) -> Result<G1, PlonkError> {
    match syscalls::bn254_g1_decompress(c.0@) {
        Some(v) => Ok(G1(choose|a: [u8; 64]| #![trigger a@] a@ == v)),
        None => Err(PlonkError::G1DecompressionFailed),
    }
}

/// A compression that succeeded is the outcome of compressing.
pub proof fn lemma_compress_outcome(p: G1, c: CompressedG1)
    requires
        syscalls::bn254_g1_compress(p.0@) == Some(c.0@),
    ensures
        compress_outcome(p) == Ok::<CompressedG1, PlonkError>(c),
{
    let v = syscalls::bn254_g1_compress(p.0@)->0;
    assert(c.0@ == v);
    let a = choose|a: [u8; 32]| #![trigger a@] a@ == v;
    assert(a@ == v);
    assert(a =~= c.0);
}

/// A decompression that succeeded is the outcome of decompressing.
pub proof fn lemma_decompress_outcome(c: CompressedG1, p: G1)
    requires
        syscalls::bn254_g1_decompress(c.0@) == Some(p.0@),
    ensures
        decompress_outcome(c) == Ok::<G1, PlonkError>(p),
{
    let v = syscalls::bn254_g1_decompress(c.0@)->0;
    assert(p.0@ == v);
    let a = choose|a: [u8; 64]| #![trigger a@] a@ == v;
    assert(a@ == v);
    assert(a =~= p.0);
}

impl<'a> TryFrom<&'a G1> for CompressedG1 {
    type Error = PlonkError;

    fn try_from(point: &'a G1) -> (res: Result<CompressedG1, PlonkError>) {
        let res = point.compress();
        proof {
            if let Ok(c) = res {
                lemma_compress_outcome(*point, c);
            }
        }
        res
    }
}

impl<'a> vstd::std_specs::convert::TryFromSpecImpl<&'a G1> for CompressedG1 {
    open spec fn obeys_try_from_spec() -> bool {
        true
    }

    open spec fn try_from_spec(point: &'a G1) -> Result<CompressedG1, PlonkError> {
        compress_outcome(*point)
    }
}

impl<'a> TryFrom<&'a CompressedG1> for G1 {
    type Error = PlonkError;

    fn try_from(point: &'a CompressedG1) -> (res: Result<G1, PlonkError>) {
        let res = point.decompress();
        proof {
            if let Ok(p) = res {
                lemma_decompress_outcome(*point, p);
            }
        }
        res
    }
}

impl<'a> vstd::std_specs::convert::TryFromSpecImpl<&'a CompressedG1> for G1 {
    open spec fn obeys_try_from_spec() -> bool {
        true
    }

    open spec fn try_from_spec(point: &'a CompressedG1) -> Result<G1, PlonkError> {
        decompress_outcome(*point)
    }
}

impl AsRef<[u8; 64]> for G1 {
    /// The 64 bytes of the point.
    fn as_ref(&self) -> (res: &[u8; 64])
        ensures
            *res == self.0,
    {
        &self.0
    }
}

impl AsRef<[u8; 32]> for CompressedG1 {
    /// The 32 bytes of the compressed point.
    fn as_ref(&self) -> (res: &[u8; 32])
        ensures
            *res == self.0,
    {
        &self.0
    }
}

} // verus!
