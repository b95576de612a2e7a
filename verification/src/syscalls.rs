//! The alt_bn128 curve operations (EIP-196/197, big-endian encodings), as
//! provided by `solana_bn254`: G1 addition and scalar multiplication, the
//! pairing check, and G1 point compression.
use vstd::prelude::*;
use solana_bn254::prelude::{
    alt_bn128_g1_addition_be, alt_bn128_g1_multiplication_be, alt_bn128_pairing_be, AltBn128Error,
};
use solana_bn254::compression::prelude::{
    alt_bn128_g1_compress_be, alt_bn128_g1_decompress_be, AltBn128CompressionError,
};
use crate::encoding;
use crate::errors::PlonkError;

verus! {

#[verifier::external_type_specification]
#[verifier::external_body]
pub struct ExAltBn128Error(solana_bn254::AltBn128Error);

#[verifier::external_type_specification]
#[verifier::external_body]
pub struct ExAltBn128CompressionError(
    solana_bn254::compression::prelude::AltBn128CompressionError,
);

/// The order `q` of the BN254 base field.
pub open spec fn fq_modulus() -> nat {
    21888242871839275222246405745257275088696311157297823662689037894645226208583nat
}

/// A 64-byte big-endian point `x || y` that lies on `y^2 = x^3 + 3` over Fq
/// with canonical coordinates, or the all-zero encoding of the identity.
pub open spec fn g1_on_curve(p: Seq<u8>) -> bool {
    let x = encoding::be_to_nat(p.subrange(0, 32));
    let y = encoding::be_to_nat(p.subrange(32, 64));
    &&& p.len() == 64
    &&& (x == 0 && y == 0) || (x < fq_modulus() && y < fq_modulus() && (y * y) % fq_modulus() == (
    x * x * x + 3) % fq_modulus())
}

/// `n` zero bytes.
pub open spec fn zeros(n: nat) -> Seq<u8> {
    Seq::new(n, |i: int| 0u8)
}

/// The 64-byte sum of the two 64-byte points in the input, if they are valid.
pub uninterp spec fn bn254_g1_addition(input: Seq<u8>) -> Option<Seq<u8>>;

/// The 64-byte product of the point in the first 64 bytes by the 32-byte
/// scalar after it, if the point is valid.
pub uninterp spec fn bn254_g1_multiplication(input: Seq<u8>) -> Option<Seq<u8>>;

/// The 32-byte outcome of the pairing check over the (G1, G2) pairs of the
/// input, if every point is valid.
pub uninterp spec fn bn254_pairing(input: Seq<u8>) -> Option<Seq<u8>>;

/// The 32-byte compressed form of a 64-byte point, if it can be read.
pub uninterp spec fn bn254_g1_compress(input: Seq<u8>) -> Option<Seq<u8>>;

/// The 64-byte point that a 32-byte compressed form denotes, if any.
pub uninterp spec fn bn254_g1_decompress(input: Seq<u8>) -> Option<Seq<u8>>;

/// `solana_bn254::prelude::alt_bn128_g1_addition_be`. Trusted to be a function
/// of its input (the name `bn254_g1_addition`), and to give on success the
/// affine sum of two curve points as 64 bytes: canonical coordinates of a
/// point on the curve, or zeros for the identity (whose affine coordinates
/// are zero).
#[verifier::external_body]
fn call_g1_addition(input: &[u8]) -> (res: Result<Vec<u8>, AltBn128Error>)
    ensures
        res is Ok <==> bn254_g1_addition(input@) is Some,
        res matches Ok(v) ==> bn254_g1_addition(input@) == Some(v@) && v@.len() == 64,
        res matches Ok(v) ==> g1_on_curve(v@),
{
    alt_bn128_g1_addition_be(input)
}

/// `solana_bn254::prelude::alt_bn128_g1_multiplication_be`. Trusted to be a
/// function of its input (the name `bn254_g1_multiplication`), and to give on
/// success the affine multiple of a curve point as 64 bytes: canonical
/// coordinates of a point on the curve, or zeros for the identity.
#[verifier::external_body]
fn call_g1_multiplication(input: &[u8]) -> (res: Result<Vec<u8>, AltBn128Error>)
    ensures
        res is Ok <==> bn254_g1_multiplication(input@) is Some,
        res matches Ok(v) ==> bn254_g1_multiplication(input@) == Some(v@) && v@.len() == 64,
        res matches Ok(v) ==> g1_on_curve(v@),
{
    alt_bn128_g1_multiplication_be(input)
}

/// `solana_bn254::prelude::alt_bn128_pairing_be`. Trusted to be a function of
/// its input (the name `bn254_pairing`), and to give 32 bytes on success.
#[verifier::external_body]
fn call_pairing(input: &[u8]) -> (res: Result<Vec<u8>, AltBn128Error>)
    ensures
        res is Ok <==> bn254_pairing(input@) is Some,
        res matches Ok(v) ==> bn254_pairing(input@) == Some(v@) && v@.len() == 32,
{
    alt_bn128_pairing_be(input)
}

/// `solana_bn254::compression::prelude::alt_bn128_g1_compress_be`. Trusted to be
/// a function of its input (the name `bn254_g1_compress`); the source shows
/// that the all-zero point compresses to 32 zero bytes and that a point on the
/// curve with canonical coordinates always compresses.
#[verifier::external_body]
fn call_g1_compress(input: &[u8; 64]) -> (res: Result<[u8; 32], AltBn128CompressionError>)
    ensures
        res is Ok <==> bn254_g1_compress(input@) is Some,
        res matches Ok(v) ==> bn254_g1_compress(input@) == Some(v@),
        input@ == zeros(64) ==> (res is Ok && res->Ok_0@ == zeros(32)),
        g1_on_curve(input@) ==> res is Ok,
{
    alt_bn128_g1_compress_be(input)
}

/// `solana_bn254::compression::prelude::alt_bn128_g1_decompress_be`. Trusted to
/// be a function of its input (the name `bn254_g1_decompress`); the source
/// shows that 32 zero bytes decompress to the all-zero point, and that the
/// compressed form of a point on the curve decompresses to that point.
#[verifier::external_body]
fn call_g1_decompress(input: &[u8; 32]) -> (res: Result<[u8; 64], AltBn128CompressionError>)
    ensures
        res is Ok <==> bn254_g1_decompress(input@) is Some,
        res matches Ok(v) ==> bn254_g1_decompress(input@) == Some(v@),
        input@ == zeros(32) ==> (res is Ok && res->Ok_0@ == zeros(64)),
        forall|p: Seq<u8>|
            #![trigger bn254_g1_compress(p)]
            g1_on_curve(p) && bn254_g1_compress(p) == Some(input@) ==> (res is Ok
                && res->Ok_0@ == p),
{
    alt_bn128_g1_decompress_be(input)
}

/// The outcome of an operation that gives bytes, as plain values.
pub open spec fn bytes_result<const N: usize>(r: Result<[u8; N], PlonkError>) -> Result<
    Seq<u8>,
    PlonkError,
> {
    match r {
        Ok(a) => Ok(a@),
        Err(e) => Err(e),
    }
}

/// Lifts an outside outcome into the library's error.
pub open spec fn or_error(r: Option<Seq<u8>>, e: PlonkError) -> Result<Seq<u8>, PlonkError> {
    match r {
        Some(v) => Ok(v),
        None => Err(e),
    }
}

/// The first `N` bytes of a vector, as an array.
fn vec_to_array<const N: usize>(v: &Vec<u8>) -> (res: [u8; N])
    requires
        v@.len() == N,
    ensures
        res@ == v@,
{
    let mut out = [0u8; N];
    let mut i: usize = 0;
    while i < N
        invariant
            v@.len() == N,
            out@.len() == N,
            0 <= i <= N,
            forall|j: int| 0 <= j < i ==> out@[j] == v@[j],
        decreases N - i,
    {
        out[i] = v[i];
        i = i + 1;
    }
    assert(out@ =~= v@);
    out
}

/// Adds the two big-endian G1 points `input[..64]` and `input[64..]`.
pub fn g1_addition_be(input: &[u8; 128]) -> (res: Result<[u8; 64], PlonkError>)
    ensures
        bytes_result(res) == or_error(bn254_g1_addition(input@), PlonkError::G1AdditionFailed),
        res matches Ok(p) ==> g1_on_curve(p@),
{
    match call_g1_addition(input) {
        Ok(v) => Ok(vec_to_array::<64>(&v)),
        Err(_) => Err(PlonkError::G1AdditionFailed),
    }
}

/// Multiplies the big-endian G1 point `input[..64]` by the big-endian scalar
/// `input[64..]`.
pub fn g1_multiplication_be(input: &[u8; 96]) -> (res: Result<[u8; 64], PlonkError>)
    ensures
        bytes_result(res) == or_error(bn254_g1_multiplication(input@), PlonkError::G1MulFailed),
        res matches Ok(p) ==> g1_on_curve(p@),
{
    match call_g1_multiplication(input) {
        Ok(v) => Ok(vec_to_array::<64>(&v)),
        Err(_) => Err(PlonkError::G1MulFailed),
    }
}

/// The pairing check over the whole 192-byte (G1, G2) pairs of the input;
/// bytes after the last whole pair are ignored. Byte 31 of the result is 1
/// when the product of the pairings is one.
pub fn pairing_be(input: &[u8]) -> (res: Result<[u8; 32], PlonkError>)
    ensures
        bytes_result(res) == or_error(
            bn254_pairing(input@.take(input@.len() as int / 192 * 192)),
            PlonkError::PairingFailed,
        ),
{
    let n_pairs = input.len() / 192;
    let len = n_pairs * 192;
    let mut whole: Vec<u8> = Vec::new();
    let mut i: usize = 0;
    while i < len
        invariant
            len == input@.len() / 192 * 192,
            len <= input@.len(),
            0 <= i <= len,
            whole@ == input@.take(i as int),
        decreases len - i,
    {
        whole.push(input[i]);
        i = i + 1;
        assert(whole@ =~= input@.take(i as int));
    }
    match call_pairing(whole.as_slice()) {
        Ok(v) => Ok(vec_to_array::<32>(&v)),
        Err(_) => Err(PlonkError::PairingFailed),
    }
}

/// Compresses a big-endian G1 point to 32 bytes.
pub fn g1_compress_be(input: &[u8; 64]) -> (res: Result<[u8; 32], PlonkError>)
    ensures
        bytes_result(res) == or_error(bn254_g1_compress(input@), PlonkError::G1CompressionFailed),
        input@ == zeros(64) ==> (res is Ok && res->Ok_0@ == zeros(32)),
        g1_on_curve(input@) ==> res is Ok,
{
    match call_g1_compress(input) {
        Ok(v) => Ok(v),
        Err(_) => Err(PlonkError::G1CompressionFailed),
    }
}

/// Decompresses a 32-byte compressed G1 point to its 64-byte big-endian form.
pub fn g1_decompress_be(input: &[u8; 32]) -> (res: Result<[u8; 64], PlonkError>)
    ensures
        bytes_result(res) == or_error(
            bn254_g1_decompress(input@),
            PlonkError::G1DecompressionFailed,
        ),
        input@ == zeros(32) ==> (res is Ok && res->Ok_0@ == zeros(64)),
        forall|p: Seq<u8>|
            #![trigger bn254_g1_compress(p)]
            g1_on_curve(p) && bn254_g1_compress(p) == Some(input@) ==> (res is Ok
                && res->Ok_0@ == p),
{
    match call_g1_decompress(input) {
        Ok(v) => Ok(v),
        Err(_) => Err(PlonkError::G1DecompressionFailed),
    }
}

} // verus!
