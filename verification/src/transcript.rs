//! Keccak256 transcript matching snarkjs' Keccak256Transcript: G1 points enter
//! as 64 bytes, scalars as 32 bytes (both big-endian), and a challenge is the
//! Keccak256 hash of everything entered, reduced modulo the scalar field order.
use vstd::prelude::*;
use light_hasher::{Hasher, HasherError, Keccak};
use crate::encoding;
use crate::errors::PlonkError;
use crate::fr::{self, Fr};

verus! {

#[verifier::external_type_specification]
#[verifier::external_body]
pub struct ExHasherError(light_hasher::HasherError);

/// The Keccak256 digest of a byte string.
pub uninterp spec fn keccak256(data: Seq<u8>) -> Seq<u8>;

/// The parts joined in order.
pub open spec fn concat(parts: Seq<Seq<u8>>) -> Seq<u8>
    decreases parts.len(),
{
    if parts.len() == 0 {
        seq![]
    } else {
        concat(parts.drop_last()) + parts.last()
    }
}

/// The byte strings that a slice of slices holds.
pub open spec fn slices_view(slices: Seq<&[u8]>) -> Seq<Seq<u8>> {
    slices.map_values(|s: &[u8]| s@)
}

/// The challenge that hashing `data` gives: the digest read big-endian,
/// reduced modulo the scalar field order.
pub open spec fn challenge_of(data: Seq<u8>) -> nat {
    fr::unchecked_value(keccak256(data))
}

/// `light_hasher::Keccak::hashv`: the Keccak256 digest of the slices fed in
/// order, that is of their concatenation. With the `keccak` feature off-chain
/// its source always returns `Ok`.
#[verifier::external_body]
fn keccak_hashv(slices: &[&[u8]]) -> (res: Result<[u8; 32], HasherError>)
    ensures
        res is Ok,
        res matches Ok(h) ==> h@ == keccak256(concat(slices_view(slices@))),
{
    Keccak::hashv(slices)
}

/// Hashes the slices as one Keccak256 input and returns the challenge.
pub fn hash_challenge(slices: &[&[u8]]) -> (res: Result<Fr, PlonkError>)
    ensures
        res is Ok,
        res matches Ok(c) ==> c@ == challenge_of(concat(slices_view(slices@))),
{
    match keccak_hashv(slices) {
        Ok(hash) => Ok(Fr::from_be_bytes_unchecked(&hash)),
        Err(_) => Err(PlonkError::KeccakFailed),
    }
}

/// One item entered into a transcript.
enum Entry {
    Point([u8; 64]),
    Scalar([u8; 32]),
}

/// The bytes an entry contributes.
spec fn entry_bytes(e: Entry) -> Seq<u8> {
    match e {
        Entry::Point(p) => p@,
        Entry::Scalar(s) => s@,
    }
}

/// A transcript that collects points and scalars and hashes them on demand.
pub struct Transcript {
    data: Vec<Entry>,
}

impl View for Transcript {
    type V = Seq<Seq<u8>>;

    /// The byte strings entered so far, in order.
    closed spec fn view(&self) -> Seq<Seq<u8>> {
        self.data@.map_values(|e: Entry| entry_bytes(e))
    }
}

impl Transcript {
    /// An empty transcript.
    pub fn new() -> (res: Transcript)
        ensures
            res@ == Seq::<Seq<u8>>::empty(),
    {
        let res = Transcript { data: Vec::new() };
        assert(res@ =~= Seq::<Seq<u8>>::empty());
        res
    }

    /// Forgets everything entered.
    pub fn reset(&mut self)
        ensures
            final(self)@ == Seq::<Seq<u8>>::empty(),
    {
        self.data.clear();
        assert(self@ =~= Seq::<Seq<u8>>::empty());
    }

    /// Enters a 64-byte point.
    pub fn add_point(&mut self, p: &[u8; 64])
        ensures
            final(self)@ == old(self)@.push(p@),
    {
        self.data.push(Entry::Point(*p));
        assert(self@ =~= old(self)@.push(p@));
    }

    /// Enters a scalar as its 32-byte big-endian encoding.
    pub fn add_scalar(&mut self, s: &Fr)
        ensures
            final(self)@ == old(self)@.push(encoding::nat_to_be(s@, 32)),
    {
        let bytes = s.to_be_bytes();
        self.data.push(Entry::Scalar(bytes));
        assert(self@ =~= old(self)@.push(encoding::nat_to_be(s@, 32)));
    }

    /// The challenge for everything entered so far.
    pub fn get_challenge(&self) -> (res: Result<Fr, PlonkError>)
        ensures
            res is Ok,
            res matches Ok(c) ==> c@ == challenge_of(concat(self@)),
    {
        let mut buffer: Vec<u8> = Vec::new();
        let mut i: usize = 0;
        while i < self.data.len()
            invariant
                0 <= i <= self.data@.len(),
                buffer@ == concat(self@.take(i as int)),
            decreases self.data@.len() - i,
        {
            let ghost before = buffer@;
            match &self.data[i] {
                Entry::Point(p) => {
                    let mut j: usize = 0;
                    while j < 64
                        invariant
                            0 <= j <= 64,
                            buffer@ == before + p@.take(j as int),
                        decreases 64 - j,
                    {
                        buffer.push(p[j]);
                        j = j + 1;
                        assert(buffer@ =~= before + p@.take(j as int));
                    }
                    assert(p@.take(64) =~= p@);
                },
                Entry::Scalar(s) => {
                    let mut j: usize = 0;
                    while j < 32
                        invariant
                            0 <= j <= 32,
                            buffer@ == before + s@.take(j as int),
                        decreases 32 - j,
                    {
                        buffer.push(s[j]);
                        j = j + 1;
                        assert(buffer@ =~= before + s@.take(j as int));
                    }
                    assert(s@.take(32) =~= s@);
                },
            }
            assert(self@.take(i + 1).drop_last() =~= self@.take(i as int));
            i = i + 1;
        }
        assert(self@.take(self.data@.len() as int) =~= self@);
        let slices: [&[u8]; 1] = [buffer.as_slice()];
        proof {
            let parts = slices_view(slices@);
            assert(slices@.len() == 1);
            assert(slices@[0]@ == buffer@);
            assert(parts.last() == buffer@);
            assert(parts.drop_last() =~= Seq::<Seq<u8>>::empty());
            assert(concat(parts.drop_last()) == Seq::<u8>::empty());
            assert(concat(parts) =~= buffer@);
        }
        hash_challenge(&slices)
    }
}

/// After `reset` a transcript is as good as a new one: `reset` leaves no
/// entries, each `add_point` / `add_scalar` appends one, and `get_challenge`
/// depends on the entries alone; so for any entries entered after `reset`,
/// whatever was entered before, the challenge is that of `Transcript::new()`
/// given the same entries.
pub proof fn law_reset_forgets(before: Seq<Seq<u8>>, entries: Seq<Seq<u8>>)
    ensures
        ({
            let after_reset = Seq::<Seq<u8>>::empty();
            let fresh = Seq::<Seq<u8>>::empty();
            challenge_of(concat(after_reset + entries)) == challenge_of(concat(fresh + entries))
                && challenge_of(concat(after_reset + entries)) == challenge_of(concat(entries))
        }),
{
    assert(Seq::<Seq<u8>>::empty() + entries =~= entries);
}

} // verus!
