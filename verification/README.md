# plonk_solana

PLONK zero-knowledge proof verification over BN254, compatible with snarkjs
proofs and the EIP-196/197 big-endian encodings, with its core verified in
Verus.

Layout:

- `src/` — the verified library.
  - `encoding.rs`, `limbs.rs`: big-endian bytes and 64-bit limbs as numbers.
  - `fr.rs`: the scalar field `Fr`, with addition, subtraction and the
    reductions proved on limbs; multiplication and inversion from arkworks.
  - `syscalls.rs`: the alt_bn128 operations of `solana_bn254` (G1 addition and
    multiplication, pairing, compression), behind trusted wrappers.
  - `g1.rs`, `g2.rs`: point types, compression, constants.
  - `transcript.rs`: the Keccak256 Fiat-Shamir transcript.
  - `plonk.rs`: proof types, challenges, Lagrange evaluation, the linearisation
    and the pairing check; `verify` and `verify_unchecked` with contracts that
    state their outcome for every input, and the library's laws.
  - `vk_parser.rs`: snarkjs decimal strings and coordinate lists to points and
    scalars.
- `tests/`: tests on concrete values, run against the real outside crates.
- `app/`: what stays outside the verified library: error messages, borsh and
  serde encodings, and the JSON and file side of the key parser.
