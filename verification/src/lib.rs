//! PLONK proof verification over BN254 (snarkjs-compatible), with the field
//! arithmetic, the transcript, the point encodings and the verifier's
//! algebra proved against their specifications.
pub mod encoding;
pub mod errors;
pub mod limbs;
pub mod fr;
pub mod g1;
pub mod g2;
pub mod syscalls;
pub mod transcript;
pub mod plonk;
pub mod vk_parser;
pub mod laws;

pub use errors::PlonkError;
pub use fr::{bigint_from_be_bytes, bigint_to_be_bytes, Fr};
pub use g1::{compress_g1, decompress_g1, CompressedG1, G1};
pub use g2::G2;
pub use plonk::{verify, verify_unchecked, CompressedProof, Proof, VerificationKey};
pub use transcript::Transcript;
