//! Errors of proof verification and point conversion.
use vstd::prelude::*;

verus! {

/// Why a verification or a point conversion failed.
#[derive(Debug, Clone, Copy, PartialEq, Eq, Structural)]
pub enum PlonkError {
    ProofVerificationFailed,
    G1AdditionFailed,
    G1MulFailed,
    G1DecompressionFailed,
    G1CompressionFailed,
    PairingFailed,
    InvalidPublicInputsLength,
    LagrangeDivisionByZero,
    KeccakFailed,
    PublicInputGreaterThanFieldSize,
}

/// The numeric code of each error.
pub open spec fn error_code(error: PlonkError) -> u32 {
    match error {
        PlonkError::ProofVerificationFailed => 0,
        PlonkError::G1AdditionFailed => 1,
        PlonkError::G1MulFailed => 2,
        PlonkError::G1DecompressionFailed => 3,
        PlonkError::G1CompressionFailed => 4,
        PlonkError::PairingFailed => 5,
        PlonkError::InvalidPublicInputsLength => 6,
        PlonkError::LagrangeDivisionByZero => 7,
        PlonkError::KeccakFailed => 8,
        PlonkError::PublicInputGreaterThanFieldSize => 9,
    }
}

impl From<PlonkError> for u32 {
    /// The numeric code of an error.
    fn from(error: PlonkError) -> (code: u32) {
        match error {
            PlonkError::ProofVerificationFailed => 0,
            PlonkError::G1AdditionFailed => 1,
            PlonkError::G1MulFailed => 2,
            PlonkError::G1DecompressionFailed => 3,
            PlonkError::G1CompressionFailed => 4,
            PlonkError::PairingFailed => 5,
            PlonkError::InvalidPublicInputsLength => 6,
            PlonkError::LagrangeDivisionByZero => 7,
            PlonkError::KeccakFailed => 8,
            PlonkError::PublicInputGreaterThanFieldSize => 9,
        }
    }
}

impl vstd::std_specs::convert::FromSpecImpl<PlonkError> for u32 {
    open spec fn obeys_from_spec() -> bool {
        true
    }

    open spec fn from_spec(error: PlonkError) -> u32 {
        error_code(error)
    }
}

/// Distinct errors have distinct codes.
pub proof fn law_error_codes_distinct(a: PlonkError, b: PlonkError)
    ensures
        error_code(a) == error_code(b) <==> a == b,
{
}

} // verus!
