//! The errors of the prover and verifier interfaces.

use vstd::prelude::*;
use vstd::std_specs::convert::FromSpecImpl;

verus! {

/// Position of a cell in the extended blob.
pub type CellIndex = u64;

/// Position of a commitment in the list given to batch verification.
pub type RowIndex = u64;

/// Errors that can occur during deserialization of untrusted input.
#[derive(Debug, Clone, PartialEq, Eq)]
pub enum SerializationError {
    CouldNotDeserializeScalar { bytes: Vec<u8> },
    CouldNotDeserializeG1Point { bytes: Vec<u8> },
    ScalarHasInvalidLength { bytes: Vec<u8>, length: usize },
    BlobHasInvalidLength { bytes: Vec<u8>, length: usize },
    G1PointHasInvalidLength { bytes: Vec<u8>, length: usize },
}

/// Errors of erasure decoding.
#[derive(Debug, Clone, Copy, PartialEq, Eq)]
pub enum RSError {
    /// The decoded polynomial has a non-zero coefficient at or above the
    /// degree bound: the evaluations do not come from one codeword.
    PolynomialHasInvalidLength { num_coefficients: usize, expected_num_coefficients: usize },
    /// A divisor that must be invertible was zero.
    ZeroDivisor,
    /// The decoded codeword differs from an evaluation that was supplied.
    InconsistentEvaluations,
}

/// Errors that can occur while calling a method in the Verifier API.
#[derive(Debug, Clone, PartialEq, Eq)]
pub enum VerifierError {
    Serialization(SerializationError),
    NumCellIndicesNotEqualToNumCells { num_cell_indices: usize, num_cells: usize },
    CellIndicesNotUnique,
    NotEnoughCellsToReconstruct { num_cells_received: usize, min_cells_needed: usize },
    TooManyCellsReceived { num_cells_received: usize, max_cells_needed: usize },
    CellDoesNotContainEnoughBytes { cell_index: CellIndex, num_bytes: usize, expected_num_bytes: usize },
    CellIndexOutOfRange { cell_index: CellIndex, max_number_of_cells: u64 },
    InvalidRowIndex { row_index: u64, max_number_of_rows: u64 },
    InvalidProof,
    BatchVerificationInputsMustHaveSameLength {
        row_indices_len: usize,
        cell_indices_len: usize,
        cells_len: usize,
        proofs_len: usize,
    },
    ReedSolomon(RSError),
    PolynomialHasInvalidLength { num_coefficients: usize, expected_num_coefficients: usize },
}

/// Errors that can occur while calling a method in the Prover API.
#[derive(Debug, Clone, PartialEq, Eq)]
pub enum ProverError {
    NumProofsDoesNotEqualNumCells,
    Serialization(SerializationError),
    RecoveryFailure(VerifierError),
}

impl SerializationError {
    /// The bytes that were not accepted.
    pub open spec fn offending_bytes(self) -> Seq<u8> {
        match self {
            SerializationError::CouldNotDeserializeScalar { bytes } => bytes@,
            SerializationError::CouldNotDeserializeG1Point { bytes } => bytes@,
            SerializationError::ScalarHasInvalidLength { bytes, .. } => bytes@,
            SerializationError::BlobHasInvalidLength { bytes, .. } => bytes@,
            SerializationError::G1PointHasInvalidLength { bytes, .. } => bytes@,
        }
    }

    /// Whether the error reports a byte string of the wrong length.
    pub open spec fn is_length_error(self) -> bool {
        match self {
            SerializationError::ScalarHasInvalidLength { bytes, length } => length == bytes@.len(),
            SerializationError::BlobHasInvalidLength { bytes, length } => length == bytes@.len(),
            SerializationError::G1PointHasInvalidLength { bytes, length } => length == bytes@.len(),
            _ => false,
        }
    }
}

impl VerifierError {
    /// Whether the error is the outcome "the proof is invalid", as opposed
    /// to a failure to evaluate the call.
    pub fn invalid_proof(&self) -> (r: bool)
        ensures
            r == (*self is InvalidProof),
    {
        match self {
            VerifierError::InvalidProof => true,
            _ => false,
        }
    }

    /// Whether the error reports a byte string that could not be decoded:
    /// one of the wrong length, or one that encodes no scalar or point.
    pub open spec fn is_serialization_failure(self) -> bool {
        self is Serialization || self is CellDoesNotContainEnoughBytes
    }
}

impl From<SerializationError> for ProverError {
    fn from(value: SerializationError) -> (r: Self) {
        ProverError::Serialization(value)
    }
}

impl FromSpecImpl<SerializationError> for ProverError {
    open spec fn obeys_from_spec() -> bool {
        true
    }

    open spec fn from_spec(value: SerializationError) -> Self {
        ProverError::Serialization(value)
    }
}

impl From<VerifierError> for ProverError {
    fn from(value: VerifierError) -> (r: Self) {
        ProverError::RecoveryFailure(value)
    }
}

impl FromSpecImpl<VerifierError> for ProverError {
    open spec fn obeys_from_spec() -> bool {
        true
    }

    open spec fn from_spec(value: VerifierError) -> Self {
        ProverError::RecoveryFailure(value)
    }
}

impl From<RSError> for VerifierError {
    fn from(value: RSError) -> (r: Self) {
        VerifierError::ReedSolomon(value)
    }
}

impl FromSpecImpl<RSError> for VerifierError {
    open spec fn obeys_from_spec() -> bool {
        true
    }

    open spec fn from_spec(value: RSError) -> Self {
        VerifierError::ReedSolomon(value)
    }
}

impl From<SerializationError> for VerifierError {
    fn from(value: SerializationError) -> (r: Self) {
        VerifierError::Serialization(value)
    }
}

impl FromSpecImpl<SerializationError> for VerifierError {
    open spec fn obeys_from_spec() -> bool {
        true
    }

    open spec fn from_spec(value: SerializationError) -> Self {
        VerifierError::Serialization(value)
    }
}

/// What a verification call answers once "the proof is invalid" is read as
/// the answer `false` and every other error stays an error.
pub fn verification_outcome(result: Result<(), VerifierError>) -> (r: Result<bool, VerifierError>)
    ensures
        result is Ok ==> r == Ok::<bool, VerifierError>(true),
        result is Err && result->Err_0 is InvalidProof ==> r == Ok::<bool, VerifierError>(false),
        result is Err && !(result->Err_0 is InvalidProof) ==> r == Err::<bool, VerifierError>(
            result->Err_0,
        ),
{
    match result {
        Ok(_) => Ok(true),
        Err(VerifierError::InvalidProof) => Ok(false),
        Err(err) => Err(err),
    }
}

} // verus!
