//! The reasons for refusing a proof, and for refusing to make one.

use vstd::prelude::*;
use crate::fri::config::FriVerificationError;
use crate::vcs::merkle_verifier::MerkleVerificationError;

verus! {

/// The index of the tree of the preprocessed columns.
pub const PREPROCESSED_TRACE_IDX: usize = 0;

/// Why a proof was refused.
#[derive(Clone, Debug)]
pub enum VerificationError {
    /// The shape of the proof is not the one that the components ask for.
    InvalidStructure(String),
    /// A decommitment does not resolve to its commitment.
    Merkle(MerkleVerificationError),
    /// The value of the composition polynomial out of the domain is not the
    /// one that the samples of the trace give.
    OodsNotMatching,
    /// The FRI proof was refused.
    Fri(FriVerificationError),
    /// The nonce does not give the transcript the required zero bits.
    ProofOfWork,
}

/// Why a proof was refused, without the words that describe its shape.
#[derive(Clone, Copy, Debug, PartialEq, Eq, Structural)]
pub enum VerificationErrorKind {
    InvalidStructure,
    Merkle(MerkleVerificationError),
    OodsNotMatching,
    Fri(FriVerificationError),
    ProofOfWork,
}

impl VerificationError {
    /// The error without the words that describe the shape of the proof.
    pub open spec fn spec_kind(self) -> VerificationErrorKind {
        match self {
            VerificationError::InvalidStructure(_) => VerificationErrorKind::InvalidStructure,
            VerificationError::Merkle(e) => VerificationErrorKind::Merkle(e),
            VerificationError::OodsNotMatching => VerificationErrorKind::OodsNotMatching,
            VerificationError::Fri(e) => VerificationErrorKind::Fri(e),
            VerificationError::ProofOfWork => VerificationErrorKind::ProofOfWork,
        }
    }

    /// The error without the words that describe the shape of the proof.
    pub fn kind(&self) -> (r: VerificationErrorKind)
        ensures
            r == self.spec_kind(),
    {
        match self {
            VerificationError::InvalidStructure(_) => VerificationErrorKind::InvalidStructure,
            VerificationError::Merkle(e) => VerificationErrorKind::Merkle(*e),
            VerificationError::OodsNotMatching => VerificationErrorKind::OodsNotMatching,
            VerificationError::Fri(e) => VerificationErrorKind::Fri(*e),
            VerificationError::ProofOfWork => VerificationErrorKind::ProofOfWork,
        }
    }
}

/// Why no proof was made.
#[derive(Clone, Copy, Debug, PartialEq, Eq, Structural)]
pub enum ProvingError {
    /// The trace does not satisfy the constraints.
    ConstraintsNotSatisfied,
}

} // verus!
