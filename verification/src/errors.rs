//! The error taxonomy of the batch protocol. Every failure is a hard,
//! non-recoverable batch failure, except an unbound proof on a
//! transaction class that may skip, which the caller absorbs as a skip.
use vstd::prelude::*;

verus! {

#[derive(Clone, Copy, Debug, PartialEq, Eq, Structural)]
pub enum BatchError {
    /// The root a mutation was built against is not the current root.
    StaleRoot,
    /// The claimed low nullifier is not the member immediately below the
    /// inserted key.
    InvalidLowNullifier,
    /// The two sibling paths of an insertion commit to different trees.
    SiblingMismatch,
    /// An update names a node that is not a committed member.
    NonMemberUpdate,
    /// The record proof does not bind to the mutation's relevant key.
    UnboundProof,
    /// The proof oracle rejected the record proof.
    ProofRejected,
    /// The folded root differs from the declared expected root.
    FinalRootMismatch,
    /// The chained transaction hash differs from the declared one.
    FinalTxHashMismatch,
}

/// The failures of the record and account programs: each one is a check
/// a program enforces before committing to its public inputs.
#[derive(Clone, Copy, Debug, PartialEq, Eq, Structural)]
pub enum RecordError {
    /// No public key could be recovered from the signature.
    RecoveryFailed,
    /// The recovered current key differs from the declared one.
    CurrentKeyMismatch,
    /// The declared public-inputs hash differs from the recomputed one.
    PublicInputsMismatch,
    /// The recovered key differs from the owner key at the named index.
    OwnerMismatch,
    /// A signature names an owner slot outside the data blob.
    BadOwnerIndex,
    /// Fewer distinct signers than the blob's threshold demands.
    ThresholdNotMet,
}

impl BatchError {
    /// A short description of the failure.
    pub fn describe(&self) -> (r: &'static str)
    {
        match self {
            BatchError::StaleRoot => "stale old root",
            BatchError::InvalidLowNullifier => "invalid low nullifier",
            BatchError::SiblingMismatch => "sibling paths disagree",
            BatchError::NonMemberUpdate => "update of a non-member node",
            BatchError::UnboundProof => "proof not bound to the mutation",
            BatchError::ProofRejected => "record proof rejected",
            BatchError::FinalRootMismatch => "final root mismatch",
            BatchError::FinalTxHashMismatch => "final transaction hash mismatch",
        }
    }
}

} // verus!
