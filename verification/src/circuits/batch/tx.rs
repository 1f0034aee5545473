//! One transaction of the batch: a tree mutation coupled with the record
//! proof that authorizes it. An unbound proof does not abort the batch
//! here: the mutation is skipped and the root is left unchanged.
use vstd::prelude::*;

use super::record_proof::{spec_record_proof_key, RecordProof};
use crate::errors::BatchError;
use crate::imt::mutate::{spec_mutate_apply, spec_mutate_wf, spec_relevant_key, IMTMutate};

verus! {

pub struct Tx {
    pub record_proof: RecordProof,
    pub imt_mutate: IMTMutate,
}

/// The machine bounds a transaction must respect: a full owner data blob
/// in the proof's public inputs, and a tree size that can still grow.
pub open spec fn spec_tx_wf(tx: Tx) -> bool {
    &&& tx.record_proof.pub_inputs@.len() >= 256
    &&& spec_mutate_wf(tx.imt_mutate)
}

/// What applying a transaction to a root yields: the unchanged root where
/// the proof is not bound to the mutation (the write is skipped), the
/// mutation's result otherwise.
pub open spec fn spec_tx_apply(tx: Tx, root: Seq<u8>) -> Result<Seq<u8>, BatchError> {
    if spec_relevant_key(tx.imt_mutate)@ != spec_record_proof_key(tx.record_proof) {
        Ok(root)
    } else {
        spec_mutate_apply(tx.imt_mutate, root)
    }
}

/// An unbound proof never moves the root: where the mutation's relevant
/// key differs from the key recomputed from the record proof, applying
/// the transaction succeeds with the root unchanged, whatever the
/// mutation holds.
pub proof fn lemma_unbound_tx_skips(tx: Tx, root: Seq<u8>)
    requires
        spec_relevant_key(tx.imt_mutate)@ != spec_record_proof_key(tx.record_proof),
    ensures
        spec_tx_apply(tx, root) == Ok::<Seq<u8>, BatchError>(root),
{
}

impl Tx {
    /// Apply the transaction to `root`: where the record proof is not
    /// bound to the mutation the root is returned unchanged, otherwise
    /// the mutation is applied.
    pub fn apply(&self, root: [u8; 32]) -> (r: Result<[u8; 32], BatchError>)
        requires
            spec_tx_wf(*self),
        ensures
            match r {
                Ok(new_root) => spec_tx_apply(*self, root@) == Ok::<Seq<u8>, BatchError>(
                    new_root@,
                ),
                Err(e) => spec_tx_apply(*self, root@) == Err::<Seq<u8>, BatchError>(e),
            },
    {
        if !self.imt_mutate.is_bound_to_proof(&self.record_proof) {
            return Ok(root);
        }
        self.imt_mutate.apply(root)
    }
}

} // verus!
