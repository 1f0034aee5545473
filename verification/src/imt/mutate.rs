//! The tagged sum of the two tree mutations, and the binding of a
//! mutation to the record proof that authorizes it: the mutation's
//! relevant keyspace key — the created key for an insertion, the
//! superseded value hash for an update — must equal the key recomputed
//! from the proof's claimed fingerprint and data.
use vstd::prelude::*;

use crate::circuits::batch::record_proof::{spec_record_proof_key, RecordProof};
use crate::errors::BatchError;
use crate::imt::insert::{spec_insert_apply, IMTInsert};
use crate::imt::node::IMTNode;
use crate::imt::update::{spec_update_apply, IMTUpdate};
use crate::keyspace_key;

verus! {

pub enum IMTMutate {
    Insert(IMTInsert),
    Update(IMTUpdate),
}

/// The keyspace key a mutation is about: the key being created for an
/// insertion, the value hash being superseded for an update.
pub open spec fn spec_relevant_key(m: IMTMutate) -> [u8; 32] {
    match m {
        IMTMutate::Insert(ins) => ins.node.key,
        IMTMutate::Update(upd) => upd.node.value_hash,
    }
}

/// What applying a mutation to a root yields.
pub open spec fn spec_mutate_apply(m: IMTMutate, old_root: Seq<u8>) -> Result<Seq<u8>, BatchError> {
    match m {
        IMTMutate::Insert(ins) => spec_insert_apply(ins, old_root),
        IMTMutate::Update(upd) => spec_update_apply(upd, old_root),
    }
}

/// The size bound every insertion must respect so that the grown tree
/// size still fits in 64 bits.
pub open spec fn spec_mutate_wf(m: IMTMutate) -> bool {
    match m {
        IMTMutate::Insert(ins) => ins.old_size < u64::MAX,
        IMTMutate::Update(_) => true,
    }
}

impl IMTMutate {
    /// Create a mutation for insertion.
    pub fn insert(
        old_root: [u8; 32],
        old_size: u64,
        ln_node: IMTNode,
        ln_siblings: Vec<Option<[u8; 32]>>,
        node: IMTNode,
        node_siblings: Vec<Option<[u8; 32]>>,
        updated_ln_siblings: Vec<Option<[u8; 32]>>,
    ) -> (r: IMTMutate)
        ensures
            r == (IMTMutate::Insert(
                IMTInsert {
                    old_root,
                    old_size,
                    ln_node,
                    ln_siblings,
                    node,
                    node_siblings,
                    updated_ln_siblings,
                },
            )),
    {
        IMTMutate::Insert(
            IMTInsert {
                old_root,
                old_size,
                ln_node,
                ln_siblings,
                node,
                node_siblings,
                updated_ln_siblings,
            },
        )
    }

    /// Create a mutation for update.
    pub fn update(
        old_root: [u8; 32],
        size: u64,
        node: IMTNode,
        node_siblings: Vec<Option<[u8; 32]>>,
        new_value_hash: [u8; 32],
    ) -> (r: IMTMutate)
        ensures
            r == (IMTMutate::Update(
                IMTUpdate { old_root, size, node, node_siblings, new_value_hash },
            )),
    {
        IMTMutate::Update(IMTUpdate { old_root, size, node, node_siblings, new_value_hash })
    }

    /// Returns `true` if the mutation is bound to the given record proof:
    /// the mutation's relevant keyspace key equals the key recomputed
    /// from the proof's verifying-key fingerprint and its data blob. This
    /// is the anti-substitution check: an unrelated valid proof cannot be
    /// attached to an unrelated record.
    pub fn is_bound_to_proof(&self, record_proof: &RecordProof) -> (r: bool)
        requires
            record_proof.pub_inputs@.len() >= 256,
        ensures
            r == (spec_relevant_key(*self)@ == spec_record_proof_key(*record_proof)),
    {
        let imt_keyspace_key = match self {
            IMTMutate::Insert(ins) => &ins.node.key,
            IMTMutate::Update(upd) => &upd.node.value_hash,
        };
        let current_data = record_proof.current_data();
        let recomputed = keyspace_key(&record_proof.v_key, &current_data);
        crate::bytes::eq32(imt_keyspace_key, &recomputed)
    }

    /// Apply the mutation to `old_root` and return the new root, or the
    /// error naming the coherence check that failed.
    pub fn apply(&self, old_root: [u8; 32]) -> (r: Result<[u8; 32], BatchError>)
        requires
            spec_mutate_wf(*self),
        ensures
            match r {
                Ok(root) => spec_mutate_apply(*self, old_root@) == Ok::<Seq<u8>, BatchError>(root@),
                Err(e) => spec_mutate_apply(*self, old_root@) == Err::<Seq<u8>, BatchError>(e),
            },
    {
        match self {
            IMTMutate::Insert(ins) => ins.apply(old_root),
            IMTMutate::Update(upd) => upd.apply(old_root),
        }
    }
}

} // verus!
