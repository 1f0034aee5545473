//! Insertion into the indexed Merkle tree, replayable from witness data
//! alone: the claimed low nullifier is checked against the old root, and
//! the new root is computed twice — once from the inserted node, once
//! from the updated low nullifier — and the two views must agree.
use vstd::prelude::*;

use crate::errors::BatchError;
use crate::imt::node::IMTNode;
use crate::imt::{imt_root, node_exists, spec_imt_root, spec_node_exists};

verus! {

pub struct IMTInsert {
    pub old_root: [u8; 32],
    pub old_size: u64,
    pub ln_node: IMTNode,
    pub ln_siblings: Vec<Option<[u8; 32]>>,
    pub node: IMTNode,
    pub node_siblings: Vec<Option<[u8; 32]>>,
    pub updated_ln_siblings: Vec<Option<[u8; 32]>>,
}

/// The low nullifier after the insertion: its next key now points at the
/// inserted node's key; all other fields are kept.
pub open spec fn spec_updated_ln(ins: IMTInsert) -> IMTNode {
    IMTNode { next_key: ins.node.key, ..ins.ln_node }
}

/// What applying an insertion to a root yields: the new root where every
/// coherence check passes, and the error naming the first check that
/// fails otherwise.
pub open spec fn spec_insert_apply(ins: IMTInsert, old_root: Seq<u8>) -> Result<
    Seq<u8>,
    BatchError,
> {
    if old_root != ins.old_root@ {
        Err(BatchError::StaleRoot)
    } else if !(ins.ln_node.spec_is_ln_of(ins.node) && spec_node_exists(
        ins.old_root,
        ins.old_size,
        ins.ln_node,
        ins.ln_siblings@,
    )) {
        Err(BatchError::InvalidLowNullifier)
    } else {
        let new_size = (ins.old_size + 1) as u64;
        let root_from_node = spec_imt_root(new_size, ins.node, ins.node_siblings@);
        let root_from_updated_ln = spec_imt_root(
            new_size,
            spec_updated_ln(ins),
            ins.updated_ln_siblings@,
        );
        if root_from_node == root_from_updated_ln {
            Ok(root_from_node)
        } else {
            Err(BatchError::SiblingMismatch)
        }
    }
}

/// An insertion hands the inserted node straight to a following update:
/// the root an insertion produces commits to the inserted node along the
/// insertion's own sibling path, so an immediate update of the same key —
/// built from that root, the grown size, the inserted node and the same
/// path — passes its membership check, whatever new value hash it carries.
pub proof fn lemma_insert_then_update(ins: IMTInsert, old_root: Seq<u8>, new_root: [u8; 32])
    requires
        ins.old_size < u64::MAX,
        spec_insert_apply(ins, old_root) == Ok::<Seq<u8>, BatchError>(new_root@),
    ensures
        spec_node_exists(new_root, (ins.old_size + 1) as u64, ins.node, ins.node_siblings@),
        forall|vh: [u8; 32]|
            (#[trigger] crate::imt::update::spec_update_apply(
                (crate::imt::update::IMTUpdate {
                    old_root: new_root,
                    size: (ins.old_size + 1) as u64,
                    node: ins.node,
                    node_siblings: ins.node_siblings,
                    new_value_hash: vh,
                }),
                new_root@,
            )) is Ok,
{
}

impl IMTInsert {
    /// Returns `true` if `self.ln_node` is a valid low nullifier for
    /// `self.node`: it satisfies the low-nullifier predicate and it is a
    /// member of the tree committed to in `self.old_root`.
    pub fn is_valid_ln(&self) -> (r: bool)
        ensures
            r == (self.ln_node.spec_is_ln_of(self.node) && spec_node_exists(
                self.old_root,
                self.old_size,
                self.ln_node,
                self.ln_siblings@,
            )),
    {
        self.ln_node.is_ln_of(&self.node) && node_exists(
            &self.old_root,
            self.old_size,
            &self.ln_node,
            &self.ln_siblings,
        )
    }

    /// Apply the insertion to `old_root` and return the new root, or the
    /// error naming the coherence check that failed.
    pub fn apply(&self, old_root: [u8; 32]) -> (r: Result<[u8; 32], BatchError>)
        requires
            self.old_size < u64::MAX,
        ensures
            match r {
                Ok(root) => spec_insert_apply(*self, old_root@) == Ok::<Seq<u8>, BatchError>(root@),
                Err(e) => spec_insert_apply(*self, old_root@) == Err::<Seq<u8>, BatchError>(e),
            },
    {
        if !crate::bytes::eq32(&old_root, &self.old_root) {
            return Err(BatchError::StaleRoot);
        }
        if !self.is_valid_ln() {
            return Err(BatchError::InvalidLowNullifier);
        }
        let new_size = self.old_size + 1;
        let updated_ln = IMTNode {
            index: self.ln_node.index,
            key: self.ln_node.key,
            value_hash: self.ln_node.value_hash,
            next_key: self.node.key,
        };
        let root_from_node = imt_root(new_size, &self.node, &self.node_siblings);
        let root_from_updated_ln = imt_root(new_size, &updated_ln, &self.updated_ln_siblings);
        if !crate::bytes::eq32(&root_from_node, &root_from_updated_ln) {
            return Err(BatchError::SiblingMismatch);
        }
        Ok(root_from_node)
    }
}

} // verus!
