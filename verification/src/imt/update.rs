//! Update of a committed node's value hash: the node's membership is
//! checked against the old root, then the root is recomputed with the new
//! value hash along the same sibling path; the tree size is unchanged.
use vstd::prelude::*;

use crate::errors::BatchError;
use crate::imt::node::IMTNode;
use crate::imt::{imt_root, node_exists, spec_imt_root, spec_node_exists};

verus! {

pub struct IMTUpdate {
    pub old_root: [u8; 32],
    pub size: u64,
    pub node: IMTNode,
    pub node_siblings: Vec<Option<[u8; 32]>>,
    pub new_value_hash: [u8; 32],
}

/// The node after the update: only its value hash changes.
pub open spec fn spec_updated_node(upd: IMTUpdate) -> IMTNode {
    IMTNode { value_hash: upd.new_value_hash, ..upd.node }
}

/// What applying an update to a root yields: the recomputed root where
/// the stale-root and membership checks pass, the error naming the first
/// failed check otherwise.
pub open spec fn spec_update_apply(upd: IMTUpdate, old_root: Seq<u8>) -> Result<
    Seq<u8>,
    BatchError,
> {
    if old_root != upd.old_root@ {
        Err(BatchError::StaleRoot)
    } else if !spec_node_exists(upd.old_root, upd.size, upd.node, upd.node_siblings@) {
        Err(BatchError::NonMemberUpdate)
    } else {
        Ok(spec_imt_root(upd.size, spec_updated_node(upd), upd.node_siblings@))
    }
}

impl IMTUpdate {
    /// Apply the update to `old_root` and return the new root, or the
    /// error naming the coherence check that failed.
    pub fn apply(&self, old_root: [u8; 32]) -> (r: Result<[u8; 32], BatchError>)
        ensures
            match r {
                Ok(root) => spec_update_apply(*self, old_root@) == Ok::<Seq<u8>, BatchError>(root@),
                Err(e) => spec_update_apply(*self, old_root@) == Err::<Seq<u8>, BatchError>(e),
            },
    {
        if !crate::bytes::eq32(&old_root, &self.old_root) {
            return Err(BatchError::StaleRoot);
        }
        if !node_exists(&self.old_root, self.size, &self.node, &self.node_siblings) {
            return Err(BatchError::NonMemberUpdate);
        }
        let updated_node = IMTNode {
            index: self.node.index,
            key: self.node.key,
            value_hash: self.new_value_hash,
            next_key: self.node.next_key,
        };
        Ok(imt_root(self.size, &updated_node, &self.node_siblings))
    }
}

} // verus!
