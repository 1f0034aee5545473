//! The record type of the indexed Merkle tree. A node commits to its key,
//! its value hash and the key of its successor; its position in the tree
//! is carried beside the record and is not part of the content hash.
use vstd::prelude::*;

use crate::bytes::{all_zero, extend_bytes, is_zero32, lex_lt, lt32};
use crate::crypto::{keccak256, keccak256_of};

verus! {

#[derive(Clone, Copy, Debug)]
pub struct IMTNode {
    pub index: u64,
    pub key: [u8; 32],
    pub value_hash: [u8; 32],
    pub next_key: [u8; 32],
}

/// The content hash of a node: the hash of key, value hash and next key,
/// in that order; the position is deliberately left out.
pub open spec fn spec_node_hash(n: IMTNode) -> Seq<u8> {
    keccak256_of(n.key@ + n.value_hash@ + n.next_key@)
}

impl IMTNode {
    /// `self` is the low nullifier of `node`: its key lies strictly below
    /// `node`'s, and its successor key lies strictly above (or `self` is
    /// the maximum member, whose successor key is the zero sentinel).
    pub open spec fn spec_is_ln_of(self, node: IMTNode) -> bool {
        &&& lex_lt(self.key@, node.key@)
        &&& (lex_lt(node.key@, self.next_key@) || all_zero(self.next_key@))
    }

    pub fn hash(&self) -> (r: [u8; 32])
        ensures
            r@ == spec_node_hash(*self),
    {
        let mut preimage: Vec<u8> = Vec::new();
        extend_bytes(&mut preimage, &self.key);
        extend_bytes(&mut preimage, &self.value_hash);
        extend_bytes(&mut preimage, &self.next_key);
        keccak256(preimage.as_slice())
    }

    pub fn is_ln_of(&self, node: &IMTNode) -> (r: bool)
        ensures
            r == self.spec_is_ln_of(*node),
    {
        lt32(&self.key, &node.key) && (lt32(&node.key, &self.next_key) || is_zero32(
            &self.next_key,
        ))
    }
}

/// The low-nullifier test is strict: a candidate whose key is not
/// strictly above the claimed low nullifier's key is never accepted, and
/// a successor key lying at or below the candidate's key (other than the
/// zero sentinel) invalidates the claim.
pub proof fn lemma_is_ln_of_strict(ln: IMTNode, candidate: IMTNode)
    ensures
        !lex_lt(ln.key@, candidate.key@) ==> !ln.spec_is_ln_of(candidate),
        !all_zero(ln.next_key@) && !lex_lt(candidate.key@, ln.next_key@) ==> !ln.spec_is_ln_of(
            candidate,
        ),
{
}

} // verus!
