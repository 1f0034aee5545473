//! Root computation of the indexed Merkle tree: a node's content hash is
//! folded up a sibling path, leaf to root, and the tree size is bound
//! into the final hash, so that a root commits to both content and size.
use vstd::prelude::*;

pub mod insert;
pub mod mutate;
pub mod node;
pub mod update;

use crate::bytes::{eq32, extend_bytes, extend_vec, lemma_u64_be_injective, spec_u64_be,
    u64_to_be_bytes};
use crate::crypto::{keccak256, keccak256_of};
use node::{spec_node_hash, IMTNode};

verus! {

/// One level of the fold: combine the running hash with the sibling at
/// that depth, ordered by the node's parity bit; where no sibling exists
/// yet, the present side is hashed alone.
pub open spec fn spec_level_up(h: Seq<u8>, sibling: Option<[u8; 32]>, index: u64) -> Seq<u8> {
    match sibling {
        Some(s) => if index % 2 == 0 {
            keccak256_of(h + s@)
        } else {
            keccak256_of(s@ + h)
        },
        None => keccak256_of(h),
    }
}

/// Fold a hash up a sibling path, halving the node index at each level.
pub open spec fn spec_fold_path(h: Seq<u8>, index: u64, siblings: Seq<Option<[u8; 32]>>) -> Seq<u8>
    decreases siblings.len(),
{
    if siblings.len() == 0 {
        h
    } else {
        spec_fold_path(spec_level_up(h, siblings[0], index), index / 2, siblings.drop_first())
    }
}

/// The byte string whose hash is the root: the folded path hash followed
/// by the tree size as 8 big-endian bytes.
pub open spec fn spec_root_preimage(size: u64, node: IMTNode, siblings: Seq<Option<[u8; 32]>>) -> Seq<
    u8,
> {
    spec_fold_path(spec_node_hash(node), node.index, siblings) + spec_u64_be(size)
}

/// The root the tree commits to, seen from one node and its sibling path.
pub open spec fn spec_imt_root(size: u64, node: IMTNode, siblings: Seq<Option<[u8; 32]>>) -> Seq<
    u8,
> {
    keccak256_of(spec_root_preimage(size, node, siblings))
}

/// The node is a member of the tree committed to in `root`.
pub open spec fn spec_node_exists(
    root: [u8; 32],
    size: u64,
    node: IMTNode,
    siblings: Seq<Option<[u8; 32]>>,
) -> bool {
    root@ == spec_imt_root(size, node, siblings)
}

/// Computes the IMT root from a node, the tree size and the node's
/// sibling path, leaf to root.
pub fn imt_root(size: u64, node: &IMTNode, siblings: &Vec<Option<[u8; 32]>>) -> (r: [u8; 32])
    ensures
        r@ == spec_imt_root(size, *node, siblings@),
{
    let mut hash = node.hash();
    let mut index = node.index;
    let mut i: usize = 0;
    proof {
        assert(siblings@.skip(0) =~= siblings@);
    }
    while i < siblings.len()
        invariant
            i <= siblings@.len(),
            spec_fold_path(hash@, index, siblings@.skip(i as int)) == spec_fold_path(
                spec_node_hash(*node),
                node.index,
                siblings@,
            ),
        decreases siblings@.len() - i,
    {
        let ghost pre = i as int;
        let mut preimage: Vec<u8> = Vec::new();
        match &siblings[i] {
            Some(sibling) => {
                if index % 2 == 0 {
                    extend_bytes(&mut preimage, &hash);
                    extend_bytes(&mut preimage, sibling);
                } else {
                    extend_bytes(&mut preimage, sibling);
                    extend_bytes(&mut preimage, &hash);
                }
            },
            None => {
                extend_bytes(&mut preimage, &hash);
            },
        }
        let ghost old_hash = hash@;
        let ghost old_index = index;
        hash = keccak256(preimage.as_slice());
        proof {
            assert(Seq::<u8>::empty() + old_hash =~= old_hash);
            assert(hash@ == spec_level_up(old_hash, siblings@[pre], old_index));
            assert(siblings@.skip(pre).drop_first() =~= siblings@.skip(pre + 1));
            assert(siblings@.skip(pre)[0] == siblings@[pre]);
        }
        index = index / 2;
        i += 1;
    }
    proof {
        assert(siblings@.skip(siblings@.len() as int) =~= Seq::<Option<[u8; 32]>>::empty());
    }
    let mut preimage: Vec<u8> = Vec::new();
    extend_bytes(&mut preimage, &hash);
    let size_bytes = u64_to_be_bytes(size);
    extend_vec(&mut preimage, &size_bytes);
    keccak256(preimage.as_slice())
}

/// Returns `true` if the given `node` is part of the tree committed to in
/// `root`.
pub fn node_exists(
    root: &[u8; 32],
    size: u64,
    node: &IMTNode,
    siblings: &Vec<Option<[u8; 32]>>,
) -> (r: bool)
    ensures
        r == spec_node_exists(*root, size, *node, siblings@),
{
    let computed = imt_root(size, node, siblings);
    eq32(root, &computed)
}

/// The size is bound into the root: for one node and one sibling path,
/// two different sizes always give the root hash two different preimage
/// byte strings.
pub proof fn lemma_root_preimage_size_binding(
    size1: u64,
    size2: u64,
    node: IMTNode,
    siblings: Seq<Option<[u8; 32]>>,
)
    requires
        size1 != size2,
    ensures
        spec_root_preimage(size1, node, siblings) != spec_root_preimage(size2, node, siblings),
{
    lemma_u64_be_injective(size1, size2);
    let f = spec_fold_path(spec_node_hash(node), node.index, siblings);
    let p1 = f + spec_u64_be(size1);
    let p2 = f + spec_u64_be(size2);
    if p1 == p2 {
        assert forall|j: int| 0 <= j < 8 implies spec_u64_be(size1)[j] == spec_u64_be(size2)[j] by {
            assert(p1[f.len() + j] == p2[f.len() + j]);
        }
        assert(spec_u64_be(size1) =~= spec_u64_be(size2));
    }
}

} // verus!
