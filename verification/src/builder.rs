//! The live tree builder: a mutable indexed Merkle tree that produces the
//! self-describing mutations the batch programs replay. Its invariant
//! keeps the per-level hash cache coherent with the member list, so every
//! member provably folds to the live root along its cached sibling path;
//! each mutation it hands out is also re-checked by replaying it, and
//! that replay provably succeeds, reproducing the live tree's new root
//! from the old one.
use vstd::prelude::*;

use crate::bytes::{all_zero, eq32, extend_bytes, extend_vec, lex_lt, lt32, u64_to_be_bytes};
use crate::crypto::{keccak256, keccak256_of};
use crate::errors::BatchError;
use crate::imt::insert::spec_insert_apply;
use crate::imt::mutate::{spec_mutate_apply, spec_mutate_wf, IMTMutate};
use crate::imt::node::{spec_node_hash, IMTNode};
use crate::imt::{spec_fold_path, spec_imt_root, spec_level_up};

verus! {

/// `x` shifted right by `n` bits: the position of a leaf's ancestor `n`
/// levels up.
pub open spec fn spec_shr(x: u64, n: nat) -> u64
    decreases n,
{
    if n == 0 {
        x
    } else {
        spec_shr(x / 2, (n - 1) as nat)
    }
}

proof fn lemma_shr_zero(n: nat)
    ensures
        spec_shr(0, n) == 0,
    decreases n,
{
    if n > 0 {
        lemma_shr_zero((n - 1) as nat);
    }
}

proof fn lemma_shr_le(x: u64, y: u64, n: nat)
    requires
        x <= y,
    ensures
        spec_shr(x, n) <= spec_shr(y, n),
    decreases n,
{
    if n > 0 {
        lemma_shr_le(x / 2, y / 2, (n - 1) as nat);
    }
}

proof fn lemma_shr_self_le(x: u64, n: nat)
    ensures
        spec_shr(x, n) <= x,
    decreases n,
{
    if n > 0 {
        lemma_shr_self_le(x / 2, (n - 1) as nat);
    }
}

proof fn lemma_shr_step(x: u64, n: nat)
    ensures
        spec_shr(x, n) / 2 == spec_shr(x, n + 1),
    decreases n,
{
    if n == 0 {
        assert(spec_shr(x, 1) == spec_shr(x / 2, 0));
    } else {
        lemma_shr_step(x / 2, (n - 1) as nat);
    }
}

proof fn lemma_shr_succ(x: u64, n: nat)
    requires
        x < u64::MAX,
    ensures
        spec_shr(x, n) <= spec_shr((x + 1) as u64, n) <= spec_shr(x, n) + 1,
    decreases n,
{
    if n > 0 {
        lemma_shr_succ(x / 2, (n - 1) as nat);
        assert((x + 1) as u64 / 2 == x / 2 || (x + 1) as u64 / 2 == x / 2 + 1);
        if (x + 1) as u64 / 2 == x / 2 {
            lemma_shr_le(x / 2, x / 2, (n - 1) as nat);
        }
    }
}

/// Folding one more sibling onto a path hash: the level it combines at is
/// the start index shifted down by the number of siblings already folded.
proof fn lemma_fold_path_push(
    h: Seq<u8>,
    index: u64,
    sibs: Seq<Option<[u8; 32]>>,
    s: Option<[u8; 32]>,
)
    ensures
        spec_fold_path(h, index, sibs.push(s)) == spec_level_up(
            spec_fold_path(h, index, sibs),
            s,
            spec_shr(index, sibs.len()),
        ),
    decreases sibs.len(),
{
    if sibs.len() == 0 {
        assert(sibs.push(s)[0] == s);
        assert(sibs.push(s).drop_first() =~= Seq::<Option<[u8; 32]>>::empty());
        assert(spec_fold_path(spec_level_up(h, s, index), index / 2, Seq::empty())
            == spec_level_up(h, s, index));
        assert(spec_shr(index, 0) == index);
        assert(spec_fold_path(h, index, sibs) == h);
    } else {
        assert(sibs.push(s)[0] == sibs[0]);
        assert(sibs.push(s).drop_first() =~= sibs.drop_first().push(s));
        lemma_fold_path_push(spec_level_up(h, sibs[0], index), index / 2, sibs.drop_first(), s);
        assert(spec_shr(index / 2, (sibs.len() - 1) as nat) == spec_shr(index, sibs.len()));
    }
}

proof fn lemma_shr_below(x: u64, d: u64)
    requires
        d <= 63,
        x < (1u64 << d),
    ensures
        spec_shr(x, d as nat) == 0,
    decreases d,
{
    if d == 0 {
        assert(1u64 << 0u64 == 1) by (bit_vector);
    } else {
        assert(x / 2 < (1u64 << ((d - 1) as u64))) by (bit_vector)
            requires
                1 <= d <= 63,
                x < (1u64 << d),
        ;
        lemma_shr_below(x / 2, (d - 1) as u64);
        assert(spec_shr(x, d as nat) == spec_shr(x / 2, (d - 1) as nat));
    }
}

/// No two members share a key.
pub open spec fn spec_keys_unique(nodes: Seq<IMTNode>) -> bool {
    forall|i: int, j: int|
        0 <= i < nodes.len() && 0 <= j < nodes.len() && i != j ==> (#[trigger] nodes[i]).key@ != (
        #[trigger] nodes[j]).key@
}

/// One member's place in the ordered linked list: either its next key is
/// the zero sentinel and no member's key exceeds its own, or its next key
/// is the key of a member strictly above it with no member strictly
/// between.
pub open spec fn spec_node_linked(nodes: Seq<IMTNode>, n: IMTNode) -> bool {
    if all_zero(n.next_key@) {
        forall|j: int| 0 <= j < nodes.len() ==> lex_le((#[trigger] nodes[j]).key@, n.key@)
    } else {
        &&& lex_lt(n.key@, n.next_key@)
        &&& exists|j: int| 0 <= j < nodes.len() && (#[trigger] nodes[j]).key@ == n.next_key@
        &&& forall|j: int|
            0 <= j < nodes.len() ==> !(lex_lt(n.key@, (#[trigger] nodes[j]).key@) && lex_lt(
                nodes[j].key@,
                n.next_key@,
            ))
    }
}

/// The ordered linked-list invariant of the data model, over all members.
pub open spec fn spec_linked(nodes: Seq<IMTNode>) -> bool {
    forall|i: int| 0 <= i < nodes.len() ==> spec_node_linked(nodes, #[trigger] nodes[i])
}

pub struct Imt {
    /// The root the live tree currently commits to; contracts speak of it
    /// as `spec_root()`, and verified callers read it via `current_root`.
    pub root: [u8; 32],
    depth: u8,
    size: u64,
    nodes: Vec<IMTNode>,
    levels: Vec<Vec<[u8; 32]>>,
}

impl Imt {
    /// The root the live tree currently commits to, tied to the value the
    /// contracts speak of.
    pub fn current_root(&self) -> (r: [u8; 32])
        ensures
            r == self.spec_root(),
    {
        self.root
    }

    /// The number of members beyond the zero-key sentinel node.
    pub closed spec fn spec_size(self) -> u64 {
        self.size
    }

    pub closed spec fn spec_depth(self) -> u8 {
        self.depth
    }

    /// The root the live tree currently commits to, as seen by contracts.
    pub closed spec fn spec_root(self) -> [u8; 32] {
        self.root
    }

    /// The member nodes, positioned by index; the sentinel sits at zero.
    pub closed spec fn spec_nodes(self) -> Seq<IMTNode> {
        self.nodes@
    }

    /// The cached hash beside the path of the node at `index`, `j` levels
    /// above the leaves: the hash at the neighbouring position where the
    /// cache covers it, absent where no hash was computed there yet.
    pub closed spec fn spec_sibling_entry(self, index: u64, j: nat) -> Option<[u8; 32]> {
        let cur = spec_shr(index, j) as int;
        let sib = if cur % 2 == 0 {
            cur + 1
        } else {
            cur - 1
        };
        if 0 <= sib < self.levels@[j as int]@.len() {
            Some(self.levels@[j as int]@[sib])
        } else {
            None
        }
    }

    /// The per-level hash cache rows, leaf row first.
    pub closed spec fn spec_levels(self) -> Seq<Seq<[u8; 32]>> {
        Seq::new(self.levels@.len() as nat, |j: int| self.levels@[j]@)
    }

    /// The subtree hash the cache is meant to hold at level `j`, position
    /// `p`: the content hash of the leaf there at level zero; above, the
    /// combination of the children, the right one only where the occupied
    /// positions reach it. A function of the member list and the size
    /// alone.
    pub closed spec fn spec_level_hash(self, j: nat, p: int) -> Seq<u8>
        decreases j,
    {
        if j == 0 {
            spec_node_hash(self.nodes@[p])
        } else {
            let left = self.spec_level_hash((j - 1) as nat, 2 * p);
            if 2 * p + 1 <= spec_shr(self.size, (j - 1) as nat) {
                keccak256_of(left + self.spec_level_hash((j - 1) as nat, 2 * p + 1))
            } else {
                keccak256_of(left)
            }
        }
    }

    /// The bytes held in cache slot (j, p).
    pub closed spec fn spec_slot(self, j: int, p: int) -> Seq<u8> {
        ((self.levels@[j])@[p])@
    }

    /// Cache slot (j, p) holds the model's subtree hash.
    pub closed spec fn spec_slot_ok(self, j: int, p: int) -> bool {
        self.spec_slot(j, p) == self.spec_level_hash(j as nat, p)
    }

    /// Every occupied cache slot holds its subtree hash.
    pub closed spec fn spec_cache_ok(self) -> bool {
        forall|j: int, p: int|
            0 <= j <= self.depth && 0 <= p <= spec_shr(self.size, j as nat)
                ==> #[trigger] self.spec_slot_ok(j, p)
    }

    /// Every occupied cache slot off the path of leaf `idx` holds its
    /// subtree hash; the path itself may be stale.
    pub closed spec fn spec_cache_ok_except(self, idx: u64) -> bool {
        forall|j: int, p: int|
            0 <= j <= self.depth && 0 <= p <= spec_shr(self.size, j as nat) && p != spec_shr(
                idx,
                j as nat,
            ) ==> #[trigger] self.spec_slot_ok(j, p)
    }

    /// The root commits the model's top hash and the size.
    pub closed spec fn spec_root_ok(self) -> bool {
        self.root@ == keccak256_of(
            self.spec_level_hash(self.depth as nat, 0) + crate::bytes::spec_u64_be(self.size),
        )
    }

    /// The cached sibling path of the leaf at `idx`, as the fold reads it.
    pub closed spec fn spec_entries(self, idx: u64) -> Seq<Option<[u8; 32]>> {
        Seq::new(self.depth as nat, |j: int| self.spec_sibling_entry(idx, j as nat))
    }

    /// Structural well-formedness of the live tree: the node list is
    /// dense and indexed by position, starts at the zero-key sentinel,
    /// and the per-level hash cache covers exactly the occupied
    /// positions.
    pub closed spec fn wf(self) -> bool {
        &&& 1 <= self.depth <= 63
        &&& self.size < (1u64 << self.depth)
        &&& self.nodes@.len() == self.size + 1
        &&& forall|i: int| 0 <= i < self.nodes@.len() ==> (#[trigger] self.nodes@[i]).index == i
        &&& all_zero(self.nodes@[0].key@)
        &&& self.levels@.len() == self.depth + 1
        &&& forall|j: int|
            0 <= j <= self.depth ==> (#[trigger] self.levels@[j])@.len() == spec_shr(
                self.size,
                j as nat,
            ) + 1
    }

    /// Well-formedness of the live tree: the structure above, no two
    /// members sharing a key, and the ordered linked list of the data
    /// model — each member's next key names its successor, and the
    /// maximum member points at the zero sentinel.
    pub open spec fn inv(self) -> bool {
        &&& self.wf()
        &&& spec_keys_unique(self.spec_nodes())
        &&& spec_linked(self.spec_nodes())
        &&& self.spec_cache_ok()
        &&& self.spec_root_ok()
    }

    /// The two trees hold the same observable state: root, shape, members
    /// and hash cache.
    pub open spec fn spec_same_tree(self, other: Imt) -> bool {
        &&& self.spec_root() == other.spec_root()
        &&& self.spec_depth() == other.spec_depth()
        &&& self.spec_size() == other.spec_size()
        &&& self.spec_nodes() == other.spec_nodes()
        &&& self.spec_levels() == other.spec_levels()
    }

    /// Create an empty tree of the given depth, holding only the
    /// zero-key, zero-value sentinel node; the root is the canonical
    /// empty-tree root: the sentinel's hash folded up `depth` levels with
    /// no sibling anywhere, bound to size zero.
    pub fn new(depth: u8) -> (r: Imt)
        requires
            1 <= depth <= 63,
        ensures
            r.inv(),
            r.spec_size() == 0,
            r.spec_depth() == depth,
            r.spec_nodes().len() == 1,
            r.spec_nodes()[0].index == 0,
            all_zero(r.spec_nodes()[0].key@),
            all_zero(r.spec_nodes()[0].value_hash@),
            all_zero(r.spec_nodes()[0].next_key@),
            r.spec_root()@ == spec_imt_root(
                0,
                r.spec_nodes()[0],
                Seq::new(depth as nat, |i: int| None::<[u8; 32]>),
            ),
    {
        let init_node = IMTNode { index: 0, key: [0; 32], value_hash: [0; 32], next_key: [0; 32] };
        let mut nodes: Vec<IMTNode> = Vec::new();
        nodes.push(init_node);
        let mut levels: Vec<Vec<[u8; 32]>> = Vec::new();
        let mut j: usize = 0;
        while j < depth as usize + 1
            invariant
                j <= depth as usize + 1,
                levels@.len() == j,
                forall|k: int| 0 <= k < j ==> (#[trigger] levels@[k])@.len() == 1,
            decreases depth as usize + 1 - j,
        {
            let mut row: Vec<[u8; 32]> = Vec::new();
            row.push([0; 32]);
            levels.push(row);
            j += 1;
        }
        let mut imt = Imt { root: [0; 32], depth, size: 0, nodes, levels };
        proof {
            assert(1u64 << depth > 0) by (bit_vector)
                requires
                    depth <= 63,
            ;
            assert forall|k: int| 0 <= k <= imt.depth implies (#[trigger] imt.levels@[k])@.len()
                == spec_shr(imt.size, k as nat) + 1 by {
                lemma_shr_zero(k as nat);
            }
            assert(imt.wf());
        }
        let sibs = imt.refresh_tree(0);
        proof {
            // Every refreshed sibling entry is absent: the only occupied
            // position at each level is the sentinel's own path.
            assert forall|j: int| 0 <= j < sibs@.len() implies sibs@[j] == None::<[u8; 32]> by {
                lemma_shr_zero(j as nat);
                assert((imt.levels@[j])@.len() == spec_shr(0, j as nat) + 1);
            }
            assert(sibs@ =~= Seq::new(depth as nat, |i: int| None::<[u8; 32]>));
            // The single sentinel is its own maximum member.
            assert(spec_keys_unique(imt.spec_nodes()));
            assert forall|i: int| 0 <= i < imt.spec_nodes().len() implies spec_node_linked(
                imt.spec_nodes(),
                #[trigger] imt.spec_nodes()[i],
            ) by {
                assert(imt.spec_nodes()[0].key@ =~= imt.spec_nodes()[0].key@);
            }
            assert(imt.inv());
        }
        imt
    }

    /// Recompute the hash path of the node at `idx`, caching each level's
    /// hash, and set the tree's root; the returned sibling path is the one
    /// the root was computed along, so replaying the node against it
    /// reproduces the root. Called with every slot off the node's path
    /// coherent, it leaves the whole cache and the root coherent, and
    /// touches no off-path slot.
    fn refresh_tree(&mut self, idx: usize) -> (sibs: Vec<Option<[u8; 32]>>)
        requires
            old(self).wf(),
            idx < old(self).nodes@.len(),
            old(self).spec_cache_ok_except(idx as u64),
        ensures
            final(self).wf(),
            final(self).depth == old(self).depth,
            final(self).size == old(self).size,
            final(self).nodes == old(self).nodes,
            final(self).spec_size() == old(self).spec_size(),
            sibs@.len() == old(self).depth as nat,
            final(self).root@ == spec_imt_root(old(self).size, old(self).nodes@[idx as int], sibs@),
            forall|j: int|
                0 <= j < sibs@.len() ==> sibs@[j] == final(self).spec_sibling_entry(
                    old(self).nodes@[idx as int].index,
                    j as nat,
                ),
            final(self).spec_cache_ok(),
            final(self).spec_root_ok(),
            forall|j: int, p: int|
                0 <= j <= old(self).depth && 0 <= p < (old(self).levels@[j])@.len() && p
                    != spec_shr(idx as u64, j as nat) ==> (#[trigger] (final(self).levels@[j])@[p])
                    == (old(self).levels@[j])@[p],
    {
        let node = self.nodes[idx];
        let mut hash = node.hash();
        let depth = self.depth;
        self.levels[0][idx] = hash;
        let mut siblings: Vec<Option<[u8; 32]>> = Vec::new();
        let mut cur: u64 = node.index;
        let mut j: usize = 0;
        proof {
            assert(self.levels@.len() == old(self).levels@.len());
            assert(self.levels@[0]@.len() == old(self).levels@[0]@.len());
            assert(spec_fold_path(hash@, node.index, siblings@) == hash@);
            assert(spec_shr(idx as u64, 0) == idx as u64);
            assert(hash@ == old(self).spec_level_hash(0, idx as int));
        }
        while j < depth as usize
            invariant
                old(self).wf(),
                old(self).spec_cache_ok_except(idx as u64),
                idx < old(self).nodes@.len(),
                node == old(self).nodes@[idx as int],
                node.index == idx,
                depth == old(self).depth,
                self.depth == old(self).depth,
                self.size == old(self).size,
                self.nodes == old(self).nodes,
                self.root == old(self).root,
                self.levels@.len() == old(self).levels@.len(),
                forall|k: int|
                    0 <= k <= self.depth ==> (#[trigger] self.levels@[k])@.len() == (old(
                        self,
                    ).levels@[k])@.len(),
                j <= depth as usize,
                siblings@.len() == j,
                cur == spec_shr(node.index, j as nat),
                spec_fold_path(spec_node_hash(node), node.index, siblings@) == hash@,
                forall|k: int|
                    0 <= k < j ==> siblings@[k] == self.spec_sibling_entry(node.index, k as nat),
                hash@ == old(self).spec_level_hash(j as nat, spec_shr(idx as u64, j as nat) as int),
                forall|k: int, p: int|
                    0 <= k <= self.depth && 0 <= p < (self.levels@[k])@.len() && p != spec_shr(
                        idx as u64,
                        k as nat,
                    ) ==> (#[trigger] (self.levels@[k])@[p]) == (old(self).levels@[k])@[p],
                forall|k: int|
                    0 <= k <= j && k <= self.depth ==> #[trigger] self.spec_slot(
                        k,
                        spec_shr(idx as u64, k as nat) as int,
                    ) == old(self).spec_level_hash(k as nat, spec_shr(idx as u64, k as nat) as int),
            decreases depth as usize - j,
        {
            proof {
                lemma_shr_le(node.index, old(self).size, j as nat);
            }
            let sibling_index: u64 = if cur % 2 == 0 {
                cur + 1
            } else {
                cur - 1
            };
            let row_len = self.levels[j].len();
            let sib: Option<[u8; 32]> = if sibling_index < row_len as u64 {
                Some(self.levels[j][sibling_index as usize])
            } else {
                None
            };
            let ghost siblings_pre = siblings@;
            siblings.push(sib);
            proof {
                assert(sib == self.spec_sibling_entry(node.index, j as nat));
                assert(old(self).spec_sibling_entry(idx as u64, j as nat) == sib);
            }
            let mut preimage: Vec<u8> = Vec::new();
            match &sib {
                Some(s) => {
                    if cur % 2 == 0 {
                        extend_bytes(&mut preimage, &hash);
                        extend_bytes(&mut preimage, s);
                    } else {
                        extend_bytes(&mut preimage, s);
                        extend_bytes(&mut preimage, &hash);
                    }
                },
                None => {
                    extend_bytes(&mut preimage, &hash);
                },
            }
            let ghost hash_pre = hash@;
            hash = keccak256(preimage.as_slice());
            proof {
                assert(Seq::<u8>::empty() + hash_pre =~= hash_pre);
                assert(hash@ == spec_level_up(hash_pre, sib, cur));
                lemma_fold_path_push(spec_node_hash(node), node.index, siblings_pre, sib);
                lemma_level_up_model(*old(self), idx as u64, j as nat);
            }
            proof {
                lemma_shr_step(node.index, j as nat);
            }
            cur = cur / 2;
            j += 1;
            proof {
                assert(cur == spec_shr(node.index, j as nat));
                lemma_shr_le(node.index, old(self).size, j as nat);
                assert((self.levels@[j as int])@.len() == spec_shr(old(self).size, j as nat) + 1);
            }
            let ghost pre_self = *self;
            self.levels[j][cur as usize] = hash;
            proof {
                assert(self.spec_slot(j as int, cur as int) == hash@);
                assert forall|k: int| 0 <= k < j implies #[trigger] self.spec_slot(
                    k,
                    spec_shr(idx as u64, k as nat) as int,
                ) == old(self).spec_level_hash(
                    k as nat,
                    spec_shr(idx as u64, k as nat) as int,
                ) by {
                    assert(pre_self.spec_slot(k, spec_shr(idx as u64, k as nat) as int) == old(
                        self,
                    ).spec_level_hash(k as nat, spec_shr(idx as u64, k as nat) as int));
                    assert(self.levels@[k] == pre_self.levels@[k]);
                }
            }
        }
        let ghost walked = *self;
        let mut preimage: Vec<u8> = Vec::new();
        extend_bytes(&mut preimage, &hash);
        let size_bytes = u64_to_be_bytes(self.size);
        extend_vec(&mut preimage, &size_bytes);
        self.root = keccak256(preimage.as_slice());
        proof {
            let d = self.depth;
            assert(idx as u64 <= self.size && self.size < (1u64 << d));
            lemma_shr_below(idx as u64, d as u64);
            lemma_level_hash_same_leaves(*self, *old(self), d as nat, 0);
            assert(self.spec_root_ok());
            assert(self.levels@ == walked.levels@);
            assert forall|jj: int, p: int|
                0 <= jj <= self.depth && 0 <= p <= spec_shr(self.size, jj as nat) implies #[trigger] self.spec_slot_ok(jj, p) by {
                lemma_level_hash_same_leaves(*self, *old(self), jj as nat, p);
                if p == spec_shr(idx as u64, jj as nat) {
                    assert(walked.spec_slot(jj, p) == old(self).spec_level_hash(jj as nat, p));
                    assert(self.spec_slot(jj, p) == walked.spec_slot(jj, p));
                } else {
                    assert(old(self).spec_slot_ok(jj, p));
                    assert((self.levels@[jj])@[p] == (old(self).levels@[jj])@[p]);
                }
            }
            assert(self.spec_cache_ok());
        }
        siblings
    }

    /// The cached sibling path of the member with the given key, leaf to
    /// root, or `None` where no member has that key. Each entry is the
    /// cached hash beside the member's path at that level, absent where
    /// no hash has been computed there yet; with the cache coherent — as
    /// the tree invariant keeps it — the member folds to the current
    /// root along the returned path.
    pub fn siblings(&self, node_key: &[u8; 32]) -> (r: Option<Vec<Option<[u8; 32]>>>)
        requires
            self.wf(),
        ensures
            match r {
                Some(v) => exists|i: int|
                    {
                        &&& 0 <= i < self.spec_nodes().len()
                        &&& (#[trigger] self.spec_nodes()[i]).key@ == node_key@
                        &&& v@.len() == self.spec_depth() as nat
                        &&& forall|j: int|
                            0 <= j < v@.len() ==> v@[j] == self.spec_sibling_entry(
                                self.spec_nodes()[i].index,
                                j as nat,
                            )
                        &&& self.spec_cache_ok() && self.spec_root_ok()
                            ==> crate::imt::spec_node_exists(
                            self.spec_root(),
                            self.spec_size(),
                            self.spec_nodes()[i],
                            v@,
                        )
                    },
                None => forall|i: int|
                    0 <= i < self.spec_nodes().len() ==> (#[trigger] self.spec_nodes()[i]).key@
                        != node_key@,
            },
    {
        let idx = match self.find_node(node_key) {
            Some(i) => i,
            None => {
                return None;
            },
        };
        let node = self.nodes[idx];
        let depth = self.depth;
        let mut siblings: Vec<Option<[u8; 32]>> = Vec::new();
        let mut cur: u64 = node.index;
        let mut j: usize = 0;
        while j < depth as usize
            invariant
                self.wf(),
                depth == self.depth,
                j <= depth as usize,
                siblings@.len() == j,
                cur == spec_shr(node.index, j as nat),
                forall|k: int|
                    0 <= k < j ==> siblings@[k] == self.spec_sibling_entry(node.index, k as nat),
            decreases depth as usize - j,
        {
            let sibling_index: u64 = if cur % 2 == 0 {
                cur + 1
            } else {
                cur - 1
            };
            let row_len = self.levels[j].len();
            let sib: Option<[u8; 32]> = if sibling_index < row_len as u64 {
                Some(self.levels[j][sibling_index as usize])
            } else {
                None
            };
            siblings.push(sib);
            proof {
                assert(sib == self.spec_sibling_entry(node.index, j as nat));
                lemma_shr_step(node.index, j as nat);
            }
            cur = cur / 2;
            j += 1;
        }
        proof {
            assert(idx < self.spec_nodes().len() && self.spec_nodes()[idx as int].key@
                == node_key@ && self.spec_nodes()[idx as int].index == idx);
            assert(node == self.spec_nodes()[idx as int]);
            if self.spec_cache_ok() && self.spec_root_ok() {
                lemma_member_folds_to_root(*self, idx as u64);
                assert(siblings@ =~= self.spec_entries(idx as u64));
            }
        }
        Some(siblings)
    }

    /// Append a node at the next free position and widen the per-level
    /// hash cache to cover it; the new slots hold placeholder hashes until
    /// the node's path is refreshed.
    fn push_node(&mut self, node: IMTNode)
        requires
            old(self).wf(),
            old(self).size + 1 < (1u64 << old(self).depth),
            node.index == old(self).size + 1,
            old(self).spec_cache_ok(),
        ensures
            final(self).wf(),
            final(self).depth == old(self).depth,
            final(self).size == old(self).size + 1,
            final(self).root == old(self).root,
            final(self).nodes@ == old(self).nodes@.push(node),
            final(self).spec_cache_ok_except((old(self).size + 1) as u64),
    {
        self.size = self.size + 1;
        self.nodes.push(node);
        let depth = self.depth;
        let mut cur: u64 = self.size;
        let mut j: usize = 0;
        while j < depth as usize + 1
            invariant
                old(self).wf(),
                depth == old(self).depth,
                self.depth == old(self).depth,
                self.size == old(self).size + 1,
                self.root == old(self).root,
                self.nodes@ == old(self).nodes@.push(node),
                self.size < (1u64 << depth),
                self.levels@.len() == old(self).levels@.len(),
                j <= depth as usize + 1,
                cur == spec_shr(self.size, j as nat),
                forall|k: int|
                    0 <= k < j ==> (#[trigger] self.levels@[k])@.len() == spec_shr(
                        self.size,
                        k as nat,
                    ) + 1,
                forall|k: int|
                    j <= k <= depth ==> (#[trigger] self.levels@[k])@.len() == spec_shr(
                        old(self).size,
                        k as nat,
                    ) + 1,
                forall|k: int, p: int|
                    0 <= k <= depth && 0 <= p < (old(self).levels@[k])@.len() ==> (
                    #[trigger] (self.levels@[k])@[p]) == (old(self).levels@[k])@[p],
            decreases depth as usize + 1 - j,
        {
            proof {
                lemma_shr_succ(old(self).size, j as nat);
                lemma_shr_le(0, self.size, j as nat);
                lemma_shr_zero(j as nat);
                lemma_shr_le(cur, cur, 0);
                assert(spec_shr(self.size, j as nat) <= self.size) by {
                    lemma_shr_self_le(self.size, j as nat);
                }
                let d = depth;
                assert(1u64 << d <= 0x8000000000000000) by (bit_vector)
                    requires
                        d <= 63,
                ;
            }
            let row_len = self.levels[j].len();
            if (row_len as u64) < cur + 1 {
                self.levels[j].push([0; 32]);
            }
            proof {
                lemma_shr_step(self.size, j as nat);
            }
            cur = cur / 2;
            j += 1;
        }
        proof {
            let d = self.depth;
            assert(1u64 << d > 0) by (bit_vector)
                requires
                    d <= 63,
            ;
            assert(self.wf());
            let ghost grown = (old(self).size + 1) as u64;
            assert forall|jj: int, p: int|
                0 <= jj <= self.depth && 0 <= p <= spec_shr(self.size, jj as nat) && p
                    != spec_shr(grown, jj as nat) implies #[trigger] self.spec_slot_ok(jj, p) by {
                lemma_shr_succ(old(self).size, jj as nat);
                assert(p <= spec_shr(old(self).size, jj as nat));
                assert((self.levels@[jj])@[p] == (old(self).levels@[jj])@[p]);
                assert(old(self).spec_slot_ok(jj, p));
                lemma_level_hash_frame_grow(*old(self), *self, jj as nat, p);
            }
            assert(self.spec_cache_ok_except(grown));
        }
    }

    /// The position of the member with the given key, if any.
    fn find_node(&self, key: &[u8; 32]) -> (r: Option<usize>)
        ensures
            match r {
                Some(i) => i < self.nodes@.len() && self.nodes@[i as int].key@ == key@,
                None => forall|i: int|
                    0 <= i < self.nodes@.len() ==> (#[trigger] self.nodes@[i]).key@ != key@,
            },
    {
        let mut i: usize = 0;
        while i < self.nodes.len()
            invariant
                i <= self.nodes@.len(),
                forall|k: int| 0 <= k < i ==> (#[trigger] self.nodes@[k]).key@ != key@,
            decreases self.nodes@.len() - i,
        {
            if eq32(&self.nodes[i].key, key) {
                return Some(i);
            }
            i += 1;
        }
        None
    }
}

/// One combining step agrees with the model: folding the level-`j` model
/// hash of a leaf's ancestor with its cached sibling entry yields the
/// model hash of the parent, provided the off-path slots of level `j`
/// are coherent.
proof fn lemma_level_up_model(t: Imt, idx: u64, j: nat)
    requires
        t.wf(),
        idx <= t.spec_size(),
        (j as int) < t.spec_depth(),
        forall|p: int|
            0 <= p <= spec_shr(t.spec_size(), j) && p != spec_shr(idx, j)
                ==> #[trigger] t.spec_slot_ok(j as int, p),
    ensures
        spec_level_up(
            t.spec_level_hash(j, spec_shr(idx, j) as int),
            t.spec_sibling_entry(idx, j),
            spec_shr(idx, j),
        ) == t.spec_level_hash(j + 1, spec_shr(idx, j + 1) as int),
{
    let cur = spec_shr(idx, j) as int;
    let bound = spec_shr(t.spec_size(), j) as int;
    lemma_shr_le(idx, t.spec_size(), j);
    lemma_shr_step(idx, j);
    lemma_shr_step(t.spec_size(), j);
    let parent = spec_shr(idx, j + 1) as int;
    assert((t.spec_levels()[j as int]).len() == bound + 1);
    if cur % 2 == 0 {
        assert(2 * parent == cur);
        if cur + 1 <= bound {
            assert(t.spec_slot_ok(j as int, cur + 1));
            assert(t.spec_level_hash(j + 1, parent) == keccak256_of(
                t.spec_level_hash(j, cur) + t.spec_level_hash(j, cur + 1),
            ));
        } else {
            assert(t.spec_sibling_entry(idx, j) == None::<[u8; 32]>);
            assert(t.spec_level_hash(j + 1, parent) == keccak256_of(t.spec_level_hash(j, cur)));
        }
    } else {
        assert(2 * parent == cur - 1);
        assert(t.spec_slot_ok(j as int, cur - 1));
        assert(t.spec_level_hash(j + 1, parent) == keccak256_of(
            t.spec_level_hash(j, cur - 1) + t.spec_level_hash(j, cur),
        ));
    }
}

/// The fold of a member's content hash along its cached sibling entries
/// climbs the model: after `j` levels it equals the model hash of the
/// member's ancestor at that level.
proof fn lemma_fold_to_top(t: Imt, idx: u64, j: nat)
    requires
        t.wf(),
        t.spec_cache_ok(),
        idx <= t.spec_size(),
        j <= t.spec_depth(),
    ensures
        spec_fold_path(
            spec_node_hash(t.spec_nodes()[idx as int]),
            idx,
            t.spec_entries(idx).take(j as int),
        ) == t.spec_level_hash(j, spec_shr(idx, j) as int),
    decreases j,
{
    if j == 0 {
        assert(t.spec_entries(idx).take(0) =~= Seq::<Option<[u8; 32]>>::empty());
    } else {
        lemma_fold_to_top(t, idx, (j - 1) as nat);
        let e = t.spec_entries(idx);
        assert(e.take(j as int) =~= e.take(j as int - 1).push(
            t.spec_sibling_entry(idx, (j - 1) as nat),
        ));
        lemma_fold_path_push(
            spec_node_hash(t.spec_nodes()[idx as int]),
            idx,
            e.take(j as int - 1),
            t.spec_sibling_entry(idx, (j - 1) as nat),
        );
        lemma_level_up_model(t, idx, (j - 1) as nat);
    }
}

/// Every member folds to the committed root along its cached sibling
/// path: membership against the live root holds wherever the cache is
/// coherent.
proof fn lemma_member_folds_to_root(t: Imt, idx: u64)
    requires
        t.wf(),
        t.spec_cache_ok(),
        t.spec_root_ok(),
        idx <= t.spec_size(),
    ensures
        crate::imt::spec_node_exists(
            t.spec_root(),
            t.spec_size(),
            t.spec_nodes()[idx as int],
            t.spec_entries(idx),
        ),
{
    lemma_fold_to_top(t, idx, t.spec_depth() as nat);
    assert(t.spec_entries(idx).take(t.spec_depth() as int) =~= t.spec_entries(idx));
    let d = t.spec_depth();
    assert(idx < (1u64 << d));
    lemma_shr_below(idx, d as u64);
    assert(t.spec_nodes()[idx as int].index == idx);
}

/// A subtree hash depends on the member list and size alone, never on
/// the cache rows.
proof fn lemma_level_hash_same_leaves(t1: Imt, t2: Imt, j: nat, p: int)
    requires
        t1.spec_nodes() == t2.spec_nodes(),
        t1.spec_size() == t2.spec_size(),
    ensures
        t1.spec_level_hash(j, p) == t2.spec_level_hash(j, p),
    decreases j,
{
    if j > 0 {
        lemma_level_hash_same_leaves(t1, t2, (j - 1) as nat, 2 * p);
        lemma_level_hash_same_leaves(t1, t2, (j - 1) as nat, 2 * p + 1);
    }
}

/// Observably equal trees agree on cache coherence.
proof fn lemma_same_tree_cache(t1: Imt, t2: Imt)
    requires
        t1.spec_same_tree(t2),
        t2.wf(),
    ensures
        t1.spec_cache_ok() == t2.spec_cache_ok(),
        t1.spec_root_ok() == t2.spec_root_ok(),
{
    assert(t1.spec_levels().len() == t2.spec_levels().len());
    assert(t1.levels@.len() == t2.levels@.len());
    assert forall|j: int, p: int| 0 <= j <= t1.spec_depth() implies t1.spec_slot(j, p)
        == t2.spec_slot(j, p) && t1.spec_level_hash(j as nat, p) == t2.spec_level_hash(
        j as nat,
        p,
    ) by {
        assert(t1.spec_levels()[j] == (t1.levels@[j])@);
        assert(t2.spec_levels()[j] == (t2.levels@[j])@);
        lemma_level_hash_same_leaves(t1, t2, j as nat, p);
    }
    lemma_level_hash_same_leaves(t1, t2, t1.spec_depth() as nat, 0);
    assert forall|j: int, p: int|
        0 <= j <= t1.spec_depth() && 0 <= p <= spec_shr(t1.spec_size(), j as nat) implies #[trigger] t1.spec_slot_ok(j, p) == t2.spec_slot_ok(j, p) by {
        assert(t1.spec_slot(j, p) == t2.spec_slot(j, p));
    }
    if t1.spec_cache_ok() {
        assert forall|j: int, p: int|
            0 <= j <= t2.spec_depth() && 0 <= p <= spec_shr(t2.spec_size(), j as nat) implies #[trigger] t2.spec_slot_ok(j, p) by {
            assert(t1.spec_slot_ok(j, p));
        }
    }
    if t2.spec_cache_ok() {
        assert forall|j: int, p: int|
            0 <= j <= t1.spec_depth() && 0 <= p <= spec_shr(t1.spec_size(), j as nat) implies #[trigger] t1.spec_slot_ok(j, p) by {
            assert(t2.spec_slot_ok(j, p));
        }
    }
}

/// A subtree hash off a changed leaf's path does not depend on that leaf.
proof fn lemma_level_hash_frame_node(t1: Imt, t2: Imt, idx: u64, j: nat, p: int)
    requires
        t1.spec_size() == t2.spec_size(),
        t1.spec_nodes().len() == t2.spec_nodes().len(),
        t1.spec_nodes().len() == t1.spec_size() + 1,
        idx < t1.spec_nodes().len(),
        forall|k: int|
            0 <= k < t1.spec_nodes().len() && k != idx ==> t1.spec_nodes()[k]
                == t2.spec_nodes()[k],
        0 <= p <= spec_shr(t1.spec_size(), j),
        p != spec_shr(idx, j),
    ensures
        t1.spec_level_hash(j, p) == t2.spec_level_hash(j, p),
    decreases j,
{
    if j > 0 {
        lemma_shr_step(idx, (j - 1) as nat);
        lemma_shr_step(t1.spec_size(), (j - 1) as nat);
        assert(2 * p != spec_shr(idx, (j - 1) as nat) && 2 * p + 1 != spec_shr(
            idx,
            (j - 1) as nat,
        )) by {
            if 2 * p == spec_shr(idx, (j - 1) as nat) || 2 * p + 1 == spec_shr(
                idx,
                (j - 1) as nat,
            ) {
                assert(spec_shr(idx, (j - 1) as nat) / 2 == p);
            }
        }
        lemma_level_hash_frame_node(t1, t2, idx, (j - 1) as nat, 2 * p);
        if 2 * p + 1 <= spec_shr(t1.spec_size(), (j - 1) as nat) {
            lemma_level_hash_frame_node(t1, t2, idx, (j - 1) as nat, 2 * p + 1);
        }
    }
}

/// A subtree hash off the appended leaf's path does not depend on the
/// growth: the occupied positions it reads are the same before and after.
proof fn lemma_level_hash_frame_grow(t1: Imt, t2: Imt, j: nat, p: int)
    requires
        t2.spec_size() == t1.spec_size() + 1,
        t1.spec_nodes().len() == t1.spec_size() + 1,
        t2.spec_nodes().len() == t2.spec_size() + 1,
        forall|k: int|
            0 <= k < t1.spec_nodes().len() ==> #[trigger] t1.spec_nodes()[k]
                == t2.spec_nodes()[k],
        0 <= p <= spec_shr(t1.spec_size(), j),
        p != spec_shr(t2.spec_size(), j),
    ensures
        t1.spec_level_hash(j, p) == t2.spec_level_hash(j, p),
    decreases j,
{
    if j > 0 {
        lemma_shr_step(t1.spec_size(), (j - 1) as nat);
        lemma_shr_step(t2.spec_size(), (j - 1) as nat);
        lemma_shr_succ(t1.spec_size(), (j - 1) as nat);
        assert(2 * p != spec_shr(t2.spec_size(), (j - 1) as nat) && 2 * p + 1 != spec_shr(
            t2.spec_size(),
            (j - 1) as nat,
        )) by {
            if 2 * p == spec_shr(t2.spec_size(), (j - 1) as nat) || 2 * p + 1 == spec_shr(
                t2.spec_size(),
                (j - 1) as nat,
            ) {
                assert(spec_shr(t2.spec_size(), (j - 1) as nat) / 2 == p);
            }
        }
        // The right-child occupancy test agrees on both sides: the only
        // newly occupied position at the child level is the new leaf's
        // ancestor, which this subtree does not touch.
        assert((2 * p + 1 <= spec_shr(t1.spec_size(), (j - 1) as nat)) == (2 * p + 1 <= spec_shr(
            t2.spec_size(),
            (j - 1) as nat,
        )));
        lemma_level_hash_frame_grow(t1, t2, (j - 1) as nat, 2 * p);
        if 2 * p + 1 <= spec_shr(t1.spec_size(), (j - 1) as nat) {
            lemma_level_hash_frame_grow(t1, t2, (j - 1) as nat, 2 * p + 1);
        }
    }
}

/// Copy a row of the hash cache.
fn copy_row(row: &Vec<[u8; 32]>) -> (r: Vec<[u8; 32]>)
    ensures
        r@ == row@,
{
    let mut out: Vec<[u8; 32]> = Vec::new();
    let mut i: usize = 0;
    while i < row.len()
        invariant
            i <= row@.len(),
            out@ == row@.take(i as int),
        decreases row@.len() - i,
    {
        out.push(row[i]);
        proof {
            assert(row@.take(i as int).push(row@[i as int]) =~= row@.take(i as int + 1));
        }
        i += 1;
    }
    proof {
        assert(row@.take(row@.len() as int) =~= row@);
    }
    out
}

impl Imt {
    /// A scratch copy of the live tree, observably equal: mutations are
    /// staged on the copy and committed only once the resulting mutation
    /// replays, so a failed step leaves the original untouched.
    fn clone_tree(&self) -> (r: Imt)
        requires
            self.wf(),
        ensures
            r.wf(),
            r.spec_same_tree(*self),
    {
        let mut nodes: Vec<IMTNode> = Vec::new();
        let mut i: usize = 0;
        while i < self.nodes.len()
            invariant
                i <= self.nodes@.len(),
                nodes@ == self.nodes@.take(i as int),
            decreases self.nodes@.len() - i,
        {
            nodes.push(self.nodes[i]);
            proof {
                assert(self.nodes@.take(i as int).push(self.nodes@[i as int])
                    =~= self.nodes@.take(i as int + 1));
            }
            i += 1;
        }
        let mut levels: Vec<Vec<[u8; 32]>> = Vec::new();
        let mut j: usize = 0;
        while j < self.levels.len()
            invariant
                j <= self.levels@.len(),
                levels@.len() == j,
                forall|k: int| 0 <= k < j ==> (#[trigger] levels@[k])@ == (self.levels@[k])@,
            decreases self.levels@.len() - j,
        {
            let row = copy_row(&self.levels[j]);
            levels.push(row);
            j += 1;
        }
        let r = Imt { root: self.root, depth: self.depth, size: self.size, nodes, levels };
        proof {
            assert(r.nodes@ =~= self.nodes@);
            assert(r.spec_levels() =~= self.spec_levels());
            assert forall|k: int| 0 <= k <= r.depth implies (#[trigger] r.levels@[k])@.len()
                == spec_shr(r.size, k as nat) + 1 by {
                assert((r.levels@[k])@ == (self.levels@[k])@);
            }
            assert(r.wf());
        }
        r
    }
}

proof fn lemma_lex_irrefl(a: Seq<u8>)
    ensures
        !lex_lt(a, a),
    decreases a.len(),
{
    if a.len() > 0 {
        lemma_lex_irrefl(a.drop_first());
    }
}

proof fn lemma_lex_le_lt_trans(a: Seq<u8>, b: Seq<u8>, c: Seq<u8>)
    requires
        lex_le(a, b),
        lex_lt(b, c),
        a.len() == b.len(),
        b.len() == c.len(),
    ensures
        lex_lt(a, c),
{
    if lex_lt(a, b) {
        lemma_lex_trans(a, b, c);
    }
}

proof fn lemma_lex_none_below_zero(a: Seq<u8>, b: Seq<u8>)
    requires
        a.len() == b.len(),
        all_zero(b),
    ensures
        !lex_lt(a, b),
    decreases a.len(),
{
    if a.len() > 0 {
        assert(b[0] == 0);
        if a[0] == b[0] {
            assert(all_zero(b.drop_first())) by {
                assert(forall|i: int|
                    0 <= i < b.drop_first().len() ==> #[trigger] b.drop_first()[i] == b[i + 1]);
            }
            lemma_lex_none_below_zero(a.drop_first(), b.drop_first());
        }
    }
}

/// Linking a fresh key in after its low nullifier keeps the node list an
/// ordered linked list: the low nullifier now points at the fresh key,
/// which inherits the old successor key; every other member's window is
/// untouched.
proof fn lemma_insert_preserves_linked(
    nodes: Seq<IMTNode>,
    ln_i: int,
    key: [u8; 32],
    node: IMTNode,
    updated_ln: IMTNode,
)
    requires
        spec_keys_unique(nodes),
        spec_linked(nodes),
        0 <= ln_i < nodes.len(),
        lex_lt(nodes[ln_i].key@, key@),
        forall|j: int|
            0 <= j < nodes.len() && lex_lt((#[trigger] nodes[j]).key@, key@) ==> lex_le(
                nodes[j].key@,
                nodes[ln_i].key@,
            ),
        forall|j: int| 0 <= j < nodes.len() ==> (#[trigger] nodes[j]).key@ != key@,
        node.key == key,
        node.next_key == nodes[ln_i].next_key,
        updated_ln.key == nodes[ln_i].key,
        updated_ln.next_key == key,
    ensures
        nodes[ln_i].spec_is_ln_of(node),
        spec_keys_unique(nodes.update(ln_i, updated_ln).push(node)),
        spec_linked(nodes.update(ln_i, updated_ln).push(node)),
{
    let ln = nodes[ln_i];
    let post = nodes.update(ln_i, updated_ln).push(node);
    let n = nodes.len() as int;
    assert(post.len() == n + 1);
    assert(post[n] == node);
    assert(post[ln_i] == updated_ln);
    assert(forall|j: int| 0 <= j < n && j != ln_i ==> post[j] == nodes[j]);
    assert(forall|j: int| 0 <= j < n ==> (#[trigger] post[j]).key@ == nodes[j].key@);
    assert(spec_node_linked(nodes, nodes[ln_i]));
    lemma_lex_irrefl(ln.key@);
    lemma_lex_irrefl(key@);

    // The fresh key lies strictly inside the low nullifier's window.
    if !all_zero(ln.next_key@) {
        let js = choose|j: int| 0 <= j < n && (#[trigger] nodes[j]).key@ == ln.next_key@;
        if !lex_lt(key@, ln.next_key@) {
            lemma_lex_total(key@, ln.next_key@);
            assert(nodes[js].key@ != key@);
            assert(lex_lt(ln.next_key@, key@));
            assert(lex_le(nodes[js].key@, ln.key@));
            lemma_lex_le_lt_trans(nodes[js].key@, ln.key@, ln.next_key@);
            lemma_lex_irrefl(ln.next_key@);
            assert(false);
        }
    }
    assert(ln.spec_is_ln_of(node));

    // The fresh key is nonzero: something lies strictly below it.
    assert(!all_zero(key@)) by {
        if all_zero(key@) {
            lemma_lex_none_below_zero(ln.key@, key@);
        }
    }

    // Uniqueness: the old keys are kept and the fresh key is new.
    assert forall|i: int, j: int|
        0 <= i < post.len() && 0 <= j < post.len() && i != j implies (#[trigger] post[i]).key@ != (
    #[trigger] post[j]).key@ by {
        if i < n && j < n {
            assert(nodes[i].key@ != nodes[j].key@);
        } else if i == n && j < n {
            assert(nodes[j].key@ != key@);
        } else if j == n && i < n {
            assert(nodes[i].key@ != key@);
        }
    }

    // Every member of the grown list is properly linked.
    assert forall|mi: int| 0 <= mi < post.len() implies spec_node_linked(
        post,
        #[trigger] post[mi],
    ) by {
        if mi == n {
            // The new node inherits the old successor.
            if all_zero(node.next_key@) {
                assert forall|j: int| 0 <= j < post.len() implies lex_le(
                    (#[trigger] post[j]).key@,
                    node.key@,
                ) by {
                    if j < n {
                        assert(lex_le(nodes[j].key@, ln.key@));
                        lemma_lex_le_lt_trans(nodes[j].key@, ln.key@, key@);
                    }
                }
            } else {
                let js = choose|j: int| 0 <= j < n && (#[trigger] nodes[j]).key@ == ln.next_key@;
                assert(js != ln_i);
                assert(post[js].key@ == node.next_key@);
                assert(exists|j: int|
                    0 <= j < post.len() && (#[trigger] post[j]).key@ == node.next_key@);
                assert forall|j: int| 0 <= j < post.len() implies !(lex_lt(
                    node.key@,
                    (#[trigger] post[j]).key@,
                ) && lex_lt(post[j].key@, node.next_key@)) by {
                    if j < n {
                        if lex_lt(key@, post[j].key@) && lex_lt(post[j].key@, ln.next_key@) {
                            lemma_lex_trans(ln.key@, key@, nodes[j].key@);
                            assert(!(lex_lt(ln.key@, nodes[j].key@) && lex_lt(
                                nodes[j].key@,
                                ln.next_key@,
                            )));
                            assert(false);
                        }
                    }
                }
            }
        } else if mi == ln_i {
            // The low nullifier now points at the fresh key.
            assert(post[mi] == updated_ln);
            assert(!all_zero(updated_ln.next_key@));
            assert(lex_lt(updated_ln.key@, updated_ln.next_key@));
            assert(post[n].key@ == updated_ln.next_key@);
            assert(exists|j: int|
                0 <= j < post.len() && (#[trigger] post[j]).key@ == updated_ln.next_key@);
            assert forall|j: int| 0 <= j < post.len() implies !(lex_lt(
                updated_ln.key@,
                (#[trigger] post[j]).key@,
            ) && lex_lt(post[j].key@, updated_ln.next_key@)) by {
                if j < n {
                    if lex_lt(ln.key@, post[j].key@) && lex_lt(post[j].key@, key@) {
                        assert(lex_le(nodes[j].key@, ln.key@));
                        lemma_lex_le_lt_trans(nodes[j].key@, ln.key@, nodes[j].key@);
                        lemma_lex_irrefl(nodes[j].key@);
                        assert(false);
                    }
                }
            }
        } else {
            // An untouched member keeps its window: the fresh key lies in
            // the low nullifier's window, which is disjoint from this one.
            let x = nodes[mi];
            assert(post[mi] == x);
            assert(spec_node_linked(nodes, nodes[mi]));
            assert(x.key@ != key@);
            assert(x.key@ != ln.key@);
            if all_zero(x.next_key@) {
                assert(lex_le(ln.key@, x.key@));
                assert(lex_lt(key@, x.key@)) by {
                    lemma_lex_total(key@, x.key@);
                    if lex_lt(x.key@, key@) {
                        // Then x lies below the fresh key, so at or below
                        // the low nullifier — yet the low nullifier lies
                        // at or below the maximum x: both strict, absurd.
                        assert(lex_le(x.key@, ln.key@));
                        assert(lex_lt(x.key@, ln.key@));
                        lemma_lex_le_lt_trans(ln.key@, x.key@, ln.key@);
                        lemma_lex_irrefl(ln.key@);
                        assert(false);
                    }
                }
                assert forall|j: int| 0 <= j < post.len() implies lex_le(
                    (#[trigger] post[j]).key@,
                    x.key@,
                ) by {
                    if j < n {
                        assert(lex_le(nodes[j].key@, x.key@));
                    }
                }
            } else {
                let js = choose|j: int| 0 <= j < n && (#[trigger] nodes[j]).key@ == x.next_key@;
                assert(post[js].key@ == x.next_key@);
                assert(exists|j: int|
                    0 <= j < post.len() && (#[trigger] post[j]).key@ == x.next_key@);
                assert forall|j: int| 0 <= j < post.len() implies !(lex_lt(
                    x.key@,
                    (#[trigger] post[j]).key@,
                ) && lex_lt(post[j].key@, x.next_key@)) by {
                    if j < n {
                        assert(!(lex_lt(x.key@, nodes[j].key@) && lex_lt(
                            nodes[j].key@,
                            x.next_key@,
                        )));
                    } else {
                        if lex_lt(x.key@, key@) && lex_lt(key@, x.next_key@) {
                            assert(lex_le(x.key@, ln.key@));
                            assert(lex_lt(x.key@, ln.key@)) by {
                                if x.key@ == ln.key@ {
                                    assert(false);
                                }
                            }
                            lemma_lex_trans(ln.key@, key@, x.next_key@);
                            assert(!(lex_lt(x.key@, nodes[ln_i].key@) && lex_lt(
                                nodes[ln_i].key@,
                                x.next_key@,
                            )));
                            assert(false);
                        }
                    }
                }
            }
        }
    }
}

/// Replacing one member's value hash keeps the node list an ordered
/// linked list: keys and successor links are untouched.
proof fn lemma_value_update_preserves_linked(nodes: Seq<IMTNode>, i: int, updated: IMTNode)
    requires
        spec_keys_unique(nodes),
        spec_linked(nodes),
        0 <= i < nodes.len(),
        updated.key == nodes[i].key,
        updated.next_key == nodes[i].next_key,
    ensures
        spec_keys_unique(nodes.update(i, updated)),
        spec_linked(nodes.update(i, updated)),
{
    let post = nodes.update(i, updated);
    assert(forall|j: int| 0 <= j < post.len() ==> (#[trigger] post[j]).key@ == nodes[j].key@);
    assert(forall|j: int|
        0 <= j < post.len() ==> (#[trigger] post[j]).next_key@ == nodes[j].next_key@);
    assert forall|a: int, b: int|
        0 <= a < post.len() && 0 <= b < post.len() && a != b implies (#[trigger] post[a]).key@ != (
    #[trigger] post[b]).key@ by {
        assert(nodes[a].key@ != nodes[b].key@);
    }
    assert forall|mi: int| 0 <= mi < post.len() implies spec_node_linked(
        post,
        #[trigger] post[mi],
    ) by {
        assert(spec_node_linked(nodes, nodes[mi]));
        assert(post[mi].key@ == nodes[mi].key@ && post[mi].next_key@ == nodes[mi].next_key@);
        if all_zero(post[mi].next_key@) {
            assert forall|j: int| 0 <= j < post.len() implies lex_le(
                (#[trigger] post[j]).key@,
                post[mi].key@,
            ) by {
                assert(lex_le(nodes[j].key@, nodes[mi].key@));
            }
        } else {
            let js = choose|j: int|
                0 <= j < nodes.len() && (#[trigger] nodes[j]).key@ == nodes[mi].next_key@;
            assert(post[js].key@ == post[mi].next_key@);
            assert(exists|j: int|
                0 <= j < post.len() && (#[trigger] post[j]).key@ == post[mi].next_key@);
            assert forall|j: int| 0 <= j < post.len() implies !(lex_lt(
                post[mi].key@,
                (#[trigger] post[j]).key@,
            ) && lex_lt(post[j].key@, post[mi].next_key@)) by {
                assert(!(lex_lt(nodes[mi].key@, nodes[j].key@) && lex_lt(
                    nodes[j].key@,
                    nodes[mi].next_key@,
                )));
            }
        }
    }
}

/// The shape of a completed insertion: the member at `ln_i` — the low
/// nullifier of the fresh key — now points at it, and the new node sits
/// at the next position, inheriting the old successor key.
pub open spec fn spec_inserted(
    pre: Imt,
    post: Imt,
    ln_i: int,
    key: [u8; 32],
    value_hash: [u8; 32],
    m: IMTMutate,
) -> bool {
    let ln_old = pre.spec_nodes()[ln_i];
    let updated_ln = IMTNode { next_key: key, ..ln_old };
    let node = IMTNode {
        index: (pre.spec_size() + 1) as u64,
        key,
        value_hash,
        next_key: ln_old.next_key,
    };
    &&& 0 <= ln_i < pre.spec_nodes().len()
    &&& ln_old.spec_is_ln_of(node)
    &&& post.spec_nodes() == pre.spec_nodes().update(ln_i, updated_ln).push(node)
    &&& (m matches IMTMutate::Insert(ins) && ins.ln_node == ln_old && ins.node == node)
}

/// The shape of a completed update: only the member at `i`, the holder of
/// the key, has its value hash replaced.
pub open spec fn spec_value_updated(
    pre: Imt,
    post: Imt,
    i: int,
    key: [u8; 32],
    value_hash: [u8; 32],
    m: IMTMutate,
) -> bool {
    let node_old = pre.spec_nodes()[i];
    let node_new = IMTNode { value_hash, ..node_old };
    &&& 0 <= i < pre.spec_nodes().len()
    &&& node_old.key@ == key@
    &&& post.spec_nodes() == pre.spec_nodes().update(i, node_new)
    &&& (m matches IMTMutate::Update(upd) && upd.node == node_old)
}

impl Imt {
    /// Insert a fresh key with its value hash, and return the
    /// self-describing insertion that replays the live tree's step: the
    /// returned mutation, applied to the root the tree had before the
    /// call, reproduces exactly the root it reports after it. A full tree
    /// or a key already present is refused. The step is staged on a
    /// scratch copy, re-checked by replaying the mutation, and committed
    /// only then; on every `None` the tree is unchanged, and `Some` is
    /// owed exactly on a fresh key in a non-full tree: the cache
    /// invariant proves every member folds to the live root, so the
    /// replayed mutation always checks out.
    pub fn insert_node(&mut self, key: [u8; 32], value_hash: [u8; 32]) -> (r: Option<IMTMutate>)
        requires
            old(self).inv(),
        ensures
            final(self).inv(),
            final(self).spec_depth() == old(self).spec_depth(),
            r is None <==> (old(self).spec_size() == (1u64 << old(self).spec_depth()) - 1
                || exists|i: int|
                0 <= i < old(self).spec_nodes().len()
                    && (#[trigger] old(self).spec_nodes()[i]).key@ == key@),
            match r {
                Some(m) => {
                    &&& old(self).spec_size() < (1u64 << old(self).spec_depth()) - 1
                    &&& forall|i: int|
                        0 <= i < old(self).spec_nodes().len()
                            ==> (#[trigger] old(self).spec_nodes()[i]).key@ != key@
                    &&& final(self).spec_size() == old(self).spec_size() + 1
                    &&& spec_mutate_wf(m)
                    &&& spec_mutate_apply(m, old(self).spec_root()@) == Ok::<Seq<u8>, BatchError>(
                        final(self).spec_root()@,
                    )
                    &&& m matches IMTMutate::Insert(ins)
                    &&& m->Insert_0.node.key == key
                    &&& m->Insert_0.node.value_hash == value_hash
                    &&& m->Insert_0.old_root == old(self).spec_root()
                    &&& m->Insert_0.old_size == old(self).spec_size()
                    &&& exists|ln_i: int|
                        spec_inserted(*old(self), *final(self), ln_i, key, value_hash, m)
                },
                None => final(self).spec_same_tree(*old(self)),
            },
    {
        let max_size = (1u64 << self.depth) - 1;
        if self.size == max_size {
            return None;
        }
        if let Some(_) = self.find_node(&key) {
            return None;
        }
        let old_root = self.root;
        let old_size = self.size;

        let ln_node = self.low_nullifier(&key);
        let ghost k = choose|k: int|
            0 <= k < self.spec_nodes().len() && ln_node == self.spec_nodes()[k];
        let ln_idx = ln_node.index as usize;
        proof {
            assert(!all_zero(key@)) by {
                if all_zero(key@) {
                    assert(self.spec_nodes()[0].key@ != key@);
                    assert(self.spec_nodes()[0].key@ =~= key@);
                }
            }
            assert(ln_node == self.spec_nodes()[k]);
            assert(self.spec_nodes()[k].index == k);
            assert(ln_node.index == k);
            assert(vstd::std_specs::vec::spec_vec_len(&self.nodes) == self.nodes@.len());
            assert(self.nodes@.len() <= usize::MAX);
            assert(ln_idx == k);
            assert(ln_idx < self.nodes@.len());
        }
        let ln_siblings = match self.siblings(&ln_node.key) {
            Some(v) => v,
            None => {
                proof {
                    assert(self.spec_nodes()[ln_idx as int].key@ == ln_node.key@);
                    assert(false);
                }
                return None;
            },
        };
        proof {
            // The returned path is the low nullifier's cached one, and the
            // cache invariant folds it to the live root.
            let si = choose|i: int|
                {
                    &&& 0 <= i < self.spec_nodes().len()
                    &&& (#[trigger] self.spec_nodes()[i]).key@ == ln_node.key@
                    &&& ln_siblings@.len() == self.spec_depth() as nat
                    &&& forall|j: int|
                        0 <= j < ln_siblings@.len() ==> ln_siblings@[j] == self.spec_sibling_entry(
                            self.spec_nodes()[i].index,
                            j as nat,
                        )
                };
            assert(self.spec_nodes()[si].key@ == ln_node.key@);
            assert(self.spec_nodes()[ln_idx as int].key@ == ln_node.key@);
            if si != ln_idx as int {
                assert(self.spec_nodes()[si].key@ != self.spec_nodes()[ln_idx as int].key@);
            }
            assert(si == ln_idx);
            assert(ln_siblings@ =~= self.spec_entries(ln_idx as u64));
            lemma_member_folds_to_root(*self, ln_idx as u64);
            let d = self.depth;
            assert(1u64 << d >= 1) by (bit_vector)
                requires
                    d <= 63,
            ;
        }
        let node = IMTNode { index: old_size + 1, key, value_hash, next_key: ln_node.next_key };

        // Stage the step on a scratch copy: the low nullifier's successor
        // link and path first — the new node's slots must not exist yet
        // while that path is recomputed — then the new node itself.
        let mut work = self.clone_tree();
        proof {
            lemma_same_tree_cache(work, *self);
        }
        let ghost work0 = work;
        let mut updated_ln = work.nodes[ln_idx];
        updated_ln.next_key = key;
        work.nodes[ln_idx] = updated_ln;
        proof {
            // Only the low nullifier's own path went stale.
            assert forall|jj: int, p: int|
                0 <= jj <= work.spec_depth() && 0 <= p <= spec_shr(work.spec_size(), jj as nat)
                    && p != spec_shr(ln_idx as u64, jj as nat) implies #[trigger] work.spec_slot_ok(
                jj,
                p,
            ) by {
                assert(work0.spec_slot_ok(jj, p));
                assert(work.spec_slot(jj, p) == work0.spec_slot(jj, p));
                lemma_level_hash_frame_node(work0, work, ln_idx as u64, jj as nat, p);
            }
            assert(work.spec_cache_ok_except(ln_idx as u64));
        }
        let _ = work.refresh_tree(ln_idx);

        work.push_node(node);
        let node_idx = work.nodes.len() - 1;
        let node_siblings = work.refresh_tree(node_idx);

        proof {
            lemma_insert_preserves_linked(
                old(self).spec_nodes(),
                ln_idx as int,
                key,
                node,
                updated_ln,
            );
            assert(work.spec_nodes() == old(self).spec_nodes().update(
                ln_idx as int,
                updated_ln,
            ).push(node));
            assert(work.inv());
        }
        let updated_ln_siblings = match work.siblings(&ln_node.key) {
            Some(v) => v,
            None => {
                proof {
                    assert(work.spec_nodes()[ln_idx as int].key@ == ln_node.key@);
                    assert(false);
                }
                return None;
            },
        };
        let mutation = IMTMutate::insert(
            old_root,
            old_size,
            ln_node,
            ln_siblings,
            node,
            node_siblings,
            updated_ln_siblings,
        );
        proof {
            // The updated low nullifier's fresh path also folds to the
            // new root, so the insertion's two root views agree.
            let wi = choose|i: int|
                {
                    &&& 0 <= i < work.spec_nodes().len()
                    &&& (#[trigger] work.spec_nodes()[i]).key@ == ln_node.key@
                    &&& updated_ln_siblings@.len() == work.spec_depth() as nat
                    &&& forall|j: int|
                        0 <= j < updated_ln_siblings@.len() ==> updated_ln_siblings@[j]
                            == work.spec_sibling_entry(work.spec_nodes()[i].index, j as nat)
                };
            assert(work.spec_nodes()[wi].key@ == ln_node.key@);
            assert(work.spec_nodes()[ln_idx as int].key@ == ln_node.key@);
            if wi != ln_idx as int {
                assert(work.spec_nodes()[wi].key@ != work.spec_nodes()[ln_idx as int].key@);
            }
            assert(wi == ln_idx);
            assert(updated_ln_siblings@ =~= work.spec_entries(ln_idx as u64));
            lemma_member_folds_to_root(work, ln_idx as u64);
            assert(work.spec_nodes()[node_idx as int] == node);
            assert(spec_insert_apply(mutation->Insert_0, old_root@) == Ok::<Seq<u8>, BatchError>(
                work.spec_root()@,
            ));
        }
        match mutation.apply(old_root) {
            Ok(new_root) => {
                if eq32(&new_root, &work.root) {
                    *self = work;
                    proof {
                        assert(spec_inserted(*old(self), *self, ln_idx as int, key, value_hash, mutation));
                    }
                    Some(mutation)
                } else {
                    proof {
                        assert(false);
                    }
                    None
                }
            },
            Err(_) => {
                proof {
                    assert(false);
                }
                None
            },
        }
    }

    /// Update the value hash of a present key, and return the
    /// self-describing update that replays the live tree's step, staged
    /// and re-checked the same way as an insertion; an absent key is
    /// refused, and on every `None` the tree is unchanged; `Some` is owed
    /// exactly on a present key, since the cache invariant proves the
    /// member folds to the live root.
    pub fn update_node(&mut self, key: [u8; 32], value_hash: [u8; 32]) -> (r: Option<IMTMutate>)
        requires
            old(self).inv(),
        ensures
            final(self).inv(),
            final(self).spec_depth() == old(self).spec_depth(),
            r is Some <==> exists|i: int|
                0 <= i < old(self).spec_nodes().len()
                    && (#[trigger] old(self).spec_nodes()[i]).key@ == key@,
            match r {
                Some(m) => {
                    &&& final(self).spec_size() == old(self).spec_size()
                    &&& spec_mutate_wf(m)
                    &&& spec_mutate_apply(m, old(self).spec_root()@) == Ok::<Seq<u8>, BatchError>(
                        final(self).spec_root()@,
                    )
                    &&& m matches IMTMutate::Update(upd)
                    &&& m->Update_0.node.key == key
                    &&& m->Update_0.new_value_hash == value_hash
                    &&& m->Update_0.old_root == old(self).spec_root()
                    &&& m->Update_0.size == old(self).spec_size()
                    &&& exists|i: int|
                        spec_value_updated(*old(self), *final(self), i, key, value_hash, m)
                },
                None => final(self).spec_same_tree(*old(self)),
            },
    {
        let idx = match self.find_node(&key) {
            Some(i) => i,
            None => {
                return None;
            },
        };
        let old_root = self.root;
        let size = self.size;

        proof {
            // The member folds to the live root along its cached path.
            lemma_member_folds_to_root(*self, idx as u64);
        }
        // Stage the step on a scratch copy. The mutation carries the node
        // as it was before the update: its membership is what the replay
        // checks against the old root.
        let mut work = self.clone_tree();
        proof {
            lemma_same_tree_cache(work, *self);
        }
        let ghost work0 = work;
        let node = work.nodes[idx];
        let mut updated = node;
        updated.value_hash = value_hash;
        work.nodes[idx] = updated;
        proof {
            assert forall|jj: int, p: int|
                0 <= jj <= work.spec_depth() && 0 <= p <= spec_shr(work.spec_size(), jj as nat)
                    && p != spec_shr(idx as u64, jj as nat) implies #[trigger] work.spec_slot_ok(
                jj,
                p,
            ) by {
                assert(work0.spec_slot_ok(jj, p));
                assert(work.spec_slot(jj, p) == work0.spec_slot(jj, p));
                lemma_level_hash_frame_node(work0, work, idx as u64, jj as nat, p);
            }
            assert(work.spec_cache_ok_except(idx as u64));
        }
        let ghost work1 = work;
        let node_siblings = work.refresh_tree(idx);

        let mutation = IMTMutate::update(old_root, size, node, node_siblings, value_hash);
        proof {
            lemma_value_update_preserves_linked(old(self).spec_nodes(), idx as int, updated);
            assert(work.spec_nodes() == old(self).spec_nodes().update(idx as int, updated));
            assert(work.inv());
            // The returned path equals the member's pre-update cached
            // path: the refresh touches only the member's own slots, the
            // value write touched none, and the scratch copy none.
            assert forall|j: int| 0 <= j < node_siblings@.len() implies node_siblings@[j] == old(
                self,
            ).spec_sibling_entry(idx as u64, j as nat) by {
                assert(node_siblings@[j] == work.spec_sibling_entry(idx as u64, j as nat));
                let cur = spec_shr(idx as u64, j as nat) as int;
                let sibp = if cur % 2 == 0 {
                    cur + 1
                } else {
                    cur - 1
                };
                assert((work.levels@[j])@.len() == (work1.levels@[j])@.len());
                assert((work1.levels@[j])@.len() == (old(self).levels@[j])@.len());
                if 0 <= sibp < (work.levels@[j])@.len() {
                    assert((work.levels@[j])@[sibp] == (work1.levels@[j])@[sibp]);
                    assert((work1.levels@[j])@[sibp] == (work0.levels@[j])@[sibp]);
                    assert(work0.spec_levels()[j] == (work0.levels@[j])@);
                    assert(old(self).spec_levels()[j] == (old(self).levels@[j])@);
                    assert((work0.levels@[j])@[sibp] == (old(self).levels@[j])@[sibp]);
                }
            }
            assert(node_siblings@ =~= old(self).spec_entries(idx as u64));
            assert(crate::imt::update::spec_update_apply(mutation->Update_0, old_root@) == Ok::<
                Seq<u8>,
                BatchError,
            >(work.spec_root()@));
        }
        match mutation.apply(old_root) {
            Ok(new_root) => {
                if eq32(&new_root, &work.root) {
                    *self = work;
                    proof {
                        assert(spec_value_updated(*old(self), *self, idx as int, key, value_hash, mutation));
                    }
                    Some(mutation)
                } else {
                    proof {
                        assert(false);
                    }
                    None
                }
            },
            Err(_) => {
                proof {
                    assert(false);
                }
                None
            },
        }
    }
}

/// `a` is lexicographically at most `b`.
pub open spec fn lex_le(a: Seq<u8>, b: Seq<u8>) -> bool {
    lex_lt(a, b) || a == b
}

proof fn lemma_lex_total(a: Seq<u8>, b: Seq<u8>)
    requires
        a.len() == b.len(),
    ensures
        lex_lt(a, b) || lex_lt(b, a) || a == b,
    decreases a.len(),
{
    if a.len() > 0 {
        if a[0] == b[0] {
            lemma_lex_total(a.drop_first(), b.drop_first());
            if a.drop_first() == b.drop_first() {
                assert forall|i: int| 0 <= i < a.len() implies a[i] == b[i] by {
                    if i > 0 {
                        assert(a.drop_first()[i - 1] == b.drop_first()[i - 1]);
                    }
                }
                assert(a =~= b);
            }
        }
    } else {
        assert(a =~= b);
    }
}

proof fn lemma_lex_trans(a: Seq<u8>, b: Seq<u8>, c: Seq<u8>)
    requires
        lex_lt(a, b),
        lex_lt(b, c),
        a.len() == b.len(),
        b.len() == c.len(),
    ensures
        lex_lt(a, c),
    decreases a.len(),
{
    if a.len() > 0 && b.len() > 0 && c.len() > 0 {
        if a[0] == b[0] && b[0] == c[0] {
            lemma_lex_trans(a.drop_first(), b.drop_first(), c.drop_first());
        }
    }
}

proof fn lemma_lex_zero_min(a: Seq<u8>, b: Seq<u8>)
    requires
        a.len() == b.len(),
        all_zero(a),
        !all_zero(b),
    ensures
        lex_lt(a, b),
    decreases a.len(),
{
    if a.len() > 0 {
        if b[0] == 0 {
            assert(!all_zero(b.drop_first())) by {
                assert(exists|i: int| 0 <= i < b.len() && b[i] != 0);
                let i = choose|i: int| 0 <= i < b.len() && b[i] != 0;
                assert(b.drop_first()[i - 1] != 0);
            }
            lemma_lex_zero_min(a.drop_first(), b.drop_first());
        }
    }
}

impl Imt {
    /// The member with the greatest key strictly below the given key,
    /// found by one linear scan over all members.
    /// Where no member's key lies below the given one (the key is the
    /// zero sentinel), the sentinel node itself comes back.
    pub fn low_nullifier(&self, node_key: &[u8; 32]) -> (r: IMTNode)
        requires
            self.wf(),
        ensures
            exists|i: int| 0 <= i < self.spec_nodes().len() && r == self.spec_nodes()[i],
            forall|i: int|
                0 <= i < self.spec_nodes().len() && lex_lt(
                    (#[trigger] self.spec_nodes()[i]).key@,
                    node_key@,
                ) ==> lex_le(self.spec_nodes()[i].key@, r.key@),
            !all_zero(node_key@) ==> lex_lt(r.key@, node_key@),
    {
        let mut best = self.nodes[0];
        let mut i: usize = 1;
        proof {
            if !all_zero(node_key@) {
                lemma_lex_zero_min(best.key@, node_key@);
            }
        }
        while i < self.nodes.len()
            invariant
                self.wf(),
                1 <= i <= self.nodes@.len(),
                exists|k: int| 0 <= k < self.nodes@.len() && best == self.nodes@[k],
                forall|k: int|
                    0 <= k < i && lex_lt((#[trigger] self.nodes@[k]).key@, node_key@) ==> lex_le(
                        self.nodes@[k].key@,
                        best.key@,
                    ),
                lex_lt(best.key@, node_key@) || best == self.nodes@[0],
            decreases self.nodes@.len() - i,
        {
            let candidate = &self.nodes[i];
            let ghost best_pre = best;
            if lt32(&candidate.key, node_key) && lt32(&best.key, &candidate.key) {
                best = *candidate;
                proof {
                    assert forall|k: int|
                        0 <= k < i + 1 && lex_lt(
                            (#[trigger] self.nodes@[k]).key@,
                            node_key@,
                        ) implies lex_le(self.nodes@[k].key@, best.key@) by {
                        if k < i {
                            if lex_lt(self.nodes@[k].key@, best_pre.key@) {
                                lemma_lex_trans(self.nodes@[k].key@, best_pre.key@, best.key@);
                            }
                        }
                    }
                }
            } else {
                proof {
                    if lex_lt(candidate.key@, node_key@) {
                        lemma_lex_total(best.key@, candidate.key@);
                    }
                }
            }
            i += 1;
        }
        proof {
            if !all_zero(node_key@) {
                if best == self.nodes@[0] {
                    lemma_lex_zero_min(best.key@, node_key@);
                }
            }
            let k = choose|k: int| 0 <= k < self.nodes@.len() && best == self.nodes@[k];
            assert(0 <= k < self.spec_nodes().len() && best == self.spec_nodes()[k]);
        }
        best
    }
}

} // verus!
