//! The production batch program: transactions carry their own hash-chain
//! link and one of two record-proof kinds, and the program folds the list
//! into a final root and a final transaction hash, both checked against
//! the declared public inputs.
use vstd::prelude::*;

pub mod inputs;
pub mod program;
pub mod proofs;
pub mod tx;

use crate::imt::mutate::IMTMutate;

verus! {

/// The three keyspace keys a mutation exposes to its record proof: the
/// keyspace id, the current key being superseded, and the new key. For an
/// insertion the id is also the current key (the record is being
/// created); for an update the current key is the node's value hash.
pub open spec fn spec_mutate_keys(m: IMTMutate) -> (Seq<u8>, Seq<u8>, Seq<u8>) {
    match m {
        IMTMutate::Insert(ins) => (ins.node.key@, ins.node.key@, ins.node.value_hash@),
        IMTMutate::Update(upd) => (upd.node.key@, upd.node.value_hash@, upd.new_value_hash@),
    }
}

/// The 96-byte public-inputs preimage of a record proof: keyspace id,
/// current key and new key, in that order.
pub open spec fn spec_pub_inputs(m: IMTMutate) -> Seq<u8> {
    spec_mutate_keys(m).0 + spec_mutate_keys(m).1 + spec_mutate_keys(m).2
}

/// Collect the three keys of a mutation as owned 32-byte strings.
pub fn mutate_keys(m: &IMTMutate) -> (r: ([u8; 32], [u8; 32], [u8; 32]))
    ensures
        r.0@ == spec_mutate_keys(*m).0,
        r.1@ == spec_mutate_keys(*m).1,
        r.2@ == spec_mutate_keys(*m).2,
{
    match m {
        IMTMutate::Insert(ins) => (ins.node.key, ins.node.key, ins.node.value_hash),
        IMTMutate::Update(upd) => (upd.node.key, upd.node.value_hash, upd.new_value_hash),
    }
}

} // verus!
