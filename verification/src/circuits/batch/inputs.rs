//! The inputs of the batch program: the public root to start from, the
//! declared root after the batch, and the private transaction list.
use vstd::prelude::*;

use super::tx::Tx;

verus! {

pub struct Inputs {
    /// Public input: the keyspace root to start from (32 bytes).
    pub old_root: [u8; 32],
    /// Public input: the expected keyspace root after applying the list
    /// of transactions (32 bytes).
    pub new_root: [u8; 32],
    /// Private input: the list of keyspace transactions to process.
    pub txs: Vec<Tx>,
}

} // verus!
