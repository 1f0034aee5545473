//! The inputs of the batch program: the public root to start from, the
//! declared root and transaction hash after the batch, and the private
//! transaction list.
use vstd::prelude::*;

use super::tx::Tx;

verus! {

pub struct Inputs {
    /// Public input: the keyspace root to start from.
    pub old_root: [u8; 32],
    /// Public input: the expected keyspace root after applying the list
    /// of transactions.
    pub new_root: [u8; 32],
    /// Public input: the expected new transaction hash.
    pub new_tx_hash: [u8; 32],
    /// Private input: the list of transactions to process.
    pub txs: Vec<Tx>,
}

} // verus!
