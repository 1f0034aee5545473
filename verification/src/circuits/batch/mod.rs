//! The batch program over record-proof-bound mutations: each transaction
//! couples one tree mutation with the record proof that authorizes it,
//! and the program folds the transaction list into a final root.
pub mod account_proof;
pub mod inputs;
pub mod program;
pub mod record_proof;
pub mod tx;
