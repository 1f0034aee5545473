//! The multisig record program: a threshold of distinct owners, encoded
//! in the record's data blob, must sign the new key.
pub mod inputs;
pub mod k_signature;
pub mod program;
