//! The in-circuit programs: each one reads plain inputs, enforces its
//! checks, and states what it commits to. The batch program folds
//! proof-bound mutations; the record programs check signature or
//! multi-signature authority over a record; the aggregator and account
//! programs prepare recursive verification of another program's proof.
pub mod aggregator;
pub mod batch;
pub mod ecdsa_account;
pub mod ecdsa_record;
pub mod multisig_record;
