//! The ECDSA record program: one signature over the update message proves
//! control of the record's current key.
pub mod inputs;
pub mod k_signature;
pub mod program;
