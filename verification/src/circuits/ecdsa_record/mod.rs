//! The data-blob ECDSA record program: the owner public key sits in the
//! first 64 bytes of the record's data blob, and one signature over the
//! new key must recover exactly that key.
pub mod current_data;
pub mod inputs;
pub mod k_public_key;
pub mod program;
