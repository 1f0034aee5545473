//! The inputs of the ECDSA record program: the keyspace id, the current
//! and new keys as public inputs, and the signature and verifier-key hash
//! as private inputs.
use vstd::prelude::*;

use super::k_signature::KSignature;

verus! {

pub struct Inputs {
    /// Public input: the keyspace id.
    pub keyspace_id: [u8; 32],
    /// Public input: the keyspace current key.
    pub current_key: [u8; 32],
    /// Public input: the keyspace new key.
    pub new_key: [u8; 32],
    /// Private input: the signature over the hash of keyspace id and new
    /// key.
    pub sig: KSignature,
    /// Private input: the verifier key hash.
    pub vk_hash: [u8; 32],
}

} // verus!
