//! The inputs of the data-blob ECDSA record program.
use vstd::prelude::*;

use super::current_data::CurrentData;
use crate::ecdsa_record::k_signature::KSignature;

verus! {

pub struct Inputs {
    /// Public input: the record's data blob; the public key's x and y
    /// coordinates are its first 64 bytes.
    pub current_data: CurrentData,
    /// Public input: the new keyspace key (32 bytes).
    pub new_key: [u8; 32],
    /// Private input: the signature of the new key.
    pub sig: KSignature,
}

impl Inputs {
    /// The owner public key: the first 64 bytes of the data blob.
    pub fn public_key(&self) -> (r: &[u8])
        ensures
            r@ == self.current_data.0@.take(64),
    {
        let r = vstd::slice::slice_subrange(self.current_data.0.as_slice(), 0, 64);
        proof {
            assert(self.current_data.0@.subrange(0, 64) =~= self.current_data.0@.take(64));
        }
        r
    }
}

} // verus!
