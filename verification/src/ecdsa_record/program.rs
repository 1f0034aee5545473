//! The ECDSA record program: recover the signer of the update message,
//! derive the keyspace key the signer controls, and check it against the
//! declared current key.
use vstd::prelude::*;

use super::inputs::Inputs;
use crate::bytes::{eq32, extend_bytes};
use crate::crypto::{ecrecover_of, keccak256, keccak256_of};
use crate::errors::RecordError;
use crate::keyspace_key_from_storage;

verus! {

/// The message a record update is signed over: the hash of the keyspace
/// id and the new key.
pub open spec fn spec_update_msg(inputs: Inputs) -> Seq<u8> {
    keccak256_of(inputs.keyspace_id@ + inputs.new_key@)
}

/// What the program checks: a key must be recoverable from the signature
/// over the update message, and the keyspace key derived from the
/// verifier-key hash and the recovered key must equal the declared
/// current key.
pub open spec fn spec_record_check(inputs: Inputs) -> Result<(), RecordError> {
    match ecrecover_of(inputs.sig.sig@, inputs.sig.recid, spec_update_msg(inputs)) {
        None => Err(RecordError::RecoveryFailed),
        Some(pk) => if keccak256_of(keccak256_of(pk) + inputs.vk_hash@) == inputs.current_key@ {
            Ok(())
        } else {
            Err(RecordError::CurrentKeyMismatch)
        },
    }
}

pub struct Program;

impl Program {
    pub fn run(inputs: &Inputs) -> (r: Result<(), RecordError>)
        ensures
            match r {
                Ok(()) => spec_record_check(*inputs) == Ok::<(), RecordError>(()),
                Err(e) => spec_record_check(*inputs) == Err::<(), RecordError>(e),
            },
    {
        let mut preimage: Vec<u8> = Vec::new();
        extend_bytes(&mut preimage, &inputs.keyspace_id);
        extend_bytes(&mut preimage, &inputs.new_key);
        let msg_hash = keccak256(preimage.as_slice());

        let recovered_pub_key = match inputs.sig.ecrecover(&msg_hash) {
            Some(pk) => pk,
            None => {
                return Err(RecordError::RecoveryFailed);
            },
        };
        let current_key = keyspace_key_from_storage(&inputs.vk_hash, recovered_pub_key.as_slice());
        if !eq32(&inputs.current_key, &current_key) {
            return Err(RecordError::CurrentKeyMismatch);
        }
        Ok(())
    }
}

} // verus!
