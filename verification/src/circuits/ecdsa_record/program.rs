//! The data-blob ECDSA record program: recover the signer of the new key
//! and check it against the owner key embedded in the data blob.
use vstd::prelude::*;

use super::inputs::Inputs;
use crate::crypto::ecrecover_of;
use crate::errors::RecordError;

verus! {

/// What the program checks: a key must be recoverable from the signature
/// over the new key, and it must equal the owner key in the blob's first
/// 64 bytes.
pub open spec fn spec_blob_record_check(inputs: Inputs) -> Result<(), RecordError> {
    match ecrecover_of(inputs.sig.sig@, inputs.sig.recid, inputs.new_key@) {
        None => Err(RecordError::RecoveryFailed),
        Some(pk) => if pk == inputs.current_data.0@.take(64) {
            Ok(())
        } else {
            Err(RecordError::OwnerMismatch)
        },
    }
}

pub struct Program;

impl Program {
    pub fn run(inputs: &Inputs) -> (r: Result<(), RecordError>)
        ensures
            match r {
                Ok(()) => spec_blob_record_check(*inputs) == Ok::<(), RecordError>(()),
                Err(e) => spec_blob_record_check(*inputs) == Err::<(), RecordError>(e),
            },
    {
        let recovered_key = match inputs.sig.ecrecover(&inputs.new_key) {
            Some(pk) => pk,
            None => {
                return Err(RecordError::RecoveryFailed);
            },
        };
        let mut i: usize = 0;
        while i < 64
            invariant
                i <= 64,
                crate::crypto::ecrecover_of(inputs.sig.sig@, inputs.sig.recid, inputs.new_key@)
                    == Some(recovered_key@),
                forall|j: int| 0 <= j < i ==> recovered_key@[j] == inputs.current_data.0@[j],
            decreases 64 - i,
        {
            if recovered_key[i] != inputs.current_data.0[i] {
                proof {
                    assert(recovered_key@[i as int] != inputs.current_data.0@.take(64)[i as int]);
                    assert(recovered_key@ != inputs.current_data.0@.take(64));
                }
                return Err(RecordError::OwnerMismatch);
            }
            i += 1;
        }
        proof {
            assert(recovered_key@ =~= inputs.current_data.0@.take(64));
        }
        Ok(())
    }
}

} // verus!
