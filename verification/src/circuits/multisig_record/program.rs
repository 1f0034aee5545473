//! The multisig record program: every signature must recover the owner
//! key of the slot it names, and the number of distinct signing slots
//! must reach the blob's threshold.
use vstd::prelude::*;

use super::inputs::Inputs;
use super::k_signature::KSignature;
use crate::bytes::be_value;
use crate::crypto::ecrecover_of;
use crate::errors::RecordError;

verus! {

/// What checking one signature yields: its owner slot must lie inside the
/// blob, and the key recovered from it over the new key must equal the
/// owner key of that slot.
pub open spec fn spec_signature_check(current_data: Seq<u8>, new_key: Seq<u8>, s: KSignature) -> Result<
    (),
    RecordError,
> {
    match ecrecover_of(s.sig@, s.recid, new_key) {
        None => Err(RecordError::RecoveryFailed),
        Some(pk) => if s.owner_index > 2 {
            Err(RecordError::BadOwnerIndex)
        } else if pk != current_data.subrange(
            (s.owner_index + 1) as int * 64,
            (s.owner_index + 2) as int * 64,
        ) {
            Err(RecordError::OwnerMismatch)
        } else {
            Ok(())
        },
    }
}

/// Check all signatures, in input order; the first failure aborts.
pub open spec fn spec_signatures_check(
    current_data: Seq<u8>,
    new_key: Seq<u8>,
    sigs: Seq<KSignature>,
) -> Result<(), RecordError>
    decreases sigs.len(),
{
    if sigs.len() == 0 {
        Ok(())
    } else {
        match spec_signature_check(current_data, new_key, sigs[0]) {
            Ok(()) => spec_signatures_check(current_data, new_key, sigs.drop_first()),
            Err(e) => Err(e),
        }
    }
}

/// What the program checks: every signature recovers its named owner key,
/// and the distinct signing slots reach the blob's threshold.
pub open spec fn spec_multisig_check(inputs: Inputs) -> Result<(), RecordError> {
    match spec_signatures_check(inputs.current_data@, inputs.new_key@, inputs.signatures@) {
        Err(e) => Err(e),
        Ok(()) => if be_value(inputs.current_data@.take(64)) <= inputs.signatures@.map_values(
            |s: KSignature| s.owner_index,
        ).to_set().len() {
            Ok(())
        } else {
            Err(RecordError::ThresholdNotMet)
        },
    }
}

pub struct Program;

impl Program {
    pub fn run(inputs: &Inputs) -> (r: Result<(), RecordError>)
        ensures
            match r {
                Ok(()) => spec_multisig_check(*inputs) == Ok::<(), RecordError>(()),
                Err(e) => spec_multisig_check(*inputs) == Err::<(), RecordError>(e),
            },
    {
        let mut owner_indexes: Vec<u8> = Vec::new();
        let mut i: usize = 0;
        proof {
            assert(inputs.signatures@.skip(0) =~= inputs.signatures@);
            assert(owner_indexes@ =~= inputs.signatures@.take(0).map_values(
                |s: KSignature| s.owner_index,
            ));
        }
        while i < inputs.signatures.len()
            invariant
                i <= inputs.signatures@.len(),
                spec_signatures_check(
                    inputs.current_data@,
                    inputs.new_key@,
                    inputs.signatures@.skip(i as int),
                ) == spec_signatures_check(
                    inputs.current_data@,
                    inputs.new_key@,
                    inputs.signatures@,
                ),
                owner_indexes@ == inputs.signatures@.take(i as int).map_values(
                    |s: KSignature| s.owner_index,
                ),
            decreases inputs.signatures@.len() - i,
        {
            let ghost pre = i as int;
            proof {
                assert(inputs.signatures@.skip(pre).drop_first() =~= inputs.signatures@.skip(
                    pre + 1,
                ));
                assert(inputs.signatures@.skip(pre)[0] == inputs.signatures@[pre]);
            }
            let sig = &inputs.signatures[i];
            let recovered_key = match sig.ecrecover(&inputs.new_key) {
                Some(pk) => pk,
                None => {
                    return Err(RecordError::RecoveryFailed);
                },
            };
            if sig.owner_index > 2 {
                return Err(RecordError::BadOwnerIndex);
            }
            if !inputs.current_data.assert_owner(sig.owner_index, recovered_key) {
                return Err(RecordError::OwnerMismatch);
            }
            owner_indexes.push(sig.owner_index);
            proof {
                assert(inputs.signatures@.take(pre + 1).map_values(
                    |s: KSignature| s.owner_index,
                ) =~= inputs.signatures@.take(pre).map_values(|s: KSignature| s.owner_index).push(
                    inputs.signatures@[pre].owner_index,
                ));
            }
            i += 1;
        }
        proof {
            assert(inputs.signatures@.skip(inputs.signatures@.len() as int) =~= Seq::<
                KSignature,
            >::empty());
            assert(inputs.signatures@.take(inputs.signatures@.len() as int)
                =~= inputs.signatures@);
        }
        if !inputs.current_data.assert_threshold(owner_indexes) {
            return Err(RecordError::ThresholdNotMet);
        }
        Ok(())
    }
}

} // verus!
