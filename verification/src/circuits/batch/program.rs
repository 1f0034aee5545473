//! The batch program: a strictly sequential fold of the transaction list
//! over the running root, checked at the end against the declared root.
use vstd::prelude::*;

use super::inputs::Inputs;
use super::tx::{spec_tx_apply, spec_tx_wf, Tx};
use crate::errors::BatchError;

verus! {

/// The fold of a transaction list over a root: each transaction is
/// applied to the root the previous one produced; the first failure
/// aborts the whole fold.
pub open spec fn spec_batch_fold(txs: Seq<Tx>, root: Seq<u8>) -> Result<Seq<u8>, BatchError>
    decreases txs.len(),
{
    if txs.len() == 0 {
        Ok(root)
    } else {
        match spec_tx_apply(txs[0], root) {
            Ok(next) => spec_batch_fold(txs.drop_first(), next),
            Err(e) => Err(e),
        }
    }
}

pub struct Program;

impl Program {
    /// Fold the transactions over `inputs.old_root` and check the result
    /// against `inputs.new_root`: the final root on success, the first
    /// fold failure or the final-root mismatch otherwise.
    pub fn run(inputs: &Inputs) -> (r: Result<[u8; 32], BatchError>)
        requires
            forall|i: int| 0 <= i < inputs.txs@.len() ==> spec_tx_wf(#[trigger] inputs.txs@[i]),
        ensures
            match r {
                Ok(root) => spec_batch_fold(inputs.txs@, inputs.old_root@) == Ok::<
                    Seq<u8>,
                    BatchError,
                >(root@) && root@ == inputs.new_root@,
                Err(e) => match spec_batch_fold(inputs.txs@, inputs.old_root@) {
                    Ok(folded) => e == BatchError::FinalRootMismatch && folded
                        != inputs.new_root@,
                    Err(e2) => e == e2,
                },
            },
    {
        let mut root = inputs.old_root;
        let mut i: usize = 0;
        proof {
            assert(inputs.txs@.skip(0) =~= inputs.txs@);
        }
        while i < inputs.txs.len()
            invariant
                i <= inputs.txs@.len(),
                forall|j: int| 0 <= j < inputs.txs@.len() ==> spec_tx_wf(#[trigger] inputs.txs@[j]),
                spec_batch_fold(inputs.txs@.skip(i as int), root@) == spec_batch_fold(
                    inputs.txs@,
                    inputs.old_root@,
                ),
            decreases inputs.txs@.len() - i,
        {
            let ghost pre = i as int;
            root = match inputs.txs[i].apply(root) {
                Ok(next) => next,
                Err(e) => {
                    return Err(e);
                },
            };
            proof {
                assert(inputs.txs@.skip(pre).drop_first() =~= inputs.txs@.skip(pre + 1));
                assert(inputs.txs@.skip(pre)[0] == inputs.txs@[pre]);
            }
            i += 1;
        }
        proof {
            assert(inputs.txs@.skip(inputs.txs@.len() as int) =~= Seq::<Tx>::empty());
        }
        if !crate::bytes::eq32(&root, &inputs.new_root) {
            return Err(BatchError::FinalRootMismatch);
        }
        Ok(root)
    }
}

} // verus!
