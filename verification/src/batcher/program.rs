//! The batch program: a strictly sequential, single-pass fold of the
//! transaction list. Every transaction's hash is chained whether or not
//! its mutation applies; offchain record proofs must be good, onchain
//! ones may fail and then only skip their mutation; the final root and
//! the final transaction hash are checked against the declared public
//! inputs.
use vstd::prelude::*;

use super::inputs::Inputs;
use super::proofs::plonk::spec_plonk_bound;
use super::proofs::sp1::Sp1VerifyRequest;
use super::proofs::Proof;
use super::tx::offchain::{spec_offchain_bound, spec_sp1_request};
use super::tx::{spec_tx_hash, spec_tx_mutate, Tx};
use crate::bytes::eq32;
use crate::errors::BatchError;
use crate::imt::mutate::{spec_mutate_apply, spec_mutate_wf};

verus! {

/// The all-zero 32-byte string the transaction hash chain starts from.
pub open spec fn spec_zero32() -> Seq<u8> {
    Seq::new(32, |i: int| 0u8)
}

/// What the batch program returns on success: the folded root and
/// transaction hash (equal to the declared ones), and the deferred
/// verification requests of the succinct record proofs, to be discharged
/// by the surrounding prover.
pub struct BatchOutput {
    pub new_root: [u8; 32],
    pub new_tx_hash: [u8; 32],
    pub sp1_requests: Vec<Sp1VerifyRequest>,
}

/// A transaction whose outcome is a function of the batch inputs alone:
/// an offchain transaction carrying a succinct proof, or any transaction
/// whose PLONK proof is unbound — the randomized PLONK verifier is then
/// never consulted.
pub open spec fn spec_tx_det(tx: Tx) -> bool {
    match tx {
        Tx::Offchain(o) => match o.proof {
            Proof::SP1(_) => true,
            Proof::PLONK(p) => !spec_plonk_bound(p, o.imt_mutate),
        },
        Tx::Onchain(o) => !spec_plonk_bound(o.proof, o.imt_mutate),
    }
}

/// Every transaction of the batch lies in the deterministic class.
pub open spec fn spec_batch_det(txs: Seq<Tx>) -> bool {
    forall|i: int| 0 <= i < txs.len() ==> spec_tx_det(#[trigger] txs[i])
}

/// The fold of a batch in the deterministic class: each transaction
/// chains its hash; an unbound offchain proof aborts, an unbound onchain
/// proof skips its mutation, a bound succinct proof contributes its
/// verification request; if not skipped, the mutation applies to the
/// running root. A bound PLONK proof's outcome rests on the verifier's
/// randomized verdict and is no function of the inputs, so the fold gives
/// such a transaction a fixed rejecting or skipping branch and the
/// program's contract applies the fold only to batches without them.
pub open spec fn spec_run_fold(
    txs: Seq<Tx>,
    root: Seq<u8>,
    tx_hash: Seq<u8>,
    reqs: Seq<(Seq<u32>, Seq<u8>)>,
) -> Result<(Seq<u8>, Seq<u8>, Seq<(Seq<u32>, Seq<u8>)>), BatchError>
    decreases txs.len(),
{
    if txs.len() == 0 {
        Ok((root, tx_hash, reqs))
    } else {
        let tx = txs[0];
        let h = spec_tx_hash(tx);
        match tx {
            Tx::Offchain(o) => if !spec_offchain_bound(o) {
                Err(BatchError::UnboundProof)
            } else {
                match o.proof {
                    Proof::SP1(p) => match spec_mutate_apply(o.imt_mutate, root) {
                        Ok(next) => spec_run_fold(
                            txs.drop_first(),
                            next,
                            h,
                            reqs.push(spec_sp1_request(o, p)),
                        ),
                        Err(e) => Err(e),
                    },
                    Proof::PLONK(_) => Err(BatchError::ProofRejected),
                }
            },
            Tx::Onchain(_) => spec_run_fold(txs.drop_first(), root, h, reqs),
        }
    }
}

/// A may-skip transaction never aborts the batch: an onchain transaction
/// whose PLONK record proof is unbound still chains its hash, but leaves
/// the root and the request list unchanged for the rest of the fold.
pub proof fn lemma_unbound_onchain_tx_skips(
    o: super::tx::onchain::OnchainTx,
    txs: Seq<Tx>,
    root: Seq<u8>,
    tx_hash: Seq<u8>,
    reqs: Seq<(Seq<u32>, Seq<u8>)>,
)
    requires
        !spec_plonk_bound(o.proof, o.imt_mutate),
    ensures
        spec_run_fold(seq![Tx::Onchain(o)] + txs, root, tx_hash, reqs) == spec_run_fold(
            txs,
            root,
            super::tx::onchain::spec_onchain_hash(o),
            reqs,
        ),
{
    let whole = seq![Tx::Onchain(o)] + txs;
    assert(whole[0] == Tx::Onchain(o));
    assert(whole.drop_first() =~= txs);
}

/// A must-apply transaction with an unbound record proof is fatal: it
/// aborts the whole fold with exactly that failure, whatever follows it.
pub proof fn lemma_unbound_offchain_tx_aborts(
    o: super::tx::offchain::OffchainTx,
    txs: Seq<Tx>,
    root: Seq<u8>,
    tx_hash: Seq<u8>,
    reqs: Seq<(Seq<u32>, Seq<u8>)>,
)
    requires
        !spec_offchain_bound(o),
    ensures
        spec_run_fold(seq![Tx::Offchain(o)] + txs, root, tx_hash, reqs) == Err::<
            (Seq<u8>, Seq<u8>, Seq<(Seq<u32>, Seq<u8>)>),
            BatchError,
        >(BatchError::UnboundProof),
{
    let whole = seq![Tx::Offchain(o)] + txs;
    assert(whole[0] == Tx::Offchain(o));
}

pub struct Program;

impl Program {
    /// Fold the transactions over `inputs.old_root` and check the final
    /// root and transaction hash against the declared public inputs. On
    /// success the returned root and hash always equal the declared ones;
    /// for a batch in the deterministic class the whole outcome equals the
    /// fold's.
    pub fn run(inputs: &Inputs) -> (r: Result<BatchOutput, BatchError>)
        requires
            forall|i: int| 0 <= i < inputs.txs@.len() ==> spec_mutate_wf(
                spec_tx_mutate(#[trigger] inputs.txs@[i]),
            ),
        ensures
            r matches Ok(out) ==> out.new_root@ == inputs.new_root@ && out.new_tx_hash@
                == inputs.new_tx_hash@,
            spec_batch_det(inputs.txs@) ==> match r {
                Ok(out) => {
                    &&& spec_run_fold(inputs.txs@, inputs.old_root@, spec_zero32(), Seq::empty())
                        == Ok::<(Seq<u8>, Seq<u8>, Seq<(Seq<u32>, Seq<u8>)>), BatchError>(
                        (out.new_root@, out.new_tx_hash@, out.sp1_requests.deep_view()),
                    )
                    &&& out.new_root@ == inputs.new_root@
                    &&& out.new_tx_hash@ == inputs.new_tx_hash@
                },
                Err(e) => match spec_run_fold(
                    inputs.txs@,
                    inputs.old_root@,
                    spec_zero32(),
                    Seq::empty(),
                ) {
                    Err(e2) => e == e2,
                    Ok(t) => (e == BatchError::FinalRootMismatch && t.0 != inputs.new_root@) || (e
                        == BatchError::FinalTxHashMismatch && t.0 == inputs.new_root@ && t.1
                        != inputs.new_tx_hash@),
                },
            },
    {
        let mut root = inputs.old_root;
        let mut tx_hash = [0u8; 32];
        let mut requests: Vec<Sp1VerifyRequest> = Vec::new();
        let mut i: usize = 0;
        proof {
            assert(tx_hash@ =~= spec_zero32());
            assert(requests.deep_view() =~= Seq::<(Seq<u32>, Seq<u8>)>::empty());
            assert(inputs.txs@.skip(0) =~= inputs.txs@);
        }
        while i < inputs.txs.len()
            invariant
                i <= inputs.txs@.len(),
                forall|j: int| 0 <= j < inputs.txs@.len() ==> spec_mutate_wf(
                    spec_tx_mutate(#[trigger] inputs.txs@[j]),
                ),
                spec_batch_det(inputs.txs@) ==> spec_run_fold(
                    inputs.txs@,
                    inputs.old_root@,
                    spec_zero32(),
                    Seq::empty(),
                ) == spec_run_fold(
                    inputs.txs@.skip(i as int),
                    root@,
                    tx_hash@,
                    requests.deep_view(),
                ),
            decreases inputs.txs@.len() - i,
        {
            let ghost pre = i as int;
            proof {
                assert(inputs.txs@.skip(pre).drop_first() =~= inputs.txs@.skip(pre + 1));
                assert(inputs.txs@.skip(pre)[0] == inputs.txs@[pre]);
                if spec_batch_det(inputs.txs@) {
                    assert(spec_tx_det(inputs.txs@[pre]));
                }
            }
            let tx = &inputs.txs[i];
            tx_hash = tx.hash();
            let apply_mutation: bool = match tx {
                Tx::Offchain(o) => match o.process_proof() {
                    Ok(Some(req)) => {
                        let ghost before = requests.deep_view();
                        requests.push(req);
                        proof {
                            assert(requests.deep_view() =~= before.push(req@));
                        }
                        true
                    },
                    Ok(None) => true,
                    Err(e) => {
                        return Err(e);
                    },
                },
                Tx::Onchain(o) => o.is_valid_record_proof(),
            };
            if apply_mutation {
                root = match tx.verify_imt_mutate(&root) {
                    Ok(next) => next,
                    Err(e) => {
                        return Err(e);
                    },
                };
            }
            i += 1;
        }
        proof {
            assert(inputs.txs@.skip(inputs.txs@.len() as int) =~= Seq::<Tx>::empty());
        }
        if !eq32(&root, &inputs.new_root) {
            return Err(BatchError::FinalRootMismatch);
        }
        if !eq32(&tx_hash, &inputs.new_tx_hash) {
            return Err(BatchError::FinalTxHashMismatch);
        }
        Ok(BatchOutput { new_root: root, new_tx_hash: tx_hash, sp1_requests: requests })
    }
}

} // verus!
