//! An offchain transaction: its record proof must be valid — a failure
//! aborts the whole batch.
use vstd::prelude::*;

use crate::batcher::proofs::sp1::{spec_sp1_bound, spec_words_be, Sp1VerifyRequest};
use crate::batcher::proofs::{plonk::spec_plonk_bound, Proof};
use crate::batcher::{spec_mutate_keys, spec_pub_inputs};
use crate::bytes::extend_bytes;
use crate::crypto::{keccak256, keccak256_of, sha256_of};
use crate::errors::BatchError;
use crate::imt::mutate::IMTMutate;

verus! {

pub struct OffchainTx {
    /// The tree mutation associated with this transaction.
    pub imt_mutate: IMTMutate,
    /// The previous transaction hash.
    pub prev_tx_hash: [u8; 32],
    /// The record proof.
    pub proof: Proof,
}

/// The hash of an offchain transaction: previous hash, keyspace id and
/// new key, concatenated and hashed.
pub open spec fn spec_offchain_hash(tx: OffchainTx) -> Seq<u8> {
    keccak256_of(
        tx.prev_tx_hash@ + spec_mutate_keys(tx.imt_mutate).0 + spec_mutate_keys(tx.imt_mutate).2,
    )
}

/// The record-proof binding of an offchain transaction, by its proof
/// kind: the proof's claimed verifying key and storage hash must derive
/// the mutation's current key.
pub open spec fn spec_offchain_bound(tx: OffchainTx) -> bool {
    match tx.proof {
        Proof::SP1(p) => spec_sp1_bound(p, tx.imt_mutate),
        Proof::PLONK(p) => spec_plonk_bound(p, tx.imt_mutate),
    }
}

/// The deferred verification request a bound succinct proof yields.
pub open spec fn spec_sp1_request(tx: OffchainTx, p: crate::batcher::proofs::sp1::SP1Proof) -> (
    Seq<u32>,
    Seq<u8>,
) {
    (spec_words_be(p.record_vk_hash@), sha256_of(spec_pub_inputs(tx.imt_mutate)))
}

impl OffchainTx {
    pub fn hash(&self) -> (r: [u8; 32])
        ensures
            r@ == spec_offchain_hash(*self),
    {
        let (keyspace_id, _, new_key) = crate::batcher::mutate_keys(&self.imt_mutate);
        let mut preimage: Vec<u8> = Vec::new();
        extend_bytes(&mut preimage, &self.prev_tx_hash);
        extend_bytes(&mut preimage, &keyspace_id);
        extend_bytes(&mut preimage, &new_key);
        keccak256(preimage.as_slice())
    }

    /// Check this transaction's record proof; a succinct proof yields the
    /// verification request to discharge outside, a failed check the
    /// error that aborts the batch. An unbound proof always fails with
    /// exactly that error; a bound succinct proof always yields its
    /// request; a bound PLONK proof passes or is rejected by the
    /// verifier's randomized verdict.
    pub fn process_proof(&self) -> (r: Result<Option<Sp1VerifyRequest>, BatchError>)
        ensures
            match r {
                Ok(Some(req)) => spec_offchain_bound(*self) && (self.proof matches Proof::SP1(p)
                    && req@ == spec_sp1_request(*self, p)),
                Ok(None) => spec_offchain_bound(*self) && self.proof matches Proof::PLONK(_),
                Err(e) => (e == BatchError::UnboundProof && !spec_offchain_bound(*self)) || (e
                    == BatchError::ProofRejected && spec_offchain_bound(*self)
                    && self.proof matches Proof::PLONK(_)),
            },
    {
        match &self.proof {
            Proof::SP1(p) => match p.commit_to_proof(&self.imt_mutate) {
                Ok(req) => Ok(Some(req)),
                Err(e) => Err(e),
            },
            Proof::PLONK(p) => match p.is_valid_record_proof(&self.imt_mutate) {
                Ok(()) => Ok(None),
                Err(e) => Err(e),
            },
        }
    }
}

} // verus!
