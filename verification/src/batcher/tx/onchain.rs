//! An onchain transaction: its record proof may be invalid — the batch
//! then skips the mutation while still chaining the transaction hash.
use vstd::prelude::*;

use crate::batcher::proofs::plonk::{spec_plonk_bound, PLONKProof};
use crate::batcher::spec_mutate_keys;
use crate::bytes::{extend_bytes, extend_vec};
use crate::crypto::{keccak256, keccak256_of};
use crate::imt::mutate::IMTMutate;

verus! {

pub struct OnchainTx {
    /// The tree mutation associated with this transaction.
    pub imt_mutate: IMTMutate,
    /// The previous transaction hash.
    pub prev_tx_hash: [u8; 32],
    /// The PLONK proof to verify.
    pub proof: PLONKProof,
}

/// The hash of an onchain transaction: previous hash, keyspace id, new
/// key and the raw proof bytes, concatenated and hashed.
pub open spec fn spec_onchain_hash(tx: OnchainTx) -> Seq<u8> {
    keccak256_of(
        tx.prev_tx_hash@ + spec_mutate_keys(tx.imt_mutate).0 + spec_mutate_keys(tx.imt_mutate).2
            + tx.proof.proof@,
    )
}

impl OnchainTx {
    pub fn hash(&self) -> (r: [u8; 32])
        ensures
            r@ == spec_onchain_hash(*self),
    {
        let (keyspace_id, _, new_key) = crate::batcher::mutate_keys(&self.imt_mutate);
        let mut preimage: Vec<u8> = Vec::new();
        extend_bytes(&mut preimage, &self.prev_tx_hash);
        extend_bytes(&mut preimage, &keyspace_id);
        extend_bytes(&mut preimage, &new_key);
        extend_vec(&mut preimage, &self.proof.proof);
        keccak256(preimage.as_slice())
    }

    /// Whether this transaction's PLONK record proof binds to its
    /// mutation and verifies; where it does not, the mutation is skipped
    /// rather than the batch aborted. An unbound proof is never valid;
    /// for a bound one the verifier's randomized verdict decides, so only
    /// the binding direction is a function of the inputs.
    pub fn is_valid_record_proof(&self) -> (r: bool)
        ensures
            r ==> spec_plonk_bound(self.proof, self.imt_mutate),
            !spec_plonk_bound(self.proof, self.imt_mutate) ==> !r,
    {
        match self.proof.is_valid_record_proof(&self.imt_mutate) {
            Ok(()) => true,
            Err(_) => false,
        }
    }
}

} // verus!
