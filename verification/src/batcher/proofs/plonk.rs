//! The PLONK record-proof descriptor: raw proof and verifying-key bytes,
//! two verifier-key hashes carried as decimal strings, and the storage
//! hash the keyspace key was derived from. Checking such a proof first
//! enforces the critical key binding and then asks the PLONK verifier;
//! the verifier's verdict is randomized (its batched pairing check folds
//! with fresh randomness), so contracts pin the binding exactly and state
//! only what holds of every verdict.
use vstd::prelude::*;

use crate::batcher::{mutate_keys, spec_mutate_keys};
use crate::bytes::{eq32, extend_bytes, to_array32};
use crate::crypto::{decimal_be_bytes_of, decimal_to_be_bytes, keccak256_of, plonk_verify, sha256};
use crate::errors::BatchError;
use crate::imt::mutate::IMTMutate;
use crate::keyspace_key_from_storage_hash;

verus! {

pub struct PLONKProof {
    /// The record verifier key of the PLONK proof.
    pub vk: Vec<u8>,
    /// The record proof data.
    pub proof: Vec<u8>,
    /// The hash of the PLONK verifier key, as a decimal string.
    pub plonk_vk_hash: String,
    /// The hash of the record program's verifier key, as a decimal
    /// string; it differs from the hash of `vk`.
    pub zkvm_vk_hash: String,
    /// The storage hash.
    pub storage_hash: [u8; 32],
}

/// A self-contained, serializable PLONK proof bundle: everything a
/// verifier outside the proving context needs.
pub struct VerifiablePlonkProof {
    pub proof: Vec<u8>,
    pub vk: Vec<u8>,
    pub plonk_vk_hash: String,
    pub zkvm_vk_hash: String,
    pub public_inputs_digest: String,
}

/// The verifier-key hash a proof claims, decoded from its decimal string
/// into exactly 32 bytes; `None` where the string does not parse or the
/// integer does not span exactly 32 bytes.
pub open spec fn spec_vk_hash_bytes(p: PLONKProof) -> Option<Seq<u8>> {
    match decimal_be_bytes_of(p.plonk_vk_hash@) {
        Some(b) => if b.len() == 32 {
            Some(b)
        } else {
            None
        },
        None => None,
    }
}

/// The critical key binding of a PLONK record proof: its verifier-key
/// hash decodes to exactly 32 bytes, and together with the storage hash
/// it derives the mutation's current key.
pub open spec fn spec_plonk_bound(p: PLONKProof, m: IMTMutate) -> bool {
    match spec_vk_hash_bytes(p) {
        None => false,
        Some(vk_hash) => spec_mutate_keys(m).1 == keccak256_of(p.storage_hash@ + vk_hash),
    }
}

impl PLONKProof {
    /// The claimed verifier-key hash as 32 bytes, or `None` where the
    /// decimal string does not denote a 32-byte integer.
    pub fn vk_hash_bytes(&self) -> (r: Option<[u8; 32]>)
        ensures
            match r {
                Some(b) => spec_vk_hash_bytes(*self) == Some(b@),
                None => spec_vk_hash_bytes(*self) is None,
            },
    {
        match decimal_to_be_bytes(self.plonk_vk_hash.as_str()) {
            Some(bytes) => {
                if bytes.len() == 32 {
                    Some(to_array32(&bytes))
                } else {
                    None
                }
            },
            None => None,
        }
    }

    /// Check this proof against the mutation it is supposed to authorize:
    /// the key binding first — the claimed verifier-key hash must derive
    /// the mutation's current key, else an unrelated proof could be
    /// attached to an unrelated record — then the PLONK verifier itself.
    /// An unbound proof is refused outright; for a bound one the verifier
    /// is asked about the proof bytes and the masked digest of the three
    /// keys, and its verdict — randomized, so no function of the inputs —
    /// decides between acceptance and rejection.
    pub fn is_valid_record_proof(&self, imt_mutate: &IMTMutate) -> (r: Result<(), BatchError>)
        ensures
            (r == Err::<(), BatchError>(BatchError::UnboundProof)) <==> !spec_plonk_bound(
                *self,
                *imt_mutate,
            ),
            r is Ok || r == Err::<(), BatchError>(BatchError::UnboundProof) || r == Err::<
                (),
                BatchError,
            >(BatchError::ProofRejected),
    {
        let vk_hash = match self.vk_hash_bytes() {
            Some(b) => b,
            None => {
                return Err(BatchError::UnboundProof);
            },
        };
        let (keyspace_id, current_key, new_key) = mutate_keys(imt_mutate);

        let derived = keyspace_key_from_storage_hash(&vk_hash, &self.storage_hash);
        if !eq32(&current_key, &derived) {
            return Err(BatchError::UnboundProof);
        }
        let mut pub_inputs: Vec<u8> = Vec::new();
        extend_bytes(&mut pub_inputs, &keyspace_id);
        extend_bytes(&mut pub_inputs, &current_key);
        extend_bytes(&mut pub_inputs, &new_key);
        // The verifier's public-values digest: SHA-256 of the three keys
        // with the top three bits masked off to fit its scalar field.
        let mut digest = sha256(pub_inputs.as_slice());
        digest[0] = digest[0] & 0x1f;
        if !plonk_verify(
            self.proof.as_slice(),
            self.vk.as_slice(),
            self.zkvm_vk_hash.as_str(),
            &digest,
        ) {
            return Err(BatchError::ProofRejected);
        }
        Ok(())
    }
}

} // verus!
