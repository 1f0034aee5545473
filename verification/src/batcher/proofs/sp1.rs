//! The succinct record-proof descriptor. Verifying the proof itself is
//! recursion work that happens outside this library: committing to a
//! proof here means checking the critical key binding and producing the
//! verification request — the verifying key as words and the
//! public-values digest — that the surrounding prover must discharge.
use vstd::prelude::*;

use crate::batcher::{mutate_keys, spec_mutate_keys, spec_pub_inputs};
use crate::bytes::{eq32, extend_bytes, spec_u32_from_be};
use crate::crypto::{keccak256_of, sha256, sha256_of};
use crate::errors::BatchError;
use crate::imt::mutate::IMTMutate;
use crate::keyspace_key_from_storage_hash;

verus! {

pub struct SP1Proof {
    /// The record verifier key hash.
    pub record_vk_hash: [u8; 32],
    /// The storage hash.
    pub storage_hash: [u8; 32],
}

/// A deferred verification request: the record program's verifying key as
/// eight 32-bit words, and the digest of its public values. The proof
/// oracle outside this library either accepts or rejects the pair.
pub struct Sp1VerifyRequest {
    pub vk_hash: [u32; 8],
    pub public_values_digest: [u8; 32],
}

impl View for Sp1VerifyRequest {
    type V = (Seq<u32>, Seq<u8>);

    open spec fn view(&self) -> (Seq<u32>, Seq<u8>) {
        (self.vk_hash@, self.public_values_digest@)
    }
}

impl DeepView for Sp1VerifyRequest {
    type V = (Seq<u32>, Seq<u8>);

    open spec fn deep_view(&self) -> (Seq<u32>, Seq<u8>) {
        self@
    }
}

/// The sequence of 32-bit words read from a byte string in big-endian
/// order, four bytes a word; a trailing fragment shorter than a word is
/// dropped.
pub open spec fn spec_words_be(b: Seq<u8>) -> Seq<u32> {
    Seq::new((b.len() / 4) as nat, |i: int| spec_u32_from_be(b[4 * i], b[4 * i + 1], b[4 * i + 2], b[4 * i + 3]))
}

/// Converts a byte string in big-endian order to a vector of words.
pub fn bytes_to_words_be(bytes: &[u8]) -> (r: Vec<u32>)
    ensures
        r@ == spec_words_be(bytes@),
{
    let mut out: Vec<u32> = Vec::new();
    let total = bytes.len();
    let n = total / 4;
    let mut i: usize = 0;
    while i < n
        invariant
            i <= n,
            total == bytes@.len(),
            n == bytes@.len() / 4,
            out@.len() == i,
            forall|j: int| 0 <= j < i ==> out@[j] == spec_words_be(bytes@)[j],
        decreases n - i,
    {
        proof {
            assert(4 * (i as int) + 3 < bytes@.len());
        }
        let w = ((bytes[4 * i] as u32) << 24) | ((bytes[4 * i + 1] as u32) << 16) | ((bytes[4 * i
            + 2] as u32) << 8) | (bytes[4 * i + 3] as u32);
        out.push(w);
        i += 1;
    }
    proof {
        assert(out@ =~= spec_words_be(bytes@));
    }
    out
}

/// What the record proof is bound to: the mutation's current key must be
/// the keyspace key derived from the proof's verifying-key hash and
/// storage hash.
pub open spec fn spec_sp1_bound(p: SP1Proof, m: IMTMutate) -> bool {
    spec_mutate_keys(m).1 == keccak256_of(p.storage_hash@ + p.record_vk_hash@)
}

impl SP1Proof {
    /// Check the critical key binding and build the verification request
    /// for this proof over the given mutation. Without the binding check
    /// an arbitrary authorized-looking verifying key could be substituted
    /// for an unrelated record, so an unbound proof is refused.
    pub fn commit_to_proof(&self, imt_mutate: &IMTMutate) -> (r: Result<
        Sp1VerifyRequest,
        BatchError,
    >)
        ensures
            match r {
                Ok(req) => spec_sp1_bound(*self, *imt_mutate) && req.vk_hash@ == spec_words_be(
                    self.record_vk_hash@,
                ) && req.public_values_digest@ == sha256_of(spec_pub_inputs(*imt_mutate)),
                Err(e) => e == BatchError::UnboundProof && !spec_sp1_bound(*self, *imt_mutate),
            },
    {
        let (keyspace_id, current_key, new_key) = mutate_keys(imt_mutate);

        let derived = keyspace_key_from_storage_hash(&self.record_vk_hash, &self.storage_hash);
        if !eq32(&current_key, &derived) {
            return Err(BatchError::UnboundProof);
        }
        let mut pub_inputs: Vec<u8> = Vec::new();
        extend_bytes(&mut pub_inputs, &keyspace_id);
        extend_bytes(&mut pub_inputs, &current_key);
        extend_bytes(&mut pub_inputs, &new_key);
        let public_values_digest = sha256(pub_inputs.as_slice());

        let words = bytes_to_words_be(self.record_vk_hash.as_slice());
        let vk_hash: [u32; 8] = [
            words[0],
            words[1],
            words[2],
            words[3],
            words[4],
            words[5],
            words[6],
            words[7],
        ];
        proof {
            assert(vk_hash@ =~= spec_words_be(self.record_vk_hash@));
        }
        Ok(Sp1VerifyRequest { vk_hash, public_values_digest })
    }
}

} // verus!
