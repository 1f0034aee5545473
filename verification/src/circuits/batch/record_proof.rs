//! The witness of one record program run: the verifying-key fingerprint
//! of the program and its public inputs. The first 256 bytes of the
//! public inputs are the owner data blob; the 32 bytes after them are the
//! new key the run authorizes.
use vstd::prelude::*;

use crate::crypto::keccak256_of;
use crate::spec_words_le;

verus! {

pub struct RecordProof {
    /// Verifying key of the record program, as eight 32-bit words.
    pub v_key: [u32; 8],
    /// Public inputs of the record program.
    pub pub_inputs: Vec<u8>,
}

/// The keyspace key a record proof claims authority over: derived from
/// its verifying-key fingerprint and its owner data blob.
pub open spec fn spec_record_proof_key(p: RecordProof) -> Seq<u8> {
    keccak256_of(spec_words_le(p.v_key@) + keccak256_of(p.pub_inputs@.take(256)))
}

impl RecordProof {
    /// The owner data blob: the first 256 bytes of the public inputs.
    pub fn current_data(&self) -> (r: [u8; 256])
        requires
            self.pub_inputs@.len() >= 256,
        ensures
            r@ == self.pub_inputs@.take(256),
    {
        let mut out: [u8; 256] = [0; 256];
        let mut i: usize = 0;
        while i < 256
            invariant
                i <= 256,
                self.pub_inputs@.len() >= 256,
                forall|j: int| 0 <= j < i ==> out@[j] == self.pub_inputs@[j],
            decreases 256 - i,
        {
            out[i] = self.pub_inputs[i];
            i += 1;
        }
        proof {
            assert(out@ =~= self.pub_inputs@.take(256));
        }
        out
    }

    /// The new key the proof authorizes: bytes 256 to 288 of the public
    /// inputs.
    pub fn new_key(&self) -> (r: [u8; 32])
        requires
            self.pub_inputs@.len() >= 288,
        ensures
            r@ == self.pub_inputs@.subrange(256, 288),
    {
        let mut out: [u8; 32] = [0; 32];
        let mut i: usize = 0;
        while i < 32
            invariant
                i <= 32,
                self.pub_inputs@.len() >= 288,
                forall|j: int| 0 <= j < i ==> out@[j] == self.pub_inputs@[256 + j],
            decreases 32 - i,
        {
            out[i] = self.pub_inputs[256 + i];
            i += 1;
        }
        proof {
            assert(out@ =~= self.pub_inputs@.subrange(256, 288));
        }
        out
    }
}

} // verus!
