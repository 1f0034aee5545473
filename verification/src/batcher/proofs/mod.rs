//! The two record-proof kinds a transaction can carry: a succinct proof
//! checked by recursion outside this library, or a PLONK proof checked by
//! the verifier it names.
use vstd::prelude::*;

pub mod plonk;
pub mod sp1;

use plonk::PLONKProof;
use sp1::SP1Proof;

verus! {

pub enum Proof {
    SP1(SP1Proof),
    PLONK(PLONKProof),
}

impl Proof {
    /// A succinct record-proof descriptor.
    pub fn sp1(record_vk_hash: [u8; 32], storage_hash: [u8; 32]) -> (r: Self)
        ensures
            r == (Proof::SP1(SP1Proof { record_vk_hash, storage_hash })),
    {
        Proof::SP1(SP1Proof { record_vk_hash, storage_hash })
    }

    /// A PLONK record-proof descriptor.
    pub fn plonk(
        vk: &[u8],
        proof: &[u8],
        plonk_vk_hash: String,
        zkvm_vk_hash: String,
        storage_hash: [u8; 32],
    ) -> (r: Self)
        ensures
            r matches Proof::PLONK(p) && p.vk@ == vk@ && p.proof@ == proof@ && p.plonk_vk_hash@
                == plonk_vk_hash@ && p.zkvm_vk_hash@ == zkvm_vk_hash@ && p.storage_hash
                == storage_hash,
    {
        Proof::PLONK(
            PLONKProof {
                vk: slice_to_vec(vk),
                proof: slice_to_vec(proof),
                plonk_vk_hash,
                zkvm_vk_hash,
                storage_hash,
            },
        )
    }
}

/// Copy a byte slice into an owned vector.
fn slice_to_vec(s: &[u8]) -> (r: Vec<u8>)
    ensures
        r@ == s@,
{
    let mut out: Vec<u8> = Vec::new();
    let mut i: usize = 0;
    while i < s.len()
        invariant
            i <= s@.len(),
            out@ == s@.take(i as int),
        decreases s@.len() - i,
    {
        out.push(s[i]);
        proof {
            assert(s@.take(i as int).push(s@[i as int]) =~= s@.take(i as int + 1));
        }
        i += 1;
    }
    proof {
        assert(s@.take(s@.len() as int) =~= s@);
    }
    out
}

} // verus!
