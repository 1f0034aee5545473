//! A recoverable ECDSA signature naming the owner slot it signs for.
use vstd::prelude::*;

use crate::crypto::{ecrecover, ecrecover_of};

verus! {

pub struct KSignature {
    /// The owner slot this signature claims, counted from the first
    /// owner key in the data blob.
    pub owner_index: u8,
    pub sig: [u8; 64],
    pub recid: u8,
}

impl KSignature {
    /// Recover the public key that signed the 32-byte message hash, or
    /// `None` where the signature admits no recovery.
    pub fn ecrecover(&self, msg: &[u8; 32]) -> (r: Option<[u8; 64]>)
        ensures
            match r {
                Some(pk) => ecrecover_of(self.sig@, self.recid, msg@) == Some(pk@),
                None => ecrecover_of(self.sig@, self.recid, msg@) is None,
            },
    {
        ecrecover(&self.sig, self.recid, msg)
    }
}

} // verus!
