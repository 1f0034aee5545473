//! A recoverable ECDSA signature as carried in record-program inputs: the
//! 64 signature bytes and the recovery id.
use vstd::prelude::*;

use crate::crypto::{ecrecover, ecrecover_of};

verus! {

pub struct KSignature {
    pub sig: [u8; 64],
    pub recid: u8,
}

impl KSignature {
    /// Recover the public key that signed the 32-byte message hash, or
    /// `None` where the signature admits no recovery.
    pub fn ecrecover(&self, msg: &[u8; 32]) -> (r: Option<[u8; 64]>)
        ensures
            match r {
                Some(pk) => ecrecover_of(self.sig@, self.recid, msg@) == Some(pk@),
                None => ecrecover_of(self.sig@, self.recid, msg@) is None,
            },
    {
        ecrecover(&self.sig, self.recid, msg)
    }
}

} // verus!
