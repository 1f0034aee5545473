//! An uncompressed secp256k1 public key: the x and y coordinates, 32
//! bytes each.
use vstd::prelude::*;

verus! {

pub struct KPublicKey(pub [u8; 64]);

} // verus!
