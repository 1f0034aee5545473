//! The fixed-width data blob of a record: 256 bytes whose first 64 bytes
//! hold the owner public key's coordinates.
use vstd::prelude::*;

verus! {

pub struct CurrentData(pub [u8; 256]);

} // verus!
