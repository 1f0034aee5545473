//! The witness of one account program run: the verifying-key fingerprint
//! of the program and its public inputs.
use vstd::prelude::*;

verus! {

pub struct AccountProof {
    /// Verifying key of the account program, as eight 32-bit words.
    pub v_key: [u32; 8],
    /// Public inputs of the account program.
    pub pub_inputs: Vec<u8>,
}

} // verus!
