//! The aggregator program: it commits to one account-program transaction
//! and produces the request for recursively verifying that program's
//! proof — the account verifying key and the digest of its public hash.
use vstd::prelude::*;

use crate::batcher::proofs::sp1::Sp1VerifyRequest;
use crate::crypto::{sha256, sha256_of};

verus! {

pub struct Tx {
    /// Verifying key of the account program, as eight 32-bit words.
    pub v_key: [u32; 8],
    /// The public hash the account program committed to.
    pub account_pub_hash: [u8; 32],
}

pub struct Inputs {
    tx: Tx,
}

impl Inputs {
    pub closed spec fn spec_v_key(self) -> Seq<u32> {
        self.tx.v_key@
    }

    pub closed spec fn spec_account_pub_hash(self) -> Seq<u8> {
        self.tx.account_pub_hash@
    }

    pub fn new(v_key: [u32; 8], account_pub_hash: [u8; 32]) -> (r: Self)
        ensures
            r.spec_v_key() == v_key@,
            r.spec_account_pub_hash() == account_pub_hash@,
    {
        Self { tx: Tx { v_key, account_pub_hash } }
    }

    /// The transaction the program commits to as its public inputs.
    pub fn to_commit(&self) -> (r: &Tx)
        ensures
            r.v_key@ == self.spec_v_key(),
            r.account_pub_hash@ == self.spec_account_pub_hash(),
    {
        &self.tx
    }
}

pub struct Circuit;

impl Circuit {
    /// Build the verification request for the committed account proof:
    /// the account verifying key, and the digest of the account program's
    /// public hash. The surrounding prover must discharge it.
    pub fn run(inputs: &Inputs) -> (r: Sp1VerifyRequest)
        ensures
            r.vk_hash@ == inputs.spec_v_key(),
            r.public_values_digest@ == sha256_of(inputs.spec_account_pub_hash()),
    {
        let public_values_digest = sha256(inputs.tx.account_pub_hash.as_slice());
        Sp1VerifyRequest { vk_hash: inputs.tx.v_key, public_values_digest }
    }
}

} // verus!
