//! The two transaction classes the batch program processes, and what
//! they share: a hash-chain link and a tree mutation.
use vstd::prelude::*;

pub mod offchain;
pub mod onchain;

use offchain::{spec_offchain_hash, OffchainTx};
use onchain::{spec_onchain_hash, OnchainTx};

use crate::batcher::proofs::plonk::PLONKProof;
use crate::batcher::proofs::Proof;
use crate::errors::BatchError;
use crate::imt::mutate::{spec_mutate_apply, spec_mutate_wf, IMTMutate};

verus! {

pub enum Tx {
    Offchain(OffchainTx),
    Onchain(OnchainTx),
}

/// The tree mutation a transaction carries.
pub open spec fn spec_tx_mutate(tx: Tx) -> IMTMutate {
    match tx {
        Tx::Offchain(o) => o.imt_mutate,
        Tx::Onchain(o) => o.imt_mutate,
    }
}

/// The hash of a transaction, by its class.
pub open spec fn spec_tx_hash(tx: Tx) -> Seq<u8> {
    match tx {
        Tx::Offchain(o) => spec_offchain_hash(o),
        Tx::Onchain(o) => spec_onchain_hash(o),
    }
}

impl Tx {
    /// Build an offchain transaction.
    pub fn offchain(imt_mutate: IMTMutate, prev_tx_hash: [u8; 32], proof: Proof) -> (r: Self)
        ensures
            r == (Tx::Offchain(OffchainTx { imt_mutate, prev_tx_hash, proof })),
    {
        Tx::Offchain(OffchainTx { imt_mutate, prev_tx_hash, proof })
    }

    /// Build an onchain transaction.
    pub fn onchain(imt_mutate: IMTMutate, prev_tx_hash: [u8; 32], proof: PLONKProof) -> (r: Self)
        ensures
            r == (Tx::Onchain(OnchainTx { imt_mutate, prev_tx_hash, proof })),
    {
        Tx::Onchain(OnchainTx { imt_mutate, prev_tx_hash, proof })
    }

    pub fn hash(&self) -> (r: [u8; 32])
        ensures
            r@ == spec_tx_hash(*self),
    {
        match self {
            Tx::Offchain(o) => o.hash(),
            Tx::Onchain(o) => o.hash(),
        }
    }

    /// Apply this transaction's mutation to `old_root` and return the new
    /// root, or the error naming the coherence check that failed.
    pub fn verify_imt_mutate(&self, old_root: &[u8; 32]) -> (r: Result<[u8; 32], BatchError>)
        requires
            spec_mutate_wf(spec_tx_mutate(*self)),
        ensures
            match r {
                Ok(root) => spec_mutate_apply(spec_tx_mutate(*self), old_root@) == Ok::<
                    Seq<u8>,
                    BatchError,
                >(root@),
                Err(e) => spec_mutate_apply(spec_tx_mutate(*self), old_root@) == Err::<
                    Seq<u8>,
                    BatchError,
                >(e),
            },
    {
        match self {
            Tx::Offchain(o) => o.imt_mutate.apply(*old_root),
            Tx::Onchain(o) => o.imt_mutate.apply(*old_root),
        }
    }
}

} // verus!
