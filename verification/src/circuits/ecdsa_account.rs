//! The ECDSA account program: its inputs commit to a hash of the new key
//! and the owner public key, and the program checks that hash and that
//! the signature over the new key recovers exactly that public key.
use vstd::prelude::*;

use crate::bytes::{eq32, eq64, extend_bytes};
use crate::crypto::{ecrecover, ecrecover_of, sha256, sha256_of};
use crate::errors::RecordError;

verus! {

pub struct KPublicKey(pub [u8; 64]);

pub struct KSignature {
    pub sig: [u8; 64],
    pub recid: u8,
}

impl KSignature {
    /// Recover the public key that signed the 32-byte message hash, or
    /// `None` where the signature admits no recovery.
    pub fn ecrecover(&self, msg: &[u8; 32]) -> (r: Option<[u8; 64]>)
        ensures
            match r {
                Some(pk) => ecrecover_of(self.sig@, self.recid, msg@) == Some(pk@),
                None => ecrecover_of(self.sig@, self.recid, msg@) is None,
            },
    {
        ecrecover(&self.sig, self.recid, msg)
    }
}

pub struct Inputs {
    pub_inputs_hash: [u8; 32],
    new_key: [u8; 32],
    pk: KPublicKey,
    sig: KSignature,
}

/// The public-inputs hash of the account program: the hash of the new key
/// followed by the owner public key.
pub open spec fn spec_pub_hash(new_key: Seq<u8>, pk: Seq<u8>) -> Seq<u8> {
    sha256_of(new_key + pk)
}

impl Inputs {
    pub closed spec fn spec_pub_inputs_hash(self) -> Seq<u8> {
        self.pub_inputs_hash@
    }

    pub closed spec fn spec_new_key(self) -> Seq<u8> {
        self.new_key@
    }

    pub closed spec fn spec_pk(self) -> Seq<u8> {
        self.pk.0@
    }

    pub closed spec fn spec_sig(self) -> (Seq<u8>, u8) {
        (self.sig.sig@, self.sig.recid)
    }

    /// Build the inputs, committing to the hash of the new key and the
    /// public key.
    pub fn new(new_key: [u8; 32], pk: KPublicKey, sig: KSignature) -> (r: Self)
        ensures
            r.spec_new_key() == new_key@,
            r.spec_pk() == pk.0@,
            r.spec_sig() == (sig.sig@, sig.recid),
            r.spec_pub_inputs_hash() == spec_pub_hash(new_key@, pk.0@),
    {
        let pub_inputs_hash = Inputs::pub_hash(&new_key, &pk);
        Self { new_key, pk, sig, pub_inputs_hash }
    }

    /// Rebuild inputs from wire values, taking the committed hash as it
    /// was declared: the program itself checks it against the recomputed
    /// one.
    pub fn from_parts(
        pub_inputs_hash: [u8; 32],
        new_key: [u8; 32],
        pk: KPublicKey,
        sig: KSignature,
    ) -> (r: Self)
        ensures
            r.spec_new_key() == new_key@,
            r.spec_pk() == pk.0@,
            r.spec_sig() == (sig.sig@, sig.recid),
            r.spec_pub_inputs_hash() == pub_inputs_hash@,
    {
        Self { new_key, pk, sig, pub_inputs_hash }
    }

    /// The value the program commits to as its public inputs.
    pub fn to_commit(&self) -> (r: &[u8; 32])
        ensures
            r@ == self.spec_pub_inputs_hash(),
    {
        &self.pub_inputs_hash
    }

    /// The public-inputs hash recomputed from the new key and public key.
    pub fn expected_pub_hash(&self) -> (r: [u8; 32])
        ensures
            r@ == spec_pub_hash(self.spec_new_key(), self.spec_pk()),
    {
        Inputs::pub_hash(&self.new_key, &self.pk)
    }

    fn pub_hash(new_key: &[u8; 32], pk: &KPublicKey) -> (r: [u8; 32])
        ensures
            r@ == spec_pub_hash(new_key@, pk.0@),
    {
        let mut preimage: Vec<u8> = Vec::new();
        extend_bytes(&mut preimage, new_key);
        extend_bytes(&mut preimage, &pk.0);
        sha256(preimage.as_slice())
    }
}

/// What the account program checks: the committed hash must match the
/// recomputed one, and the signature over the new key must recover the
/// declared public key.
pub open spec fn spec_account_check(inputs: Inputs) -> Result<(), RecordError> {
    if inputs.spec_pub_inputs_hash() != spec_pub_hash(inputs.spec_new_key(), inputs.spec_pk()) {
        Err(RecordError::PublicInputsMismatch)
    } else {
        match ecrecover_of(inputs.spec_sig().0, inputs.spec_sig().1, inputs.spec_new_key()) {
            None => Err(RecordError::RecoveryFailed),
            Some(pk) => if pk == inputs.spec_pk() {
                Ok(())
            } else {
                Err(RecordError::OwnerMismatch)
            },
        }
    }
}

/// The account program's inputs in wire form, as the proving scripts
/// write them: the committed hash, the new key, and the raw public-key
/// and signature bytes.
pub struct ECDSAAccoutProgramInputs {
    pub inputs_hash: [u8; 32],
    pub new_key: [u8; 32],
    pub pk: Vec<u8>,
    pub sig: Vec<u8>,
}

pub struct Circuit;

impl Circuit {
    pub fn run(inputs: &Inputs) -> (r: Result<(), RecordError>)
        ensures
            match r {
                Ok(()) => spec_account_check(*inputs) == Ok::<(), RecordError>(()),
                Err(e) => spec_account_check(*inputs) == Err::<(), RecordError>(e),
            },
    {
        let pub_hash = inputs.expected_pub_hash();
        if !eq32(&inputs.pub_inputs_hash, &pub_hash) {
            return Err(RecordError::PublicInputsMismatch);
        }
        let recovered_key = match inputs.sig.ecrecover(&inputs.new_key) {
            Some(pk) => pk,
            None => {
                return Err(RecordError::RecoveryFailed);
            },
        };
        if !eq64(&inputs.pk.0, &recovered_key) {
            return Err(RecordError::OwnerMismatch);
        }
        Ok(())
    }
}

} // verus!
