use keyspace::circuits::aggregator;
use keyspace::circuits::batch::program::Program as BatchProgram;
use keyspace::circuits::batch::record_proof::RecordProof;
use keyspace::circuits::batch::tx::Tx as BatchTx;
use keyspace::circuits::ecdsa_account;
use keyspace::circuits::ecdsa_record::current_data::CurrentData;
use keyspace::circuits::ecdsa_record::program::Program as BlobRecordProgram;
use keyspace::circuits::multisig_record::inputs::{serialize_signers, Inputs as MultisigInputs};
use keyspace::circuits::multisig_record::k_signature::KSignature as MultisigSignature;
use keyspace::circuits::multisig_record::program::Program as MultisigProgram;
use keyspace::circuits::ecdsa_record::k_public_key::KPublicKey;
use keyspace::builder::Imt;
use keyspace::ecdsa_record::inputs::Inputs as RecordInputs;
use keyspace::ecdsa_record::k_signature::KSignature;
use keyspace::ecdsa_record::program::Program as RecordProgram;
use keyspace::errors::RecordError;
use keyspace::keyspace_key_from_storage;

fn keccak(parts: &[&[u8]]) -> [u8; 32] {
    let mut k = tiny_keccak::Keccak::v256();
    for p in parts {
        tiny_keccak::Hasher::update(&mut k, p);
    }
    let mut out = [0u8; 32];
    tiny_keccak::Hasher::finalize(k, &mut out);
    out
}

fn signing_key(seed: u8) -> k256::ecdsa::SigningKey {
    k256::ecdsa::SigningKey::from_slice(&[seed; 32]).unwrap()
}

fn public_key_bytes(sk: &k256::ecdsa::SigningKey) -> [u8; 64] {
    let point = sk.verifying_key().to_encoded_point(false);
    point.as_bytes()[1..].try_into().unwrap()
}

fn sign(sk: &k256::ecdsa::SigningKey, msg: &[u8; 32]) -> ([u8; 64], u8) {
    let (sig, recid) = sk.sign_prehash_recoverable(msg).unwrap();
    (sig.to_bytes().into(), recid.to_byte())
}

#[test]
fn ecrecover_round_trip() {
    let sk = signing_key(7);
    let msg = [0x5au8; 32];
    let (sig, recid) = sign(&sk, &msg);
    let k = KSignature { sig, recid };
    assert_eq!(k.ecrecover(&msg), Some(public_key_bytes(&sk)));
    // A signature over another message recovers a different key.
    let other = [0x5bu8; 32];
    assert_ne!(k.ecrecover(&other), Some(public_key_bytes(&sk)));
}

#[test]
fn ecrecover_rejects_a_zero_signature() {
    let k = KSignature { sig: [0u8; 64], recid: 0 };
    assert_eq!(k.ecrecover(&[1u8; 32]), None);
}

#[test]
fn ecdsa_record_program_accepts_a_bound_update() {
    let sk = signing_key(9);
    let pk = public_key_bytes(&sk);
    let vk_hash = [0x11u8; 32];
    let keyspace_id = [0x22u8; 32];
    let new_key = [0x33u8; 32];

    let msg = keccak(&[&keyspace_id, &new_key]);
    let (sig, recid) = sign(&sk, &msg);

    let current_key = keyspace_key_from_storage(&vk_hash, &pk);
    let inputs = RecordInputs {
        keyspace_id,
        current_key,
        new_key,
        sig: KSignature { sig, recid },
        vk_hash,
    };
    assert_eq!(RecordProgram::run(&inputs), Ok(()));

    // Tampering with the declared current key is caught.
    let mut bad = inputs;
    bad.current_key = [0x44u8; 32];
    assert_eq!(RecordProgram::run(&bad), Err(RecordError::CurrentKeyMismatch));
}

#[test]
fn ecdsa_account_circuit_checks_hash_and_signature() {
    let sk = signing_key(11);
    let pk = ecdsa_account::KPublicKey(public_key_bytes(&sk));
    let new_key = [42u8; 32];
    let (sig, recid) = sign(&sk, &new_key);
    let inputs =
        ecdsa_account::Inputs::new(new_key, pk, ecdsa_account::KSignature { sig, recid });
    assert_eq!(ecdsa_account::Circuit::run(&inputs), Ok(()));

    let other = signing_key(12);
    let inputs2 = ecdsa_account::Inputs::new(
        new_key,
        ecdsa_account::KPublicKey(public_key_bytes(&other)),
        ecdsa_account::KSignature { sig, recid },
    );
    assert_eq!(ecdsa_account::Circuit::run(&inputs2), Err(RecordError::OwnerMismatch));
}

#[test]
fn ecdsa_account_circuit_rejects_a_tampered_committed_hash() {
    let sk = signing_key(15);
    let pk = ecdsa_account::KPublicKey(public_key_bytes(&sk));
    let new_key = [42u8; 32];
    let (sig, recid) = sign(&sk, &new_key);
    let inputs = ecdsa_account::Inputs::from_parts(
        [0u8; 32],
        new_key,
        pk,
        ecdsa_account::KSignature { sig, recid },
    );
    assert_eq!(ecdsa_account::Circuit::run(&inputs), Err(RecordError::PublicInputsMismatch));
}

#[test]
fn record_program_reports_a_failed_recovery() {
    let inputs = RecordInputs {
        keyspace_id: [1u8; 32],
        current_key: [2u8; 32],
        new_key: [3u8; 32],
        sig: KSignature { sig: [0u8; 64], recid: 0 },
        vk_hash: [4u8; 32],
    };
    assert_eq!(RecordProgram::run(&inputs), Err(RecordError::RecoveryFailed));
}

#[test]
fn blob_record_program_checks_the_embedded_owner() {
    let sk = signing_key(13);
    let pk = public_key_bytes(&sk);
    let new_key = [42u8; 32];
    let (sig, recid) = sign(&sk, &new_key);

    let mut blob = [0u8; 256];
    blob[..64].copy_from_slice(&pk);
    let inputs = keyspace::circuits::ecdsa_record::inputs::Inputs {
        current_data: CurrentData(blob),
        new_key,
        sig: KSignature { sig, recid },
    };
    assert_eq!(inputs.public_key(), &pk[..]);
    assert_eq!(BlobRecordProgram::run(&inputs), Ok(()));

    let mut wrong = [0u8; 256];
    wrong[..64].copy_from_slice(&public_key_bytes(&signing_key(14)));
    let inputs2 = keyspace::circuits::ecdsa_record::inputs::Inputs {
        current_data: CurrentData(wrong),
        new_key,
        sig: KSignature { sig, recid },
    };
    assert_eq!(BlobRecordProgram::run(&inputs2), Err(RecordError::OwnerMismatch));
}

#[test]
fn multisig_program_enforces_owners_and_threshold() {
    let owner0 = signing_key(21);
    let owner1 = signing_key(22);
    let new_key = [42u8; 32];

    // The blob's first 64 bytes hold the threshold as a big-endian
    // integer; owner keys follow from byte 64, one slot per owner index.
    let signers = [KPublicKey(public_key_bytes(&owner0)), KPublicKey(public_key_bytes(&owner1))];

    let (sig0, recid0) = sign(&owner0, &new_key);
    let (sig1, recid1) = sign(&owner1, &new_key);
    let signatures = vec![
        MultisigSignature { owner_index: 0, sig: sig0, recid: recid0 },
        MultisigSignature { owner_index: 1, sig: sig1, recid: recid1 },
    ];
    let inputs = MultisigInputs::new(&signers, 2, new_key, signatures).unwrap();
    assert_eq!(MultisigProgram::run(&inputs), Ok(()));

    // One signer twice does not meet a threshold of two distinct owners.
    let (sig0b, recid0b) = sign(&owner0, &new_key);
    let dup = vec![
        MultisigSignature { owner_index: 0, sig: sig0, recid: recid0 },
        MultisigSignature { owner_index: 0, sig: sig0b, recid: recid0b },
    ];
    let inputs2 = MultisigInputs::new(&signers, 2, new_key, dup).unwrap();
    assert_eq!(MultisigProgram::run(&inputs2), Err(RecordError::ThresholdNotMet));

    // A signature claiming the wrong owner slot is caught.
    let swapped = vec![MultisigSignature { owner_index: 1, sig: sig0, recid: recid0 }];
    let inputs3 = MultisigInputs::new(&signers, 2, new_key, swapped).unwrap();
    assert_eq!(MultisigProgram::run(&inputs3), Err(RecordError::OwnerMismatch));

    // An owner slot outside the blob is refused.
    let out_of_range = vec![MultisigSignature { owner_index: 3, sig: sig0, recid: recid0 }];
    let inputs4 = MultisigInputs::new(&signers, 2, new_key, out_of_range).unwrap();
    assert_eq!(MultisigProgram::run(&inputs4), Err(RecordError::BadOwnerIndex));
}

#[test]
fn serialize_signers_packs_at_most_three() {
    let sk = signing_key(31);
    let pk = KPublicKey(public_key_bytes(&sk));
    assert!(serialize_signers(&[pk], 1).is_ok());

    let four = [
        KPublicKey([1u8; 64]),
        KPublicKey([2u8; 64]),
        KPublicKey([3u8; 64]),
        KPublicKey([4u8; 64]),
    ];
    assert!(serialize_signers(&four, 1).is_err());
}

#[test]
fn aggregator_commits_and_requests_verification() {
    let v_key = [1u32, 2, 3, 4, 5, 6, 7, 8];
    let pub_hash = [0x2au8; 32];
    let inputs = aggregator::Inputs::new(v_key, pub_hash);
    assert_eq!(inputs.to_commit().v_key, v_key);
    assert_eq!(inputs.to_commit().account_pub_hash, pub_hash);

    let req = aggregator::Circuit::run(&inputs);
    assert_eq!(req.vk_hash, v_key);
    let expected: [u8; 32] = <sha2::Sha256 as sha2::Digest>::digest(&pub_hash).into();
    assert_eq!(req.public_values_digest, expected);
}

#[test]
fn record_bound_batch_applies_and_unbound_skips() {
    let mut imt = Imt::new(8);
    let v_key = [1u32, 2, 3, 4, 5, 6, 7, 8];
    let mut pub_inputs = vec![0u8; 288];
    pub_inputs[0] = 0x77;
    let record_proof = RecordProof { v_key, pub_inputs };

    let mut blob = [0u8; 256];
    blob[0] = 0x77;
    let keyspace_id = keyspace::keyspace_key(&v_key, &blob);

    // A mutation whose created key is derived from the proof is bound, so
    // applying its transaction moves the root.
    let r0 = imt.root;
    let m = imt.insert_node(keyspace_id, [0x2a; 32]).unwrap();
    let r1 = imt.root;
    let tx = BatchTx { record_proof, imt_mutate: m };
    assert!(tx.imt_mutate.is_bound_to_proof(&tx.record_proof));
    assert_eq!(tx.apply(r0), Ok(r1));

    // A mutation bound to a different key is skipped: the root is
    // returned unchanged.
    let m2 = imt.update_node(keyspace_id, [0x2b; 32]).unwrap();
    let unrelated = RecordProof { v_key, pub_inputs: vec![1u8; 288] };
    let tx2 = BatchTx { record_proof: unrelated, imt_mutate: m2 };
    assert!(!tx2.imt_mutate.is_bound_to_proof(&tx2.record_proof));
    assert_eq!(tx2.apply(r1), Ok(r1));

    // The record batch program folds bound transactions to the declared
    // root.
    let mut imt2 = Imt::new(8);
    let old_root = imt2.root;
    let m3 = imt2.insert_node(keyspace_id, [0x2a; 32]).unwrap();
    let new_root = imt2.root;
    let record_proof = RecordProof { v_key, pub_inputs: {
        let mut v = vec![0u8; 288];
        v[0] = 0x77;
        v
    } };
    let inputs = keyspace::circuits::batch::inputs::Inputs {
        old_root,
        new_root,
        txs: vec![BatchTx { record_proof, imt_mutate: m3 }],
    };
    assert_eq!(BatchProgram::run(&inputs), Ok(new_root));

    // RecordProof exposes its data blob and new key by fixed offsets.
    let mut layout = vec![0u8; 300];
    layout[0] = 0xaa;
    layout[256] = 0xbb;
    let rp = RecordProof { v_key, pub_inputs: layout };
    assert_eq!(rp.current_data()[0], 0xaa);
    assert_eq!(rp.current_data().len(), 256);
    assert_eq!(rp.new_key()[0], 0xbb);
}
