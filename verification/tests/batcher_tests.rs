use keyspace::batcher::inputs::Inputs;
use keyspace::batcher::program::Program;
use keyspace::batcher::proofs::plonk::PLONKProof;
use keyspace::batcher::proofs::sp1::{bytes_to_words_be, SP1Proof};
use keyspace::batcher::proofs::Proof;
use keyspace::batcher::tx::offchain::OffchainTx;
use keyspace::batcher::tx::onchain::OnchainTx;
use keyspace::batcher::tx::Tx;
use keyspace::builder::Imt;
use keyspace::errors::BatchError;
use keyspace::{hash_storage, keyspace_key_from_storage_hash};

fn keccak(parts: &[&[u8]]) -> [u8; 32] {
    let mut k = tiny_keccak::Keccak::v256();
    for p in parts {
        tiny_keccak::Hasher::update(&mut k, p);
    }
    let mut out = [0u8; 32];
    tiny_keccak::Hasher::finalize(k, &mut out);
    out
}

fn junk_plonk_proof() -> PLONKProof {
    PLONKProof {
        vk: Vec::new(),
        proof: vec![1, 2, 3, 4, 5],
        plonk_vk_hash: String::from("not a number"),
        zkvm_vk_hash: String::from("0"),
        storage_hash: [0xff; 32],
    }
}

#[test]
fn offchain_test_hash_insert() {
    let mut imt = Imt::new(8);

    let node_key = [1u8; 32];
    let node_value = [42u8; 32];
    let insert = imt.insert_node(node_key, node_value).unwrap();

    let sut = OffchainTx {
        imt_mutate: insert,
        prev_tx_hash: [0xff; 32],
        proof: Proof::sp1([0; 32], [0; 32]),
    };
    let hash = sut.hash();

    let expected_hash = keccak(&[&sut.prev_tx_hash, &node_key, &node_value]);
    assert_eq!(hash, expected_hash);
}

#[test]
fn offchain_test_hash_update() {
    let mut imt = Imt::new(8);

    let node_key = [1u8; 32];
    let node_value = [42u8; 32];
    imt.insert_node(node_key, node_value).unwrap();
    let node_value = [43u8; 32];
    let update = imt.update_node(node_key, node_value).unwrap();

    let offchain_tx = OffchainTx {
        imt_mutate: update,
        prev_tx_hash: [0xff; 32],
        proof: Proof::sp1([0; 32], [0; 32]),
    };
    let hash = offchain_tx.hash();

    let expected_hash = keccak(&[&offchain_tx.prev_tx_hash, &node_key, &node_value]);
    assert_eq!(hash, expected_hash);
}

#[test]
fn onchain_test_hash_insert() {
    let mut imt = Imt::new(8);

    let node_key = [1u8; 32];
    let node_value = [42u8; 32];
    let insert = imt.insert_node(node_key, node_value).unwrap();

    let sut = OnchainTx { imt_mutate: insert, prev_tx_hash: [0xff; 32], proof: junk_plonk_proof() };
    let hash = sut.hash();

    let expected_hash = keccak(&[&sut.prev_tx_hash, &node_key, &node_value, &sut.proof.proof]);
    assert_eq!(hash, expected_hash);
}

#[test]
fn onchain_test_hash_update() {
    let mut imt = Imt::new(8);

    let node_key = [1u8; 32];
    let node_value = [42u8; 32];
    imt.insert_node(node_key, node_value).unwrap();
    let node_value = [43u8; 32];
    let update = imt.update_node(node_key, node_value).unwrap();

    let offchain_tx =
        OnchainTx { imt_mutate: update, prev_tx_hash: [0xff; 32], proof: junk_plonk_proof() };
    let hash = offchain_tx.hash();

    let expected_hash = keccak(&[
        &offchain_tx.prev_tx_hash,
        &node_key,
        &node_value,
        &offchain_tx.proof.proof,
    ]);
    assert_eq!(hash, expected_hash);
}

#[test]
fn test_commit_to_proof_insert() {
    let mut imt = Imt::new(8);

    let record_vk_hash = [16u8; 32];
    let storage = [42u8; 32];
    let storage_hash = hash_storage(&storage);
    let keyspace_id = keyspace_key_from_storage_hash(&record_vk_hash, &storage_hash);

    let new_storage_hash = [16u8; 32];
    let new_key = keyspace_key_from_storage_hash(&record_vk_hash, &new_storage_hash);
    let insert = imt.insert_node(keyspace_id, new_key).unwrap();

    let sut = SP1Proof { record_vk_hash, storage_hash };

    let req = sut.commit_to_proof(&insert).unwrap();
    assert_eq!(req.vk_hash.to_vec(), bytes_to_words_be(&record_vk_hash));

    let mut pub_inputs = Vec::new();
    pub_inputs.extend_from_slice(&keyspace_id);
    pub_inputs.extend_from_slice(&keyspace_id);
    pub_inputs.extend_from_slice(&new_key);
    let expected_digest: [u8; 32] =
        <sha2::Sha256 as sha2::Digest>::digest(&pub_inputs).into();
    assert_eq!(req.public_values_digest, expected_digest);
}

#[test]
fn commit_to_proof_insert_unbound_vk_hash() {
    let mut imt = Imt::new(8);

    let record_vk_hash = [16u8; 32];
    let storage = [42u8; 32];
    let storage_hash = hash_storage(&storage);
    let keyspace_id = keyspace_key_from_storage_hash(&record_vk_hash, &storage_hash);

    let new_storage_hash = [16u8; 32];
    let new_key = keyspace_key_from_storage_hash(&record_vk_hash, &new_storage_hash);
    let insert = imt.insert_node(keyspace_id, new_key).unwrap();

    // An arbitrary verifying-key hash that does not derive the keyspace id.
    let sut = SP1Proof { record_vk_hash: [0xaa; 32], storage_hash };
    assert!(matches!(sut.commit_to_proof(&insert), Err(BatchError::UnboundProof)));
}

#[test]
fn commit_to_proof_update_unbound_vk_hash() {
    let mut imt = Imt::new(8);

    let record_vk_hash = [16u8; 32];
    let storage = [42u8; 32];
    let storage_hash = hash_storage(&storage);
    let keyspace_id = keyspace_key_from_storage_hash(&record_vk_hash, &storage_hash);

    let storage = [16u8; 32];
    let old_storage_hash = hash_storage(&storage);
    let new_key = keyspace_key_from_storage_hash(&record_vk_hash, &storage_hash);
    imt.insert_node(keyspace_id, new_key).unwrap();

    let storage = [5u8; 32];
    let storage_hash2 = hash_storage(&storage);
    let new_key = keyspace_key_from_storage_hash(&record_vk_hash, &storage_hash2);
    let update = imt.update_node(keyspace_id, new_key).unwrap();

    // The update's current key is the node's previous value hash, which
    // this verifying-key hash and storage hash do not derive.
    let sut = SP1Proof { record_vk_hash, storage_hash: old_storage_hash };
    assert!(matches!(sut.commit_to_proof(&update), Err(BatchError::UnboundProof)));
}

#[test]
fn batch_of_three_chains_roots_and_hashes() {
    let mut imt = Imt::new(8);
    let old_root = imt.root;
    let record_vk_hash = [16u8; 32];

    let mut txs = Vec::new();
    let mut tx_hash = [0u8; 32];
    for i in 0..3u8 {
        let storage_hash = hash_storage(&[i + 1; 32]);
        let keyspace_id = keyspace_key_from_storage_hash(&record_vk_hash, &storage_hash);
        let mutation = imt.insert_node(keyspace_id, [0x2a; 32]).unwrap();
        let tx = Tx::offchain(mutation, tx_hash, Proof::sp1(record_vk_hash, storage_hash));
        tx_hash = tx.hash();
        txs.push(tx);
    }
    let new_root = imt.root;

    let inputs = Inputs { old_root, new_root, new_tx_hash: tx_hash, txs };
    let out = Program::run(&inputs).unwrap();
    assert_eq!(out.new_root, new_root);
    assert_eq!(out.new_tx_hash, tx_hash);
    assert_eq!(out.sp1_requests.len(), 3);

    // Any other declared expected pair fails with the matching error.
    let bad_root = Inputs {
        old_root,
        new_root: [9u8; 32],
        new_tx_hash: tx_hash,
        txs: rebuild_three_txs(),
    };
    assert!(matches!(Program::run(&bad_root), Err(BatchError::FinalRootMismatch)));

    let bad_hash = Inputs {
        old_root,
        new_root,
        new_tx_hash: [9u8; 32],
        txs: rebuild_three_txs(),
    };
    assert!(matches!(Program::run(&bad_hash), Err(BatchError::FinalTxHashMismatch)));
}

fn rebuild_three_txs() -> Vec<Tx> {
    let mut imt = Imt::new(8);
    let record_vk_hash = [16u8; 32];
    let mut txs = Vec::new();
    let mut tx_hash = [0u8; 32];
    for i in 0..3u8 {
        let storage_hash = hash_storage(&[i + 1; 32]);
        let keyspace_id = keyspace_key_from_storage_hash(&record_vk_hash, &storage_hash);
        let mutation = imt.insert_node(keyspace_id, [0x2a; 32]).unwrap();
        let tx = Tx::offchain(mutation, tx_hash, Proof::sp1(record_vk_hash, storage_hash));
        tx_hash = tx.hash();
        txs.push(tx);
    }
    txs
}

#[test]
fn unbound_offchain_proof_aborts_the_batch() {
    let mut imt = Imt::new(8);
    let old_root = imt.root;
    let mutation = imt.insert_node([1u8; 32], [0x2a; 32]).unwrap();
    // The key was not derived from this proof's verifying key and storage
    // hash, so the proof is unbound and the must-apply class aborts.
    let tx = Tx::offchain(mutation, [0u8; 32], Proof::sp1([16u8; 32], [42u8; 32]));
    let new_tx_hash = tx.hash();
    let inputs = Inputs { old_root, new_root: imt.root, new_tx_hash, txs: vec![tx] };
    assert!(matches!(Program::run(&inputs), Err(BatchError::UnboundProof)));
}

#[test]
fn invalid_onchain_proof_skips_but_chains_hash() {
    let mut imt = Imt::new(8);
    let old_root = imt.root;
    let mutation = imt.insert_node([1u8; 32], [0x2a; 32]).unwrap();
    let tx = Tx::onchain(mutation, [0u8; 32], junk_plonk_proof());
    let new_tx_hash = tx.hash();
    // The may-skip class drops the write: the root is unchanged while the
    // transaction hash still advances.
    let inputs = Inputs { old_root, new_root: old_root, new_tx_hash, txs: vec![tx] };
    let out = Program::run(&inputs).unwrap();
    assert_eq!(out.new_root, old_root);
    assert_eq!(out.new_tx_hash, new_tx_hash);
    assert_eq!(out.sp1_requests.len(), 0);
}

#[test]
fn plonk_vk_hash_bytes_decodes_decimal_strings() {
    let expected = [0x11u8; 32];
    let decimal = num_bigint::BigUint::from_bytes_be(&expected).to_string();
    let mut p = junk_plonk_proof();
    p.plonk_vk_hash = decimal;
    assert_eq!(p.vk_hash_bytes(), Some(expected));

    p.plonk_vk_hash = String::from("7");
    assert_eq!(p.vk_hash_bytes(), None);

    p.plonk_vk_hash = String::from("not a number");
    assert_eq!(p.vk_hash_bytes(), None);
}

#[test]
fn bytes_to_words_be_reads_big_endian_words() {
    let bytes = [0x01u8, 0x02, 0x03, 0x04, 0xa0, 0xb0, 0xc0, 0xd0, 0xff];
    assert_eq!(bytes_to_words_be(&bytes), vec![0x01020304u32, 0xa0b0c0d0]);
    assert_eq!(bytes_to_words_be(&[1, 2]), Vec::<u32>::new());
}
