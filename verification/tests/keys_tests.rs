use keyspace::{
    hash_storage, keyspace_key, keyspace_key_from_storage, keyspace_key_from_storage_hash,
    words_to_bytes_le,
};

fn keccak(parts: &[&[u8]]) -> [u8; 32] {
    let mut k = tiny_keccak::Keccak::v256();
    for p in parts {
        tiny_keccak::Hasher::update(&mut k, p);
    }
    let mut out = [0u8; 32];
    tiny_keccak::Hasher::finalize(k, &mut out);
    out
}

#[test]
fn keyspace_key_is_deterministic() {
    let vk = [0x11u8; 32];
    let sh = [0x22u8; 32];
    let a = keyspace_key_from_storage_hash(&vk, &sh);
    let b = keyspace_key_from_storage_hash(&vk, &sh);
    assert_eq!(a, b);
    assert_eq!(a.len(), 32);

    let vk_words = [1u32, 2, 3, 4, 5, 6, 7, 8];
    let data = [0x33u8; 256];
    assert_eq!(keyspace_key(&vk_words, &data), keyspace_key(&vk_words, &data));
}

#[test]
fn keyspace_key_from_storage_hash_matches_keccak() {
    let vk = [0x11u8; 32];
    let sh = [0x22u8; 32];
    // The storage hash comes first, then the verifying-key hash.
    assert_eq!(keyspace_key_from_storage_hash(&vk, &sh), keccak(&[&sh, &vk]));
    // Swapped inputs give a different key: the order is part of the scheme.
    assert_ne!(keyspace_key_from_storage_hash(&vk, &sh), keccak(&[&vk, &sh]));
}

#[test]
fn keyspace_key_from_storage_hashes_the_blob_first() {
    let vk = [0x11u8; 32];
    let storage = [5u8, 6, 7];
    let sh = keccak(&[&storage]);
    assert_eq!(hash_storage(&storage), sh);
    assert_eq!(keyspace_key_from_storage(&vk, &storage), keccak(&[&sh, &vk]));
}

#[test]
fn keyspace_key_binds_fingerprint_and_data_hash() {
    let vk_words = [0x01020304u32, 0, 0, 0, 0, 0, 0, 0x0a0b0c0d];
    let data = [0x2au8; 256];
    let mut fingerprint_bytes = Vec::new();
    for w in vk_words.iter() {
        fingerprint_bytes.extend_from_slice(&w.to_le_bytes());
    }
    let data_hash = keccak(&[&data]);
    let expected = keccak(&[&fingerprint_bytes, &data_hash]);
    assert_eq!(keyspace_key(&vk_words, &data), expected);
}

#[test]
fn words_serialize_little_endian() {
    let words = [0x01020304u32, 0xa0b0c0d0];
    assert_eq!(
        words_to_bytes_le(&words),
        vec![0x04, 0x03, 0x02, 0x01, 0xd0, 0xc0, 0xb0, 0xa0]
    );
    assert_eq!(words_to_bytes_le(&[]), Vec::<u8>::new());
}
