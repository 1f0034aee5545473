//! An authenticated key-value index ("keyspace") backed by an indexed
//! Merkle tree, and the batch protocol that folds an ordered list of
//! proof-bound mutations into a new root and a chained transaction hash.
//!
//! The crate root holds the keyspace key derivations: the derived key
//! binds an owner verifying-key fingerprint and a content digest into one
//! lookup key of the tree's key domain.
use vstd::prelude::*;

pub mod batcher;
pub mod builder;
pub mod bytes;
pub mod circuits;
pub mod ecdsa_record;
pub mod crypto;
pub mod errors;
pub mod imt;

use crate::bytes::{extend_bytes, spec_u32_le};
use crate::crypto::{keccak256, keccak256_of};

verus! {

/// The little-endian byte encoding of a sequence of 32-bit words.
pub open spec fn spec_words_le(words: Seq<u32>) -> Seq<u8>
    decreases words.len(),
{
    if words.len() == 0 {
        Seq::empty()
    } else {
        spec_u32_le(words[0]) + spec_words_le(words.drop_first())
    }
}

pub proof fn lemma_spec_words_le_push(words: Seq<u32>, w: u32)
    ensures
        spec_words_le(words.push(w)) == spec_words_le(words) + spec_u32_le(w),
    decreases words.len(),
{
    let p = words.push(w);
    assert(p.len() == words.len() + 1);
    assert(p[0] == if words.len() == 0 {
        w
    } else {
        words[0]
    });
    if words.len() == 0 {
        assert(p.drop_first() =~= Seq::<u32>::empty());
        assert(spec_words_le(p) == spec_u32_le(w) + spec_words_le(Seq::<u32>::empty()));
        assert(spec_u32_le(w) + Seq::<u8>::empty() =~= spec_u32_le(w));
        assert(Seq::<u8>::empty() + spec_u32_le(w) =~= spec_u32_le(w));
    } else {
        assert(p.drop_first() =~= words.drop_first().push(w));
        lemma_spec_words_le_push(words.drop_first(), w);
        assert(spec_words_le(p) == spec_u32_le(words[0]) + (spec_words_le(words.drop_first())
            + spec_u32_le(w)));
        assert(spec_u32_le(words[0]) + (spec_words_le(words.drop_first()) + spec_u32_le(w)) =~= (
        spec_u32_le(words[0]) + spec_words_le(words.drop_first())) + spec_u32_le(w));
    }
}

/// Serialize 32-bit words into bytes, each word little-endian.
pub fn words_to_bytes_le(words: &[u32]) -> (r: Vec<u8>)
    ensures
        r@ == spec_words_le(words@),
{
    let mut out: Vec<u8> = Vec::new();
    let mut i: usize = 0;
    proof {
        assert(words@.take(0) =~= Seq::<u32>::empty());
    }
    while i < words.len()
        invariant
            i <= words@.len(),
            out@ == spec_words_le(words@.take(i as int)),
        decreases words@.len() - i,
    {
        let w = words[i];
        out.push((w & 0xff) as u8);
        out.push(((w >> 8) & 0xff) as u8);
        out.push(((w >> 16) & 0xff) as u8);
        out.push(((w >> 24) & 0xff) as u8);
        proof {
            assert(words@.take(i as int).push(w) =~= words@.take(i as int + 1));
            lemma_spec_words_le_push(words@.take(i as int), w);
            assert(out@ =~= spec_words_le(words@.take(i as int)) + spec_u32_le(w));
        }
        i += 1;
    }
    proof {
        assert(words@.take(words@.len() as int) =~= words@);
    }
    out
}

/// The content hash of an owner data blob.
fn current_data_hash(current_data: &[u8; 256]) -> (r: [u8; 32])
    ensures
        r@ == keccak256_of(current_data@),
{
    keccak256(current_data.as_slice())
}

/// Derive a keyspace key from a verifying-key fingerprint (eight 32-bit
/// words) and an owner data blob: the hash of the fingerprint bytes
/// followed by the hash of the blob.
pub fn keyspace_key(vk_hash: &[u32; 8], current_data: &[u8; 256]) -> (r: [u8; 32])
    ensures
        r@ == keccak256_of(spec_words_le(vk_hash@) + keccak256_of(current_data@)),
{
    let mut preimage = words_to_bytes_le(vk_hash.as_slice());
    let data_hash = current_data_hash(current_data);
    extend_bytes(&mut preimage, &data_hash);
    keccak256(preimage.as_slice())
}

/// The hash of a raw storage blob.
pub fn hash_storage(storage: &[u8]) -> (r: [u8; 32])
    ensures
        r@ == keccak256_of(storage@),
{
    keccak256(storage)
}

/// Derive a keyspace key from a verifying-key hash and a raw storage
/// blob: the storage is hashed first, then bound to the verifying key.
pub fn keyspace_key_from_storage(vk_hash: &[u8; 32], storage: &[u8]) -> (r: [u8; 32])
    ensures
        r@ == keccak256_of(keccak256_of(storage@) + vk_hash@),
{
    let storage_hash = keccak256(storage);
    keyspace_key_from_storage_hash(vk_hash, &storage_hash)
}

/// Derive a keyspace key from a verifying-key hash and a storage hash:
/// the hash of the storage hash followed by the verifying-key hash.
pub fn keyspace_key_from_storage_hash(vk_hash: &[u8; 32], storage_hash: &[u8; 32]) -> (r: [u8; 32])
    ensures
        r@ == keccak256_of(storage_hash@ + vk_hash@),
{
    let mut preimage: Vec<u8> = Vec::new();
    extend_bytes(&mut preimage, storage_hash);
    extend_bytes(&mut preimage, vk_hash);
    keccak256(preimage.as_slice())
}

/// The key derivation is a pure function: equal fingerprints and equal
/// storage hashes always derive equal keyspace keys.
pub proof fn lemma_keyspace_key_deterministic(
    vk1: Seq<u8>,
    sh1: Seq<u8>,
    vk2: Seq<u8>,
    sh2: Seq<u8>,
)
    requires
        vk1 == vk2,
        sh1 == sh2,
    ensures
        keccak256_of(sh1 + vk1) == keccak256_of(sh2 + vk2),
{
}

} // verus!
