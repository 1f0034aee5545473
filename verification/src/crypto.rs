//! The trusted boundary of the crate: every call into an outside
//! cryptographic crate goes through exactly one wrapper in this module.
//! Each wrapper's result is a pure function of its arguments, so it is
//! given a name (an uninterpreted spec function) that the callers'
//! contracts are stated over.
use vstd::prelude::*;

verus! {

/// The Keccak-256 digest of a byte string.
pub uninterp spec fn keccak256_of(data: Seq<u8>) -> Seq<u8>;

/// The SHA-256 digest of a byte string.
pub uninterp spec fn sha256_of(data: Seq<u8>) -> Seq<u8>;

/// The public key recovered from an ECDSA signature over the secp256k1
/// curve, as 64 bytes of uncompressed point coordinates, or `None` where
/// the signature, recovery id or message allow no recovery.
pub uninterp spec fn ecrecover_of(sig: Seq<u8>, recid: u8, msg: Seq<u8>) -> Option<Seq<u8>>;

/// The big-endian byte encoding, in shortest form (a single zero byte
/// for zero), of the integer a decimal string denotes, or `None` where
/// num_bigint's decimal parsing rejects the string (it accepts digits
/// with a possible leading plus sign and embedded underscores).
pub uninterp spec fn decimal_be_bytes_of(s: Seq<char>) -> Option<Seq<u8>>;

/// Relies on tiny_keccak's `Keccak::v256`, `Hasher::update` and
/// `Hasher::finalize`: the Keccak-256 digest of `data`, 32 bytes that
/// depend on `data` alone.
#[verifier::external_body]
pub(crate) fn keccak256(data: &[u8]) -> (r: [u8; 32])
    ensures
        r@ == keccak256_of(data@),
{
    let mut k = tiny_keccak::Keccak::v256();
    let mut out = [0u8; 32];
    tiny_keccak::Hasher::update(&mut k, data);
    tiny_keccak::Hasher::finalize(k, &mut out);
    out
}

/// Relies on sha2's `Sha256::digest`: the SHA-256 digest of `data`, 32
/// bytes that depend on `data` alone.
#[verifier::external_body]
pub(crate) fn sha256(data: &[u8]) -> (r: [u8; 32])
    ensures
        r@ == sha256_of(data@),
{
    let digest = <sha2::Sha256 as sha2::Digest>::digest(data);
    digest.into()
}

/// Relies on k256's `Signature::from_slice`, `RecoveryId::from_byte` and
/// `VerifyingKey::recover_from_prehash`, plus `to_encoded_point` to strip
/// the uncompressed-point tag byte: deterministic public-key recovery,
/// `None` where any of the three steps rejects its input.
#[verifier::external_body]
pub(crate) fn ecrecover(sig: &[u8; 64], recid: u8, msg: &[u8; 32]) -> (r: Option<[u8; 64]>)
    ensures
        match r {
            Some(pk) => ecrecover_of(sig@, recid, msg@) == Some(pk@),
            None => ecrecover_of(sig@, recid, msg@) is None,
        },
{
    let signature = k256::ecdsa::Signature::from_slice(sig).ok()?;
    let recovery_id = k256::ecdsa::RecoveryId::from_byte(recid)?;
    let key = k256::ecdsa::VerifyingKey::recover_from_prehash(msg, &signature, recovery_id).ok()?;
    let point = key.to_encoded_point(false);
    <[u8; 64]>::try_from(&point.as_bytes()[1..]).ok()
}

/// Relies on num_bigint's `BigUint::from_str_radix` (radix 10) and
/// `BigUint::to_bytes_be`: the big-endian bytes of the integer the
/// decimal string denotes, `None` where parsing rejects the string.
#[verifier::external_body]
pub(crate) fn decimal_to_be_bytes(s: &str) -> (r: Option<Vec<u8>>)
    ensures
        match r {
            Some(b) => decimal_be_bytes_of(s@) == Some(b@),
            None => decimal_be_bytes_of(s@) is None,
        },
{
    match <num_bigint::BigUint as num_traits::Num>::from_str_radix(s, 10) {
        Ok(n) => Some(n.to_bytes_be()),
        Err(_) => None,
    }
}

/// Relies on gnark_bn254_verifier's `verify` in its PLONK mode, with the
/// two public inputs lifted into the scalar field by num_bigint's
/// `BigUint::from_str_radix` / `BigUint::from_bytes_be` and ark_bn254's
/// `Fr::from`; `false` where the verifier-key hash string does not parse.
/// The verdict is not a function of the arguments: the verifier's batched
/// pairing check folds the openings with fresh operating-system
/// randomness, so on an adversarial proof two calls may disagree.
/// Nothing is therefore promised of the result; callers state what holds
/// of every outcome. `verify` also unwraps its two private byte-loaders,
/// which index the buffers at data-dependent offsets and reject invalid
/// curve points, so it panics on byte strings they do not accept, as the
/// verifier it wraps does; gnark exposes no panic-free way to test that
/// condition, so no caller could discharge a `requires` that names it,
/// and the callers stay total.
#[verifier::external_body]
pub(crate) fn plonk_verify(proof: &[u8], vk: &[u8], vk_hash_dec: &str, digest: &[u8; 32]) -> bool {
    let vk_hash = match <num_bigint::BigUint as num_traits::Num>::from_str_radix(vk_hash_dec, 10) {
        Ok(n) => n,
        Err(_) => return false,
    };
    let digest_num = num_bigint::BigUint::from_bytes_be(digest);
    gnark_bn254_verifier::verify(
        proof,
        vk,
        &[gnark_bn254_verifier::Fr::from(vk_hash), gnark_bn254_verifier::Fr::from(digest_num)],
        gnark_bn254_verifier::ProvingSystem::Plonk,
    )
}

} // verus!
