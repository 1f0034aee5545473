use keyspace::errors::BatchError;
use keyspace::imt::mutate::IMTMutate;
use keyspace::imt::node::IMTNode;
use keyspace::imt::{imt_root, node_exists};

fn keccak(parts: &[&[u8]]) -> [u8; 32] {
    let mut k = tiny_keccak::Keccak::v256();
    for p in parts {
        tiny_keccak::Hasher::update(&mut k, p);
    }
    let mut out = [0u8; 32];
    tiny_keccak::Hasher::finalize(k, &mut out);
    out
}

fn node(index: u64, key: u8, value: u8, next: u8) -> IMTNode {
    IMTNode { index, key: [key; 32], value_hash: [value; 32], next_key: [next; 32] }
}

#[test]
fn node_hash_matches_keccak_of_fields() {
    let n = node(5, 1, 42, 3);
    let expected = keccak(&[&n.key, &n.value_hash, &n.next_key]);
    assert_eq!(n.hash(), expected);
}

#[test]
fn imt_root_matches_manual_fold() {
    let n = node(1, 1, 42, 0);
    let sib = [7u8; 32];
    let siblings = vec![Some(sib), None];

    // index 1 is odd at the first level: sibling left, node right.
    let l1 = keccak(&[&sib, &n.hash()]);
    // index 0 at the second level, no sibling: hash the present side alone.
    let l2 = keccak(&[&l1]);
    let expected = keccak(&[&l2, &3u64.to_be_bytes()]);

    assert_eq!(imt_root(3, &n, &siblings), expected);
    assert!(node_exists(&expected, 3, &n, &siblings));
    assert!(!node_exists(&expected, 4, &n, &siblings));
}

#[test]
fn imt_root_differs_for_consecutive_sizes() {
    let n = node(0, 1, 42, 0);
    let siblings = vec![None, Some([9u8; 32])];
    for size in [0u64, 1, 2, 1000] {
        assert_ne!(imt_root(size, &n, &siblings), imt_root(size + 1, &n, &siblings));
    }
}

#[test]
fn is_ln_of_is_strict() {
    let ln = node(1, 1, 42, 3);
    // A candidate strictly between key and next key is accepted.
    assert!(ln.is_ln_of(&node(2, 2, 0, 0)));
    // A candidate at or below the low nullifier's key is never accepted.
    assert!(!ln.is_ln_of(&node(2, 1, 0, 0)));
    assert!(!ln.is_ln_of(&node(2, 0, 0, 0)));
    // A closer successor invalidates the claim: next key at or below the
    // candidate refuses it.
    assert!(!ln.is_ln_of(&node(2, 3, 0, 0)));
    assert!(!ln.is_ln_of(&node(2, 4, 0, 0)));
    // The maximum member (zero sentinel next key) accepts anything above.
    let max = node(1, 1, 42, 0);
    assert!(max.is_ln_of(&node(2, 200, 0, 0)));
}

#[test]
fn update_apply_rejects_stale_root() {
    let m = IMTMutate::update([5u8; 32], 1, node(0, 0, 0, 1), vec![None], [9u8; 32]);
    assert_eq!(m.apply([6u8; 32]), Err(BatchError::StaleRoot));
}

#[test]
fn update_apply_rejects_non_member() {
    let root = [5u8; 32];
    let m = IMTMutate::update(root, 1, node(0, 0, 0, 1), vec![None], [9u8; 32]);
    assert_eq!(m.apply(root), Err(BatchError::NonMemberUpdate));
}

#[test]
fn insert_apply_rejects_invalid_low_nullifier() {
    let root = [5u8; 32];
    // The claimed low nullifier's key is not below the inserted key.
    let m = IMTMutate::insert(
        root,
        1,
        node(0, 7, 0, 0),
        vec![None],
        node(1, 2, 42, 0),
        vec![None],
        vec![None],
    );
    assert_eq!(m.apply(root), Err(BatchError::InvalidLowNullifier));
}
