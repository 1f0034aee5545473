use keyspace::builder::Imt;
use keyspace::errors::BatchError;
use keyspace::imt::mutate::IMTMutate;

#[test]
fn three_records_replay_statelessly() {
    let mut imt = Imt::new(8);
    let r0 = imt.root;

    let m1 = imt.insert_node([1u8; 32], [0x2a; 32]).unwrap();
    let r1 = imt.root;
    let m2 = imt.insert_node([2u8; 32], [0x2a; 32]).unwrap();
    let r2 = imt.root;
    let m3 = imt.update_node([2u8; 32], [0x2b; 32]).unwrap();
    let r3 = imt.root;

    assert_ne!(r0, r1);
    assert_ne!(r1, r2);
    assert_ne!(r2, r3);

    // Stateless replay of the recorded mutations reproduces the roots the
    // live tree reported, in order.
    assert_eq!(m1.apply(r0), Ok(r1));
    assert_eq!(m2.apply(r1), Ok(r2));
    assert_eq!(m3.apply(r2), Ok(r3));

    // The second insertion's low nullifier is the first node.
    match &m2 {
        IMTMutate::Insert(ins) => {
            assert_eq!(ins.ln_node.key, [1u8; 32]);
            assert_eq!(ins.node.next_key, [0u8; 32]);
            assert_eq!(ins.old_size, 1);
        },
        IMTMutate::Update(_) => panic!("expected an insertion"),
    }
}

#[test]
fn replayed_mutation_rejects_stale_root() {
    let mut imt = Imt::new(8);
    let _ = imt.insert_node([1u8; 32], [0x2a; 32]).unwrap();
    let r1 = imt.root;
    let m2 = imt.insert_node([2u8; 32], [0x2a; 32]).unwrap();
    assert_eq!(m2.apply([0xaa; 32]), Err(BatchError::StaleRoot));
    assert!(m2.apply(r1).is_ok());
}

#[test]
fn tampered_sibling_path_is_rejected() {
    let mut imt = Imt::new(8);
    let _ = imt.insert_node([1u8; 32], [0x2a; 32]).unwrap();
    let r1 = imt.root;
    let m2 = imt.insert_node([2u8; 32], [0x2a; 32]).unwrap();
    match m2 {
        IMTMutate::Insert(mut ins) => {
            ins.updated_ln_siblings[0] = Some([0x33; 32]);
            let tampered = IMTMutate::Insert(ins);
            assert_eq!(tampered.apply(r1), Err(BatchError::SiblingMismatch));
        },
        IMTMutate::Update(_) => panic!("expected an insertion"),
    }
}

#[test]
fn duplicate_key_and_missing_key_are_refused() {
    let mut imt = Imt::new(8);
    assert!(imt.insert_node([1u8; 32], [0x2a; 32]).is_some());
    let root = imt.root;
    // A key already present cannot be inserted again.
    assert!(imt.insert_node([1u8; 32], [0x2b; 32]).is_none());
    // A key never inserted cannot be updated.
    assert!(imt.update_node([9u8; 32], [0x2b; 32]).is_none());
    assert_eq!(imt.root, root);
}

#[test]
fn full_tree_refuses_insertion() {
    let mut imt = Imt::new(1);
    // Depth 1 holds the sentinel and one member.
    assert!(imt.insert_node([1u8; 32], [0x2a; 32]).is_some());
    assert!(imt.insert_node([2u8; 32], [0x2a; 32]).is_none());
}

#[test]
fn low_nullifier_finds_the_member_below() {
    let mut imt = Imt::new(8);
    let _ = imt.insert_node([10u8; 32], [0x2a; 32]).unwrap();
    let _ = imt.insert_node([30u8; 32], [0x2a; 32]).unwrap();
    let ln = imt.low_nullifier(&[20u8; 32]);
    assert_eq!(ln.key, [10u8; 32]);
    assert_eq!(ln.next_key, [30u8; 32]);
    assert!(ln.is_ln_of(&keyspace::imt::node::IMTNode {
        index: 0,
        key: [20u8; 32],
        value_hash: [0u8; 32],
        next_key: [0u8; 32],
    }));
    let below_all = imt.low_nullifier(&[5u8; 32]);
    assert_eq!(below_all.key, [0u8; 32]);
}

#[test]
fn siblings_cover_every_level() {
    let mut imt = Imt::new(8);
    let _ = imt.insert_node([1u8; 32], [0x2a; 32]).unwrap();
    let sibs = imt.siblings(&[1u8; 32]).unwrap();
    assert_eq!(sibs.len(), 8);
    assert!(imt.siblings(&[9u8; 32]).is_none());
}
