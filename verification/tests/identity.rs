use difix::identity::{identity_key, Interner};

#[test]
fn metadata_nodes_are_known_by_their_metadata() {
    assert_eq!(identity_key(true, 10, 20), 20);
    assert_eq!(identity_key(false, 10, 20), 10);
    assert_eq!(identity_key(true, 0, u64::MAX), u64::MAX);
    assert_eq!(identity_key(false, u64::MAX, 0), u64::MAX);
}

#[test]
fn new_keys_get_the_next_index() {
    let mut interner = Interner::new();
    assert_eq!(interner.len(), 0);
    assert_eq!(interner.id_of(500), (0, true));
    assert_eq!(interner.id_of(7), (1, true));
    assert_eq!(interner.id_of(0), (2, true));
    assert_eq!(interner.len(), 3);
}

#[test]
fn known_keys_keep_their_index() {
    let mut interner = Interner::new();
    assert_eq!(interner.id_of(500), (0, true));
    assert_eq!(interner.id_of(7), (1, true));
    assert_eq!(interner.id_of(500), (0, false));
    assert_eq!(interner.id_of(7), (1, false));
    assert_eq!(interner.len(), 2);
    assert_eq!(interner.id_of(8), (2, true));
    assert_eq!(interner.id_of(500), (0, false));
}
