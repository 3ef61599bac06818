use ratchet_tree::ecdh::{Key, Secret};
use ratchet_tree::mem::{AllocatorCell, AllocatorPool};
use ratchet_tree::tree::{
    get_next_index, get_sibling_index, is_even, lsb, round_up, RatchetBranch, RatchetErrorCause,
    RatchetIter, RatchetTree, MEMORY_BRANCH_INDEX,
};

fn scalar_bytes(k: u8) -> [u8; 32] {
    let mut b = [0u8; 32];
    b[31] = k;
    b
}

fn key(k: u8) -> Key {
    Key::from_secret(Secret::from_repr(&scalar_bytes(k)).unwrap())
}

fn make_tree(slots: usize) -> RatchetTree {
    let pool = AllocatorPool::new_with_init::<Key>(bumpalo::Bump::new(), slots, 16);
    RatchetTree::new(pool)
}

fn scratch(tree: &RatchetTree) -> AllocatorCell {
    tree.memory().get(MEMORY_BRANCH_INDEX)
}

fn insert_commit(tree: &mut RatchetTree, k: Key) -> Key {
    let cell = scratch(tree);
    let branch = tree.insert(&k, &cell).expect("ratchet must succeed");
    tree.commit(&branch).expect("commit must succeed")
}

fn dh(a: &Key, b: &Key) -> Key {
    a.diffie_hellman(b).expect("diffie-hellman must succeed")
}

#[test]
fn helpers_behave() {
    assert!(is_even(0));
    assert!(!is_even(1));
    assert!(is_even(6));
    assert_eq!(round_up(3), 4);
    assert_eq!(round_up(4), 4);
    assert_eq!(get_next_index(4), 2);
    assert_eq!(get_next_index(5), 3);
    assert_eq!(get_sibling_index(1), 2);
    assert_eq!(get_sibling_index(2), 1);
    assert_eq!(get_sibling_index(7), 8);
    assert_eq!(lsb(0), 0);
    assert_eq!(lsb(1), 1);
    assert_eq!(lsb(12), 4);
    assert_eq!(lsb(8), 8);
}

#[test]
fn iterator_walks_rootward() {
    let mut it = RatchetIter::new(5, 3, 0);
    assert_eq!(it.next(), Some((0, 5, 6)));
    assert_eq!(it.next(), Some((1, 3, 4)));
    assert_eq!(it.next(), Some((2, 2, 1)));
    assert_eq!(it.next(), None);
    it.reset();
    assert_eq!(it.next(), Some((3, 5, 6)));
}

#[test]
fn fresh_tree_shape() {
    let tree = make_tree(8);
    assert_eq!(tree.get_next_index(), 1);
    assert_eq!(tree.height(), 0);
    assert_eq!(tree.get_layer_len(0), 1);
    assert!(tree.get(0, 0).unwrap() == &Key::default());
    assert!(tree.get(0, 1).is_none());
    assert!(tree.get(1, 0).is_none());
}

#[test]
fn two_leaf_agreement() {
    // Two members joining agree on the pairwise shared secret as the root.
    let a = key(7);
    let b = key(11);
    let mut tree = make_tree(8);
    insert_commit(&mut tree, a);
    assert_eq!(tree.height(), 0);
    insert_commit(&mut tree, b);
    assert_eq!(tree.height(), 1);
    assert_eq!(tree.get_next_index(), 3);
    let root = tree.get(1, 1).unwrap();
    assert!(root == &dh(&a, &b));
}

#[test]
fn next_index_advances_by_one() {
    let mut tree = make_tree(8);
    let before = tree.get_next_index();
    assert_eq!(before, 1);
    insert_commit(&mut tree, key(7));
    // The committed leaf sits at the index reported before the insert.
    assert!(tree.get(0, before).unwrap() == &key(7));
    assert_eq!(tree.get_next_index(), before + 1);
}

#[test]
fn seven_leaf_canonical_shape() {
    let leaves: Vec<Key> = (2u8..=8u8).map(key).collect();
    let mut tree = make_tree(8);
    for k in &leaves {
        insert_commit(&mut tree, *k);
    }
    let (a, b, c, d, e, f, g) = (
        leaves[0], leaves[1], leaves[2], leaves[3], leaves[4], leaves[5], leaves[6],
    );
    assert_eq!(tree.height(), 3);
    assert_eq!(tree.get_layer_len(0), 8);
    assert_eq!(tree.get_layer_len(1), 5);
    assert_eq!(tree.get_layer_len(2), 3);
    assert_eq!(tree.get_layer_len(3), 2);
    let expected = dh(&dh(&dh(&a, &b), &dh(&c, &d)), &dh(&dh(&e, &f), &g));
    assert!(tree.get(3, 1).unwrap() == &expected);
}

#[test]
fn removal_leaves_tombstone_and_orphan() {
    let leaves: Vec<Key> = (2u8..=8u8).map(key).collect();
    let mut tree = make_tree(8);
    for k in &leaves {
        insert_commit(&mut tree, *k);
    }
    let (a, b, c, e, f, g) = (leaves[0], leaves[1], leaves[2], leaves[4], leaves[5], leaves[6]);
    let cell = scratch(&tree);
    let branch = tree.remove(4, &cell).expect("removal must ratchet");
    tree.commit(&branch).expect("commit must succeed");
    // The removed leaf is the tombstone and its index is up for reuse.
    assert!(tree.get(0, 4).unwrap() == tree.tombstone());
    assert_eq!(tree.get_next_index(), 4);
    // The tombstone's sibling is carried up one level unchanged.
    assert!(tree.get(1, 2).unwrap() == &c);
    let expected = dh(&dh(&dh(&a, &b), &c), &dh(&dh(&e, &f), &g));
    assert!(tree.get(3, 1).unwrap() == &expected);
}

#[test]
fn orphan_reuse_takes_priority() {
    let leaves: Vec<Key> = (2u8..=8u8).map(key).collect();
    let mut tree = make_tree(8);
    for k in &leaves {
        insert_commit(&mut tree, *k);
    }
    let cell = scratch(&tree);
    let branch = tree.remove(4, &cell).unwrap();
    tree.commit(&branch).unwrap();
    assert_eq!(tree.get_next_index(), 4);
    // A fresh insert consumes the orphaned slot, not a new one.
    let k = key(9);
    insert_commit(&mut tree, k);
    assert!(tree.get(0, 4).unwrap() == &k);
    assert_eq!(tree.get_layer_len(0), 8);
    assert_eq!(tree.get_next_index(), 8);
    let (a, b, e, f, g) = (leaves[0], leaves[1], leaves[4], leaves[5], leaves[6]);
    let c = leaves[2];
    let expected = dh(&dh(&dh(&a, &b), &dh(&c, &k)), &dh(&dh(&e, &f), &g));
    assert!(tree.get(3, 1).unwrap() == &expected);
}

#[test]
fn commit_out_of_memory_leaves_tree_unchanged() {
    // Six slots back layers 0..=2 only; the fifth leaf needs a fourth layer.
    let mut tree = make_tree(6);
    for k in 2u8..=5u8 {
        insert_commit(&mut tree, key(k));
    }
    assert_eq!(tree.height(), 2);
    let cell = scratch(&tree);
    let branch = tree.insert(&key(6), &cell).unwrap();
    let r = tree.commit(&branch);
    match r {
        Err(e) => assert!(matches!(e.cause, RatchetErrorCause::OutOfMemory)),
        Ok(_) => panic!("commit must run out of pool slots"),
    }
    // Nothing was written.
    assert_eq!(tree.height(), 2);
    assert_eq!(tree.get_layer_len(0), 5);
    assert_eq!(tree.get_next_index(), 5);
    assert!(tree.get(0, 5).is_none());
}

#[test]
fn commit_rejects_short_branch() {
    let mut tree = make_tree(8);
    for k in 2u8..=5u8 {
        insert_commit(&mut tree, key(k));
    }
    assert_eq!(tree.height(), 2);
    let cell = scratch(&tree);
    let mut branch = RatchetBranch::new(&cell, 1);
    branch.add_node(key(9));
    let r = tree.commit(&branch);
    match r {
        Err(e) => assert!(matches!(e.cause, RatchetErrorCause::BranchTooShort)),
        Ok(_) => panic!("a one-node branch must not commit onto a height-2 tree"),
    }
    assert!(tree.get(0, 1).unwrap() == &key(2));
}

#[test]
fn ratchet_is_idempotent() {
    // Building a branch, discarding it, and building again from the same
    // state yields the same branch.
    let mut tree = make_tree(8);
    for k in 2u8..=4u8 {
        insert_commit(&mut tree, key(k));
    }
    let cell = scratch(&tree);
    let first = tree.insert(&key(9), &cell).unwrap();
    let second = tree.insert(&key(9), &cell).unwrap();
    assert_eq!(first.root(), second.root());
    assert_eq!(first.len(), second.len());
    for i in 0..first.len() {
        assert!(first.get_node(i).unwrap() == second.get_node(i).unwrap());
    }
}

#[test]
fn same_leaves_same_root() {
    // Two trees built from the same ordered leaves agree on every layer.
    let mut t1 = make_tree(8);
    let mut t2 = make_tree(8);
    for k in 2u8..=6u8 {
        insert_commit(&mut t1, key(k));
        insert_commit(&mut t2, key(k));
    }
    assert_eq!(t1.height(), t2.height());
    for h in 0..=t1.height() {
        assert_eq!(t1.get_layer_len(h), t2.get_layer_len(h));
        for i in 0..t1.get_layer_len(h) {
            assert!(t1.get(h, i).unwrap() == t2.get(h, i).unwrap());
        }
    }
    assert!(t1.get(t1.height(), 1).unwrap() == t2.get(t2.height(), 1).unwrap());
}

#[test]
fn absence_propagates_without_dh() {
    // A real key whose sibling is the tombstone is carried to the parent
    // unchanged.
    let mut tree = make_tree(8);
    insert_commit(&mut tree, key(2));
    insert_commit(&mut tree, key(3));
    let cell = scratch(&tree);
    let branch = tree.remove(2, &cell).unwrap();
    tree.commit(&branch).unwrap();
    // Leaf 1 is real, leaf 2 is the tombstone: the parent equals leaf 1.
    assert!(tree.get(0, 2).unwrap() == tree.tombstone());
    assert!(tree.get(1, 1).unwrap() == &key(2));
}

#[test]
fn layer_sizes_follow_leaf_count() {
    // With n leaves, layer h holds ceil(n / 2^h) nodes beside its
    // reserved slot, for every h up to the height.
    let mut tree = make_tree(16);
    let mut n: usize = 0;
    for k in 2u8..=11u8 {
        insert_commit(&mut tree, key(k));
        n += 1;
        let mut expect = n;
        let mut h = 0;
        loop {
            assert_eq!(tree.get_layer_len(h), expect + 1);
            if expect <= 1 {
                break;
            }
            expect = (expect + 1) / 2;
            h += 1;
        }
    }
}

#[test]
fn remove_validates_indices() {
    let mut tree = make_tree(8);
    insert_commit(&mut tree, key(2));
    insert_commit(&mut tree, key(3));
    let cell = scratch(&tree);
    for bad in [0usize, 3, 9] {
        match tree.remove(bad, &cell) {
            Err(e) => assert!(matches!(e.cause, RatchetErrorCause::IndexOutOfRange)),
            Ok(_) => panic!("out-of-range removal must fail"),
        }
    }
}

#[test]
fn set_and_get_respect_bounds() {
    let mut tree = make_tree(8);
    insert_commit(&mut tree, key(2));
    match tree.set(5, 0, key(9)) {
        Err(e) => assert!(matches!(e.cause, RatchetErrorCause::NoLayer)),
        Ok(_) => panic!("setting a missing layer must fail"),
    }
    match tree.set(0, 9, key(9)) {
        Err(e) => assert!(matches!(e.cause, RatchetErrorCause::IndexOutOfRange)),
        Ok(_) => panic!("setting outside the layer must fail"),
    }
    tree.set(0, 1, key(9)).unwrap();
    assert!(tree.get(0, 1).unwrap() == &key(9));
    assert!(tree.get_layer(0).is_some());
    assert!(tree.get_layer(7).is_none());
    assert_eq!(tree.get_layer_len(7), 0);
}

#[test]
fn ensure_layer_present_creates_once() {
    let mut tree = make_tree(8);
    assert_eq!(tree.get_layer_len(1), 0);
    let cell = tree.memory().get(4);
    tree.ensure_layer_present(1, &cell);
    assert_eq!(tree.get_layer_len(1), 1);
    assert!(tree.get(1, 0).unwrap() == &Key::default());
    tree.ensure_layer_present(1, &cell);
    assert_eq!(tree.get_layer_len(1), 1);
}

#[test]
fn iter_uses_tree_height() {
    let mut tree = make_tree(8);
    for k in 2u8..=8u8 {
        insert_commit(&mut tree, key(k));
    }
    let mut it = tree.iter(5);
    assert_eq!(it.next(), Some((0, 5, 6)));
    assert_eq!(it.next(), Some((1, 3, 4)));
    assert_eq!(it.next(), Some((2, 2, 1)));
    assert_eq!(it.next(), None);
}

#[test]
fn branch_scratch_and_accessors() {
    let tree = make_tree(8);
    let cell = scratch(&tree);
    let mut branch = RatchetBranch::new(&cell, 3);
    assert_eq!(branch.root(), 3);
    assert_eq!(branch.len(), 0);
    assert!(branch.get_last().is_none());
    branch.add_node(key(2));
    branch.add_node(key(3));
    assert_eq!(branch.len(), 2);
    assert!(branch.get_node(0).unwrap() == &key(2));
    assert!(branch.get_last().unwrap() == &key(3));
    assert!(branch.get_node(2).is_none());
    branch.clear();
    assert_eq!(branch.len(), 0);
    assert_eq!(branch.root(), 3);
}
