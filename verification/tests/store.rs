use auth_chain::store::{KvTree, MemoryTree};

#[test]
fn empty_tree_holds_nothing() {
    let mut tree = MemoryTree::new();
    assert!(tree.is_empty());
    assert_eq!(tree.get(&[0, 0, 0, 0, 0, 0, 0, 1]), Ok(None));
    assert_eq!(tree.insert(&[], &[]), Ok(()));
    assert!(!tree.is_empty());
    assert_eq!(tree.get(&[]), Ok(Some(vec![])));
}

#[test]
fn tree_reads_what_was_written() {
    let mut tree = MemoryTree::new();
    assert_eq!(tree.insert(&[1, 2], &[3, 4, 5]), Ok(()));
    assert_eq!(tree.insert(&[1], &[]), Ok(()));
    assert_eq!(tree.get(&[1, 2]), Ok(Some(vec![3, 4, 5])));
    assert_eq!(tree.get(&[1]), Ok(Some(vec![])));
    assert_eq!(tree.get(&[2, 1]), Ok(None));
}

#[test]
fn tree_write_replaces_the_value() {
    let mut tree = MemoryTree::new();
    assert_eq!(tree.insert(&[7], &[1]), Ok(()));
    assert_eq!(tree.insert(&[8], &[2]), Ok(()));
    assert_eq!(tree.insert(&[7], &[3, 3]), Ok(()));
    assert_eq!(tree.get(&[7]), Ok(Some(vec![3, 3])));
    assert_eq!(tree.get(&[8]), Ok(Some(vec![2])));
}
