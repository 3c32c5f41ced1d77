use containers::avl_tree::{AVLTree, AVLTreeError};

#[test]
fn avl_tree_test_get() {
    let mut tree = AVLTree::new();
    let _ = tree.insert(5, String::from("Hello World"));
}

#[test]
fn get_on_empty_tree_fails_with_empty() {
    let tree: AVLTree<u32, u32> = AVLTree::new();
    assert_eq!(tree.get(0), Err(AVLTreeError::EmptyAVLTree));
    assert_eq!(tree.get(7), Err(AVLTreeError::EmptyAVLTree));
}

#[test]
fn insert_then_get_returns_the_value() {
    let mut tree: AVLTree<u32, u64> = AVLTree::new();
    assert_eq!(tree.insert(5, 500), Ok(()));
    assert_eq!(tree.get(5), Ok(500));
    assert_eq!(tree.insert(2, 200), Ok(()));
    assert_eq!(tree.insert(8, 800), Ok(()));
    assert_eq!(tree.insert(1, 100), Ok(()));
    assert_eq!(tree.insert(3, 300), Ok(()));
    assert_eq!(tree.insert(9, 900), Ok(()));
    assert_eq!(tree.insert(7, 700), Ok(()));
    for k in [1u32, 2, 3, 5, 7, 8, 9] {
        assert_eq!(tree.get(k), Ok(u64::from(k) * 100));
    }
}

#[test]
fn get_of_missing_key_fails_with_not_found() {
    let mut tree: AVLTree<i32, char> = AVLTree::new();
    assert_eq!(tree.insert(0, 'a'), Ok(()));
    assert_eq!(tree.insert(-4, 'b'), Ok(()));
    assert_eq!(tree.insert(4, 'c'), Ok(()));
    assert_eq!(tree.get(1), Err(AVLTreeError::NodeNotFound));
    assert_eq!(tree.get(-5), Err(AVLTreeError::NodeNotFound));
    assert_eq!(tree.get(5), Err(AVLTreeError::NodeNotFound));
    assert_eq!(tree.get(-4), Ok('b'));
}

#[test]
fn second_insert_under_a_key_fails_and_keeps_the_first() {
    let mut tree: AVLTree<u8, u8> = AVLTree::new();
    assert_eq!(tree.insert(10, 1), Ok(()));
    assert_eq!(tree.insert(20, 2), Ok(()));
    assert_eq!(tree.insert(10, 3), Err(AVLTreeError::AlreadyExists));
    assert_eq!(tree.insert(20, 4), Err(AVLTreeError::AlreadyExists));
    assert_eq!(tree.get(10), Ok(1));
    assert_eq!(tree.get(20), Ok(2));
}

#[test]
fn keys_in_rising_order_are_all_found() {
    let mut tree: AVLTree<u32, u32> = AVLTree::new();
    for k in 0..500u32 {
        assert_eq!(tree.insert(k, k + 1), Ok(()));
    }
    for k in 0..500u32 {
        assert_eq!(tree.get(k), Ok(k + 1));
    }
    assert_eq!(tree.get(500), Err(AVLTreeError::NodeNotFound));
}

#[test]
fn keys_in_falling_order_are_all_found() {
    let mut tree: AVLTree<i64, i64> = AVLTree::new();
    for k in (0..300i64).rev() {
        assert_eq!(tree.insert(k, -k), Ok(()));
    }
    for k in 0..300i64 {
        assert_eq!(tree.get(k), Ok(-k));
    }
    assert_eq!(tree.get(-1), Err(AVLTreeError::NodeNotFound));
}

#[test]
fn pairs_are_ordered_as_keys() {
    let mut tree: AVLTree<(u8, u8), u16> = AVLTree::new();
    for a in [3u8, 1, 2] {
        for b in [9u8, 7, 8] {
            assert_eq!(tree.insert((a, b), u16::from(a) * 10 + u16::from(b)), Ok(()));
        }
    }
    assert_eq!(tree.get((2, 8)), Ok(28));
    assert_eq!(tree.get((1, 9)), Ok(19));
    assert_eq!(tree.get((2, 6)), Err(AVLTreeError::NodeNotFound));
    assert_eq!(tree.insert((3, 7), 0), Err(AVLTreeError::AlreadyExists));
}

#[test]
fn tree_errors_compare_as_their_variants() {
    assert_eq!(AVLTreeError::NodeNotFound, AVLTreeError::NodeNotFound);
    assert_ne!(AVLTreeError::EmptyAVLTree, AVLTreeError::NodeNotFound);
    assert_ne!(AVLTreeError::MaxNodesExists, AVLTreeError::AlreadyExists);
    assert_eq!(format!("{:?}", AVLTreeError::MaxNodesExists), "MaxNodesExists");
}
