//! An ordered lookup tree: a binary search tree that is never rebalanced.
//!
//! An [`AVLTree`] stands for a finite map from keys to values, written `tree@` in
//! contracts. What is promised of a tree is promised for key types whose order is a total
//! order in step with equality, which [`keys_in_order`] says.

use std::cmp::Ordering;
use vstd::prelude::*;
use vstd::laws_cmp::{
    obeys_cmp, obeys_cmp_ord, obeys_cmp_partial_ord, obeys_partial_cmp_spec_properties,
};
use vstd::laws_eq::obeys_concrete_eq;
use vstd::std_specs::cmp::OrdSpec;

verus! {

/// Why an operation on an [`AVLTree`] could not be carried out.
#[derive(Debug, PartialEq, Eq, Structural)]
pub enum AVLTreeError {
    /// The tree holds no entry.
    EmptyAVLTree,
    /// The tree holds as many entries as can be counted.
    MaxNodesExists,
    /// The tree has entries, but none under the key.
    NodeNotFound,
    /// The tree has an entry under the key already.
    AlreadyExists,
}

type Link<K, V> = Option<Box<Node<K, V>>>;

struct Node<K, V> where K: PartialEq + Ord {
    key: K,
    value: V,
    left: Link<K, V>,
    right: Link<K, V>,
}

impl<K, V> Node<K, V> where K: PartialEq + Ord {
    /// A node without children.
    fn new(key: K, value: V) -> (node: Self)
        ensures
            node.key == key,
            node.value == value,
            node.left.is_none(),
            node.right.is_none(),
    {
        Node { key, value, left: None, right: None }
    }
}

/// The order of `K` is a total order, and two keys compare equal only where they are the
/// same value.
pub open spec fn keys_in_order<K: Ord>() -> bool {
    obeys_cmp::<K>() && obeys_concrete_eq::<K>()
}

/// `a` comes before `b` in the order of `K`.
pub open spec fn before<K: Ord>(a: K, b: K) -> bool {
    a.cmp_spec(&b) == Ordering::Less
}

/// What `insert` of `key` returns on a tree that holds `entries`.
pub open spec fn insert_outcome<K, V>(entries: Map<K, V>, key: K) -> Result<(), AVLTreeError> {
    if entries.len() == usize::MAX {
        Err(AVLTreeError::MaxNodesExists)
    } else if entries.contains_key(key) {
        Err(AVLTreeError::AlreadyExists)
    } else {
        Ok(())
    }
}

/// What `get` of `key` returns on a tree that holds `entries`.
pub open spec fn get_outcome<K, V>(entries: Map<K, V>, key: K) -> Result<V, AVLTreeError> {
    if entries.len() == 0 {
        Err(AVLTreeError::EmptyAVLTree)
    } else if entries.contains_key(key) {
        Ok(entries[key])
    } else {
        Err(AVLTreeError::NodeNotFound)
    }
}

/// The entries held at and below `link`.
spec fn entries<K: PartialEq + Ord, V>(link: Link<K, V>) -> Map<K, V>
    decreases link,
{
    match link {
        None => Map::empty(),
        Some(node) => entries(node.left).union_prefer_right(entries(node.right)).insert(
            node.key,
            node.value,
        ),
    }
}

/// At each node at and below `link`, the keys to the left come before the node's key, and
/// those to the right after it.
spec fn sorted<K: PartialEq + Ord, V>(link: Link<K, V>) -> bool
    decreases link,
{
    match link {
        None => true,
        Some(node) => {
            &&& sorted(node.left)
            &&& sorted(node.right)
            &&& forall|k: K| #[trigger] entries(node.left).contains_key(k) ==> before(k, node.key)
            &&& forall|k: K| #[trigger] entries(node.right).contains_key(k) ==> before(node.key, k)
        },
    }
}

/// In a total order in step with equality, two keys compare equal exactly where they are
/// the same, and `a` comes before `b` exactly where `b` comes after `a`.
proof fn lemma_key_order<K: Ord>(a: K, b: K)
    requires
        keys_in_order::<K>(),
    ensures
        K::obeys_cmp_spec(),
        a.cmp_spec(&b) == Ordering::Equal <==> a == b,
        a.cmp_spec(&b) == Ordering::Less <==> b.cmp_spec(&a) == Ordering::Greater,
{
    reveal(obeys_cmp_ord);
    reveal(obeys_cmp_partial_ord);
    reveal(obeys_partial_cmp_spec_properties);
    reveal(obeys_concrete_eq);
}

/// Where `key` can be, seen from a node of a sorted tree: a key before the node's is not
/// to its right, one after it not to its left, and the node's own key is on neither side.
proof fn lemma_side<K: PartialEq + Ord, V>(node: Node<K, V>, key: K)
    requires
        keys_in_order::<K>(),
        sorted(Some(Box::new(node))),
    ensures
        K::obeys_cmp_spec(),
        key.cmp_spec(&node.key) == Ordering::Equal <==> key == node.key,
        key.cmp_spec(&node.key) == Ordering::Greater ==> before(node.key, key),
        before(key, node.key) ==> !entries(node.right).contains_key(key),
        before(node.key, key) ==> !entries(node.left).contains_key(key),
        !entries(node.left).contains_key(node.key),
        !entries(node.right).contains_key(node.key),
{
    lemma_key_order(key, node.key);
    lemma_key_order(node.key, key);
    lemma_key_order(node.key, node.key);
}

/// A map from keys to values, held in a binary search tree that takes its shape from the
/// order in which the keys come.
pub struct AVLTree<K, V> where K: PartialEq + Ord {
    head: Link<K, V>,
    size: usize,
}

impl<K, V> View for AVLTree<K, V> where K: PartialEq + Ord {
    type V = Map<K, V>;

    /// The entries of the tree.
    closed spec fn view(&self) -> Map<K, V> {
        entries(self.head)
    }
}

impl<K, V> AVLTree<K, V> where K: PartialEq + Ord {
    /// Where the keys are in order, the tree is sorted and `size` counts its entries.
    #[verifier::type_invariant]
    spec fn well_formed(self) -> bool {
        keys_in_order::<K>() ==> {
            &&& sorted(self.head)
            &&& entries(self.head).dom().finite()
            &&& entries(self.head).len() == self.size
        }
    }

    /// An empty tree.
    pub fn new() -> (tree: Self)
        ensures
            tree@ == Map::<K, V>::empty(),
            tree@.dom().finite(),
    {
        AVLTree { head: None, size: 0 }
    }

    /// Enters `value` under `key`.
    ///
    /// Fails with `MaxNodesExists` where the tree can count no further entry, and else
    /// with `AlreadyExists` where it has an entry under `key`; a failed call leaves the
    /// tree as it was.
    pub fn insert(&mut self, key: K, value: V) -> (r: Result<(), AVLTreeError>)
        ensures
            keys_in_order::<K>() ==> r == insert_outcome(old(self)@, key),
            keys_in_order::<K>() ==> final(self)@ == if r is Ok {
                old(self)@.insert(key, value)
            } else {
                old(self)@
            },
            keys_in_order::<K>() ==> old(self)@.dom().finite() && final(self)@.dom().finite(),
            r is Err ==> final(self)@ == old(self)@,
    {
        proof {
            use_type_invariant(&*self);
        }
        if self.size == usize::MAX {
            return Err(AVLTreeError::MaxNodesExists);
        }
        let mut tree = AVLTree::new();
        std::mem::swap(self, &mut tree);
        let AVLTree { head, size } = tree;
        let mut head = head;
        let r = Self::insert_val(&mut head, key, value);
        let size = if r.is_ok() {
            size + 1
        } else {
            size
        };
        *self = AVLTree { head, size };
        r
    }

    /// The value entered under `key`.
    ///
    /// Fails with `EmptyAVLTree` on an empty tree, and with `NodeNotFound` where the tree
    /// has entries but none under `key`.
    pub fn get(&self, key: K) -> (r: Result<V, AVLTreeError>) where V: Copy
        ensures
            keys_in_order::<K>() ==> r == get_outcome(self@, key),
            keys_in_order::<K>() ==> self@.dom().finite(),
    {
        proof {
            use_type_invariant(self);
        }
        if self.size == 0 {
            return Err(AVLTreeError::EmptyAVLTree);
        }
        Self::get_val(&self.head, key)
    }

    /// Puts `key` with `value` where the order of keys has it at or below `link`, unless
    /// `key` is there already.
    fn insert_val(link: &mut Link<K, V>, key: K, value: V) -> (r: Result<(), AVLTreeError>)
        requires
            keys_in_order::<K>() ==> sorted(*old(link)),
        ensures
            r is Err ==> *final(link) == *old(link),
            keys_in_order::<K>() ==> sorted(*final(link)),
            keys_in_order::<K>() ==> if entries(*old(link)).contains_key(key) {
                &&& r == Err::<(), AVLTreeError>(AVLTreeError::AlreadyExists)
                &&& entries(*final(link)) == entries(*old(link))
            } else {
                &&& r == Ok::<(), AVLTreeError>(())
                &&& entries(*final(link)) == entries(*old(link)).insert(key, value)
            },
        decreases *old(link),
    {
        match link {
            None => {
                *link = Some(Box::new(Node::new(key, value)));
                proof {
                    let leaf: Link<K, V> = None;
                    assert(sorted(leaf) && entries(leaf) =~= Map::<K, V>::empty());
                }
                Ok(())
            },
            Some(node) => {
                proof {
                    if keys_in_order::<K>() {
                        lemma_side(**node, key);
                    }
                }
                let r = match key.cmp(&node.key) {
                    Ordering::Equal => Err(AVLTreeError::AlreadyExists),
                    Ordering::Less => Self::insert_val(&mut node.left, key, value),
                    Ordering::Greater => Self::insert_val(&mut node.right, key, value),
                };
                proof {
                    if keys_in_order::<K>() {
                        assert(entries(*link) =~= if r is Ok {
                            entries(*old(link)).insert(key, value)
                        } else {
                            entries(*old(link))
                        });
                    }
                }
                r
            },
        }
    }

    /// Looks `key` up at and below `link`.
    fn get_val(link: &Link<K, V>, key: K) -> (r: Result<V, AVLTreeError>) where V: Copy
        requires
            keys_in_order::<K>() ==> sorted(*link),
        ensures
            keys_in_order::<K>() ==> r == if entries(*link).contains_key(key) {
                Ok::<V, AVLTreeError>(entries(*link)[key])
            } else {
                Err::<V, AVLTreeError>(AVLTreeError::NodeNotFound)
            },
        decreases *link,
    {
        match link {
            None => Err(AVLTreeError::NodeNotFound),
            Some(node) => {
                proof {
                    if keys_in_order::<K>() {
                        lemma_side(**node, key);
                    }
                }
                match key.cmp(&node.key) {
                    Ordering::Equal => Ok(node.value),
                    Ordering::Less => Self::get_val(&node.left, key),
                    Ordering::Greater => Self::get_val(&node.right, key),
                }
            },
        }
    }
}

/// After `insert` has entered `value` under `key`, `get` returns `value` for `key`, and
/// for every other key what the tree held under it before.
pub proof fn law_insert_then_get<K, V>(entries: Map<K, V>, key: K, value: V)
    requires
        entries.dom().finite(),
        insert_outcome(entries, key) is Ok,
    ensures
        get_outcome(entries.insert(key, value), key) == Ok::<V, AVLTreeError>(value),
        forall|other: K|
            other != key && entries.contains_key(other) ==> #[trigger] get_outcome(
                entries.insert(key, value),
                other,
            ) == Ok::<V, AVLTreeError>(entries[other]),
        forall|other: K|
            other != key && !entries.contains_key(other) ==> #[trigger] get_outcome(
                entries.insert(key, value),
                other,
            ) == Err::<V, AVLTreeError>(AVLTreeError::NodeNotFound),
{
}

/// Where `insert` fails because the tree has an entry under `key`, `get` finds that entry.
pub proof fn law_taken_key_is_found<K, V>(entries: Map<K, V>, key: K)
    requires
        entries.dom().finite(),
        insert_outcome(entries, key) == Err::<(), AVLTreeError>(AVLTreeError::AlreadyExists),
    ensures
        get_outcome(entries, key) == Ok::<V, AVLTreeError>(entries[key]),
{
}

} // verus!
