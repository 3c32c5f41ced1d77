//! Slot storage for a forward-linked chain of values.
//!
//! Nodes live in one growable array and name their successor by its slot. A second chain
//! through the same array strings the slots together that hold no value at present, so
//! that a slot given up by a removal serves the next insertion.

use vstd::prelude::*;
use vstd::std_specs::cmp::PartialEqSpec;
use crate::linked_list::LinkedListError;
use crate::linked_list::model::{
    answers, first_item, holds, item_at, last_item, none_equal, some_equal, without_first,
    without_item, without_last,
};

verus! {

/// One stored value and the slot of the node that follows it.
pub(crate) struct Node<T> {
    pub(crate) value: T,
    pub(crate) next: Option<usize>,
}

impl<T> Node<T> {
    /// A node that nothing follows.
    pub(crate) fn new(value: T) -> (node: Self)
        ensures
            node.value == value,
            node.next.is_none(),
    {
        Node { value, next: None }
    }
}

/// The slot at position `i` of `path`, if `path` has such a position.
pub(crate) open spec fn slot_of(path: Seq<usize>, i: int) -> Option<usize> {
    if 0 <= i < path.len() {
        Some(path[i])
    } else {
        None
    }
}

/// `path` is the run of slots met by starting at `first` and following successors until
/// there is none, and no slot occurs in it twice.
pub(crate) open spec fn threads<T>(
    nodes: Seq<Node<T>>,
    first: Option<usize>,
    path: Seq<usize>,
) -> bool {
    &&& first == slot_of(path, 0)
    &&& forall|i: int| 0 <= i < path.len() ==> (#[trigger] path[i]) < nodes.len()
    &&& forall|i: int|
        0 <= i < path.len() ==> (#[trigger] nodes[path[i] as int]).next == slot_of(path, i + 1)
    &&& forall|i: int, j: int| 0 <= i < j < path.len() ==> #[trigger] path[i] != #[trigger] path[j]
}

/// `slot` occurs nowhere in `path`.
pub(crate) open spec fn absent(path: Seq<usize>, slot: usize) -> bool {
    forall|i: int| 0 <= i < path.len() ==> #[trigger] path[i] != slot
}

/// Storing another node in a slot that `path` does not hold leaves `path` threaded as it was.
proof fn lemma_path_untouched<T>(
    nodes: Seq<Node<T>>,
    first: Option<usize>,
    path: Seq<usize>,
    slot: usize,
    node: Node<T>,
)
    requires
        threads(nodes, first, path),
        absent(path, slot),
        slot < nodes.len(),
    ensures
        threads(nodes.update(slot as int, node), first, path),
{
    let after = nodes.update(slot as int, node);
    assert forall|i: int| 0 <= i < path.len() implies (#[trigger] after[path[i] as int]).next
        == slot_of(path, i + 1) by {
        assert(path[i] != slot);
    }
}

/// Letting the node before position `idx` point past it takes position `idx` out of `path`.
proof fn lemma_bypass<T>(
    nodes: Seq<Node<T>>,
    first: Option<usize>,
    path: Seq<usize>,
    idx: int,
    node: Node<T>,
)
    requires
        threads(nodes, first, path),
        1 <= idx < path.len(),
        node.next == nodes[path[idx] as int].next,
    ensures
        threads(nodes.update(path[idx - 1] as int, node), first, path.remove(idx)),
        absent(path.remove(idx), path[idx]),
{
    let after = nodes.update(path[idx - 1] as int, node);
    let rest = path.remove(idx);
    assert forall|i: int| 0 <= i < rest.len() implies (#[trigger] rest[i]) < after.len() by {
        if i < idx {
            assert(rest[i] == path[i]);
        } else {
            assert(rest[i] == path[i + 1]);
        }
    }
    assert forall|i: int, j: int| 0 <= i < j < rest.len() implies #[trigger] rest[i]
        != #[trigger] rest[j] by {
        let pi = if i < idx { i } else { i + 1 };
        let pj = if j < idx { j } else { j + 1 };
        assert(rest[i] == path[pi] && rest[j] == path[pj]);
    }
    assert forall|i: int| 0 <= i < rest.len() implies (#[trigger] after[rest[i] as int]).next
        == slot_of(rest, i + 1) by {
        if i < idx - 1 {
            assert(rest[i] == path[i]);
            assert(path[i] != path[idx - 1]);
            assert(slot_of(rest, i + 1) == slot_of(path, i + 1));
        } else if i == idx - 1 {
            assert(rest[i] == path[idx - 1]);
            assert(slot_of(path, idx + 1) == slot_of(rest, idx));
        } else {
            assert(rest[i] == path[i + 1]);
            assert(path[i + 1] != path[idx - 1]);
            assert(slot_of(rest, i + 1) == slot_of(path, i + 2));
        }
    }
    assert(rest[0] == path[0]);
    assert forall|i: int| 0 <= i < rest.len() implies #[trigger] rest[i] != path[idx] by {
        if i < idx {
            assert(rest[i] == path[i]);
        } else {
            assert(rest[i] == path[i + 1]);
        }
    }
}

/// A chain of values with both of its ends at hand, together with the slots it can reuse.
pub(crate) struct Chain<T> {
    /// The slots: each holds a node of the chain or is one of the reusable slots.
    nodes: Vec<Node<T>>,
    /// The slot of the first node; none in a chain without nodes.
    head: Option<usize>,
    /// The slot of the last node; none in a chain without nodes.
    tail: Option<usize>,
    /// The reusable slot that the next insertion takes.
    spare: Option<usize>,
    /// The number of nodes in the chain.
    length: usize,
    /// The slots of the nodes of the chain, front first.
    live: Ghost<Seq<usize>>,
    /// The reusable slots, in the order in which insertions will take them.
    idle: Ghost<Seq<usize>>,
}

impl<T> View for Chain<T> {
    type V = Seq<T>;

    /// The stored values, front first.
    closed spec fn view(&self) -> Seq<T> {
        Seq::new(self.live@.len(), |i: int| self.nodes@[self.live@[i] as int].value)
    }
}

impl<T: Copy> Chain<T> {
    /// The invariant, but for `lent` slots that are at the moment in neither chain.
    ///
    /// Following successors from `head` passes the `length` nodes of the chain, each once,
    /// and ends at `tail`; so `head` and `tail` are absent exactly where `length` is zero,
    /// and the same slot where it is one. The slots that hold no node of the chain are
    /// strung from `spare` in the same way.
    pub(crate) closed spec fn settled(&self, lent: int) -> bool {
        &&& threads(self.nodes@, self.head, self.live@)
        &&& threads(self.nodes@, self.spare, self.idle@)
        &&& self.tail == slot_of(self.live@, self.live@.len() - 1)
        &&& self.length == self.live@.len()
        &&& self.live@.len() + self.idle@.len() + lent == self.nodes@.len()
        &&& forall|i: int|
            0 <= i < self.live@.len() ==> absent(self.idle@, #[trigger] self.live@[i])
    }

    /// Head, tail and length agree with the chain of nodes, and every slot is in exactly
    /// one of the two chains.
    pub(crate) open spec fn wf(&self) -> bool {
        self.settled(0)
    }

    /// A chain without nodes and without slots.
    pub(crate) fn new() -> (chain: Self)
        ensures
            chain.wf(),
            chain@ == Seq::<T>::empty(),
    {
        Chain {
            nodes: Vec::new(),
            head: None,
            tail: None,
            spare: None,
            length: 0,
            live: Ghost(Seq::empty()),
            idle: Ghost(Seq::empty()),
        }
    }

    /// The number of nodes in the chain.
    pub(crate) fn length(&self) -> (n: usize)
        requires
            self.wf(),
        ensures
            n == self@.len(),
    {
        self.length
    }

    /// Whether the chain has no node.
    pub(crate) fn is_empty(&self) -> (empty: bool)
        requires
            self.wf(),
        ensures
            empty == (self@.len() == 0),
    {
        self.length == 0
    }

    /// The slot of the node at position `idx`, found by walking `idx` links from the head.
    fn get_node(&self, idx: usize) -> (slot: usize)
        requires
            self.wf(),
            idx < self.length,
        ensures
            slot == self.live@[idx as int],
            slot < self.nodes@.len(),
    {
        let mut slot: usize = self.head.unwrap();
        let mut place: usize = 0;
        while place != idx
            invariant
                self.wf(),
                place <= idx < self.length,
                slot == self.live@[place as int],
            decreases idx - place,
        {
            slot = self.nodes[slot].next.unwrap();
            place += 1;
        }
        slot
    }

    /// The value of the node at position `idx`.
    pub(crate) fn get(&self, idx: usize) -> (r: Result<T, LinkedListError>)
        requires
            self.wf(),
        ensures
            r == item_at(self@, idx as int),
    {
        if self.head.is_none() {
            return Err(LinkedListError::EmptyList);
        }
        if idx >= self.length {
            return Err(LinkedListError::OutOfBounds);
        }
        let slot = self.get_node(idx);
        Ok(self.nodes[slot].value)
    }

    /// The value of the first node.
    pub(crate) fn front(&self) -> (r: Result<T, LinkedListError>)
        requires
            self.wf(),
        ensures
            r == first_item(self@),
    {
        match self.head {
            None => Err(LinkedListError::EmptyList),
            Some(slot) => Ok(self.nodes[slot].value),
        }
    }

    /// The value of the last node, reached through the tail without a walk.
    pub(crate) fn back(&self) -> (r: Result<T, LinkedListError>)
        requires
            self.wf(),
        ensures
            r == last_item(self@),
    {
        match self.tail {
            None => Err(LinkedListError::EmptyList),
            Some(slot) => Ok(self.nodes[slot].value),
        }
    }

    /// Stores `node` in a slot that neither chain holds, and returns that slot.
    fn take_slot(&mut self, node: Node<T>) -> (slot: usize)
        requires
            old(self).settled(0),
        ensures
            final(self).settled(1),
            final(self).head == old(self).head,
            final(self).tail == old(self).tail,
            final(self).length == old(self).length,
            final(self).live@ == old(self).live@,
            final(self)@ == old(self)@,
            final(self).length < usize::MAX,
            slot < final(self).nodes@.len(),
            final(self).nodes@[slot as int] == node,
            absent(final(self).live@, slot),
            absent(final(self).idle@, slot),
    {
        match self.spare {
            Some(slot) => {
                assert(self.nodes.len() == self.nodes@.len());
                self.spare = self.nodes[slot].next;
                self.nodes.set(slot, node);
                proof {
                    self.idle = Ghost(self.idle@.drop_first());
                }
                slot
            },
            None => {
                self.nodes.push(node);
                self.nodes.len() - 1
            },
        }
    }

    /// Hands `slot`, which neither chain holds, to the chain of reusable slots.
    fn release(&mut self, slot: usize)
        requires
            old(self).settled(1),
            slot < old(self).nodes@.len(),
            absent(old(self).live@, slot),
            absent(old(self).idle@, slot),
        ensures
            final(self).wf(),
            final(self)@ == old(self)@,
    {
        let value = self.nodes[slot].value;
        self.nodes.set(slot, Node { value, next: self.spare });
        self.spare = Some(slot);
        proof {
            self.idle = Ghost(seq![slot] + self.idle@);
        }
    }

    /// Links a node for `item` in before the head.
    pub(crate) fn push_front(&mut self, item: T)
        requires
            old(self).wf(),
        ensures
            final(self).wf(),
            final(self)@ == seq![item] + old(self)@,
    {
        let slot = self.take_slot(Node { value: item, next: self.head });
        self.head = Some(slot);
        if self.tail.is_none() {
            self.tail = Some(slot);
        }
        self.length += 1;
        proof {
            self.live = Ghost(seq![slot] + self.live@);
        }
    }

    /// Links a node for `item` in behind the tail.
    pub(crate) fn push_back(&mut self, item: T)
        requires
            old(self).wf(),
        ensures
            final(self).wf(),
            final(self)@ == old(self)@.push(item),
    {
        let slot = self.take_slot(Node::new(item));
        match self.tail {
            None => {
                self.head = Some(slot);
            },
            Some(last) => {
                let value = self.nodes[last].value;
                self.nodes.set(last, Node { value, next: Some(slot) });
            },
        }
        self.tail = Some(slot);
        self.length += 1;
        proof {
            self.live = Ghost(self.live@.push(slot));
        }
    }

    /// Unlinks the first node and returns its value; the head moves on to its successor.
    pub(crate) fn pop_front(&mut self) -> (r: Result<T, LinkedListError>)
        requires
            old(self).wf(),
        ensures
            final(self).wf(),
            r == first_item(old(self)@),
            final(self)@ == without_first(old(self)@),
    {
        let slot = match self.head {
            None => {
                return Err(LinkedListError::EmptyList);
            },
            Some(slot) => slot,
        };
        let value = self.nodes[slot].value;
        self.head = self.nodes[slot].next;
        self.length -= 1;
        if self.length == 0 {
            self.tail = None;
        }
        proof {
            self.live = Ghost(self.live@.drop_first());
        }
        self.release(slot);
        Ok(value)
    }

    /// Unlinks the last node and returns its value; the tail moves back to the node before
    /// it, which a walk from the head finds.
    pub(crate) fn pop_back(&mut self) -> (r: Result<T, LinkedListError>)
        requires
            old(self).wf(),
        ensures
            final(self).wf(),
            r == last_item(old(self)@),
            final(self)@ == without_last(old(self)@),
    {
        let slot = match self.tail {
            None => {
                return Err(LinkedListError::EmptyList);
            },
            Some(slot) => slot,
        };
        let value = self.nodes[slot].value;
        if self.length == 1 {
            self.head = None;
            self.tail = None;
        } else {
            let prev = self.get_node(self.length - 2);
            let kept = self.nodes[prev].value;
            self.nodes.set(prev, Node::new(kept));
            self.tail = Some(prev);
        }
        self.length -= 1;
        proof {
            self.live = Ghost(self.live@.drop_last());
        }
        self.release(slot);
        Ok(value)
    }

    /// Unlinks the node at position `idx` and returns its value; the node before it comes to
    /// point at the one behind it, and the tail moves back where the last node went.
    pub(crate) fn remove(&mut self, idx: usize) -> (r: Result<T, LinkedListError>)
        requires
            old(self).wf(),
        ensures
            final(self).wf(),
            r == item_at(old(self)@, idx as int),
            final(self)@ == without_item(old(self)@, idx as int),
    {
        if self.length == 0 {
            return Err(LinkedListError::EmptyList);
        }
        if idx > self.length - 1 {
            return Err(LinkedListError::OutOfBounds);
        }
        if idx == 0 {
            return self.pop_front();
        }
        let prev = self.get_node(idx - 1);
        let slot = self.nodes[prev].next.unwrap();
        let value = self.nodes[slot].value;
        let next = self.nodes[slot].next;
        let kept = self.nodes[prev].value;
        let bridge = Node { value: kept, next };
        proof {
            lemma_bypass(self.nodes@, self.head, self.live@, idx as int, bridge);
            lemma_path_untouched(self.nodes@, self.spare, self.idle@, prev, bridge);
        }
        self.nodes.set(prev, bridge);
        if idx == self.length - 1 {
            self.tail = Some(prev);
        }
        self.length -= 1;
        proof {
            self.live = Ghost(self.live@.remove(idx as int));
        }
        self.release(slot);
        Ok(value)
    }

    /// Walks the chain from the head until a value compares equal to `item`.
    pub(crate) fn contains(&self, item: T) -> (found: bool) where T: PartialEq
        requires
            self.wf(),
        ensures
            T::obeys_eq_spec() ==> found == holds(self@, item),
            found ==> some_equal(self@, item),
            !found ==> none_equal(self@, item),
    {
        let mut cursor = self.head;
        let ghost mut place: int = 0;
        while cursor.is_some()
            invariant
                self.wf(),
                0 <= place <= self.live@.len(),
                cursor == slot_of(self.live@, place),
                T::obeys_eq_spec() ==> forall|i: int|
                    0 <= i < place ==> !(#[trigger] self@[i]).eq_spec(&item),
                forall|i: int| 0 <= i < place ==> answers(#[trigger] self@[i], item, false),
            decreases self.live@.len() - place,
        {
            let slot = cursor.unwrap();
            if self.nodes[slot].value == item {
                assert(answers(self@[place], item, true));
                return true;
            }
            cursor = self.nodes[slot].next;
            proof {
                place = place + 1;
            }
        }
        false
    }

    /// Moves every value of `other` to the back of this chain, in order.
    pub(crate) fn append(&mut self, other: Chain<T>)
        requires
            old(self).wf(),
            other.wf(),
        ensures
            final(self).wf(),
            final(self)@ == old(self)@ + other@,
    {
        if self.length == 0 {
            *self = other;
            return;
        }
        let mut cursor = other.head;
        let ghost mut place: int = 0;
        while cursor.is_some()
            invariant
                self.wf(),
                other.wf(),
                0 <= place <= other.live@.len(),
                cursor == slot_of(other.live@, place),
                self@ == old(self)@ + other@.take(place),
            decreases other.live@.len() - place,
        {
            let slot = cursor.unwrap();
            self.push_back(other.nodes[slot].value);
            cursor = other.nodes[slot].next;
            proof {
                place = place + 1;
            }
        }
    }

    /// Takes the nodes out of the chain one by one, leaving every slot ready for reuse.
    pub(crate) fn clear(&mut self)
        requires
            old(self).wf(),
        ensures
            final(self).wf(),
            final(self)@ == Seq::<T>::empty(),
    {
        while self.length > 0
            invariant
                self.wf(),
            decreases self.length,
        {
            let _ = self.pop_front();
            assert(self@.len() == self.length);
        }
    }
}

} // verus!
