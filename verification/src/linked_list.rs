//! A singly linked sequence that keeps track of both of its ends.
//!
//! A [`LinkedList`] stands for a finite sequence of values, written `list@` in contracts.
//! Every operation says what it returns and how it changes that sequence, in the terms of
//! [`model`]; [`laws`] holds what follows for operations carried out one after another.

use vstd::prelude::*;
use vstd::std_specs::cmp::PartialEqSpec;
use vstd::std_specs::convert::FromSpecImpl;
use crate::linked_list::chain::Chain;
use crate::linked_list::model::{
    first_item, holds, item_at, last_item, none_equal, some_equal, without_first, without_item,
    without_last,
};

mod chain;
pub mod laws;
pub mod model;

verus! {

/// Why an operation on a [`LinkedList`] could not be carried out.
#[derive(Debug, PartialEq, Eq, Structural)]
pub enum LinkedListError {
    /// The index does not name an element of a non-empty list.
    OutOfBounds,
    /// The list holds no element.
    EmptyList,
}

/// A sequence of values held in forward-linked nodes, with its first and its last node at
/// hand and its length counted.
pub struct LinkedList<T> where T: Copy + PartialEq {
    chain: Chain<T>,
}

impl<T> View for LinkedList<T> where T: Copy + PartialEq {
    type V = Seq<T>;

    /// The values of the list, front first.
    closed spec fn view(&self) -> Seq<T> {
        self.chain@
    }
}

impl<T> LinkedList<T> where T: Copy + PartialEq {
    /// Head, tail and length of the chain agree with its nodes, before and after every
    /// operation.
    #[verifier::type_invariant]
    spec fn well_formed(self) -> bool {
        self.chain.wf()
    }

    /// Takes the chain out for a change, leaving an empty one in its place.
    fn lend(&mut self) -> (chain: Chain<T>)
        ensures
            chain.wf(),
            chain@ == old(self)@,
    {
        proof {
            use_type_invariant(&*self);
        }
        let mut chain = Chain::new();
        std::mem::swap(&mut self.chain, &mut chain);
        chain
    }

    /// An empty list.
    pub fn new() -> (list: Self)
        ensures
            list@ == Seq::<T>::empty(),
    {
        LinkedList { chain: Chain::new() }
    }

    /// The number of values in the list.
    pub fn length(&self) -> (n: usize)
        ensures
            n == self@.len(),
    {
        proof {
            use_type_invariant(self);
        }
        self.chain.length()
    }

    /// Whether the list holds no value.
    pub fn is_empty(&self) -> (empty: bool)
        ensures
            empty == (self@.len() == 0),
    {
        proof {
            use_type_invariant(self);
        }
        self.chain.is_empty()
    }

    /// Puts the values of `other` behind those of this list, in their order. `other` is
    /// used up by the call.
    pub fn append(&mut self, other: LinkedList<T>)
        ensures
            final(self)@ == old(self)@ + other@,
    {
        proof {
            use_type_invariant(&other);
        }
        let mut chain = self.lend();
        chain.append(other.chain);
        self.chain = chain;
    }

    /// Empties the list.
    pub fn clear(&mut self)
        ensures
            final(self)@ == Seq::<T>::empty(),
    {
        let mut chain = self.lend();
        chain.clear();
        self.chain = chain;
    }

    /// Whether some value of the list compares equal to `item`, as `==` of `T` sees it.
    ///
    /// The values are asked front to back: `true` comes with a value for which `==`
    /// answered yes, `false` only once it has answered no for every value.
    pub fn contains(&self, item: T) -> (found: bool)
        ensures
            T::obeys_eq_spec() ==> found == holds(self@, item),
            found ==> some_equal(self@, item),
            !found ==> none_equal(self@, item),
    {
        proof {
            use_type_invariant(self);
        }
        self.chain.contains(item)
    }

    /// The value at position `idx`, counted from zero at the front.
    ///
    /// Fails with `EmptyList` on an empty list, and with `OutOfBounds` where the list has
    /// values but none at `idx`.
    pub fn get(&self, idx: usize) -> (r: Result<T, LinkedListError>)
        ensures
            r == item_at(self@, idx as int),
    {
        proof {
            use_type_invariant(self);
        }
        self.chain.get(idx)
    }

    /// Takes the value at position `idx` out of the list and returns it; the values behind
    /// it move up by one.
    ///
    /// Fails as [`LinkedList::get`] does, and then leaves the list as it was.
    pub fn remove(&mut self, idx: usize) -> (r: Result<T, LinkedListError>)
        ensures
            r == item_at(old(self)@, idx as int),
            final(self)@ == without_item(old(self)@, idx as int),
    {
        let mut chain = self.lend();
        let r = chain.remove(idx);
        self.chain = chain;
        r
    }

    /// The first value; `EmptyList` where there is none.
    pub fn front(&self) -> (r: Result<T, LinkedListError>)
        ensures
            r == first_item(self@),
    {
        proof {
            use_type_invariant(self);
        }
        self.chain.front()
    }

    /// The last value; `EmptyList` where there is none.
    pub fn back(&self) -> (r: Result<T, LinkedListError>)
        ensures
            r == last_item(self@),
    {
        proof {
            use_type_invariant(self);
        }
        self.chain.back()
    }

    /// Takes the first value out of the list and returns it; `EmptyList` where there is
    /// none, and the list stays empty.
    pub fn pop_front(&mut self) -> (r: Result<T, LinkedListError>)
        ensures
            r == first_item(old(self)@),
            final(self)@ == without_first(old(self)@),
    {
        let mut chain = self.lend();
        let r = chain.pop_front();
        self.chain = chain;
        r
    }

    /// Takes the last value out of the list and returns it; `EmptyList` where there is
    /// none, and the list stays empty.
    pub fn pop_back(&mut self) -> (r: Result<T, LinkedListError>)
        ensures
            r == last_item(old(self)@),
            final(self)@ == without_last(old(self)@),
    {
        let mut chain = self.lend();
        let r = chain.pop_back();
        self.chain = chain;
        r
    }

    /// Puts `item` before all values of the list.
    pub fn push_front(&mut self, item: T)
        ensures
            final(self)@ == seq![item] + old(self)@,
    {
        let mut chain = self.lend();
        chain.push_front(item);
        self.chain = chain;
    }

    /// Puts `item` behind all values of the list.
    pub fn push_back(&mut self, item: T)
        ensures
            final(self)@ == old(self)@.push(item),
    {
        let mut chain = self.lend();
        chain.push_back(item);
        self.chain = chain;
    }
}

impl<T, const N: usize> From<[T; N]> for LinkedList<T> where T: Copy + PartialEq {
    /// The list of the values of `value`, in their order.
    fn from(value: [T; N]) -> (list: Self)
        ensures
            list@ == value@,
    {
        let mut list = LinkedList::new();
        let mut i: usize = 0;
        while i < N
            invariant
                i <= N,
                list@ == value@.take(i as int),
            decreases N - i,
        {
            list.push_back(value[i]);
            i += 1;
        }
        list
    }
}

/// Two lists of the same values need not be the same value, since their nodes may lie in
/// other slots. So no function of the array names the list that `from` returns: `from` says
/// which values it holds.
impl<T, const N: usize> FromSpecImpl<[T; N]> for LinkedList<T> where T: Copy + PartialEq {
    open spec fn obeys_from_spec() -> bool {
        false
    }

    open spec fn from_spec(value: [T; N]) -> Self {
        arbitrary()
    }
}

} // verus!
