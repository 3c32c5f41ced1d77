//! What holds of list operations carried out one after another.
//!
//! Each law speaks of the sequence of values that a list stands for, in the terms in which
//! the operations of [`LinkedList`](crate::linked_list::LinkedList) state their results.

use vstd::prelude::*;
use crate::linked_list::LinkedListError;
use crate::linked_list::model::{
    first_item, item_at, last_item, without_first, without_item, without_last,
};

verus! {

/// The items of a list that held `items` after `push_back` of each of `values`, first to last.
pub open spec fn pushed_back<T>(items: Seq<T>, values: Seq<T>) -> Seq<T>
    decreases values.len(),
{
    if values.len() == 0 {
        items
    } else {
        pushed_back(items, values.drop_last()).push(values.last())
    }
}

/// The items of a list that held `items` after `push_front` of each of `values`, first to last.
pub open spec fn pushed_front<T>(items: Seq<T>, values: Seq<T>) -> Seq<T>
    decreases values.len(),
{
    if values.len() == 0 {
        items
    } else {
        seq![values.last()] + pushed_front(items, values.drop_last())
    }
}

/// The items of a list that held `items` after `pop_front` was called `times` times.
pub open spec fn popped_front<T>(items: Seq<T>, times: nat) -> Seq<T>
    decreases times,
{
    if times == 0 {
        items
    } else {
        without_first(popped_front(items, (times - 1) as nat))
    }
}

/// The items of a list that held `items` after `pop_back` was called `times` times.
pub open spec fn popped_back<T>(items: Seq<T>, times: nat) -> Seq<T>
    decreases times,
{
    if times == 0 {
        items
    } else {
        without_last(popped_back(items, (times - 1) as nat))
    }
}

/// Values pushed at the back, one after another, come to stand behind what was there, in
/// the order of the calls.
pub proof fn lemma_pushed_back<T>(items: Seq<T>, values: Seq<T>)
    ensures
        pushed_back(items, values) == items + values,
    decreases values.len(),
{
    if values.len() > 0 {
        lemma_pushed_back(items, values.drop_last());
    }
}

/// Values pushed at the front, one after another, come to stand before what was there,
/// the last one pushed first.
pub proof fn lemma_pushed_front<T>(items: Seq<T>, values: Seq<T>)
    ensures
        pushed_front(items, values) == values.reverse() + items,
    decreases values.len(),
{
    if values.len() > 0 {
        lemma_pushed_front(items, values.drop_last());
        assert(seq![values.last()] + (values.drop_last().reverse() + items) =~= values.reverse()
            + items);
    }
}

/// Popping at the front `times` times leaves the items from position `times` on.
pub proof fn lemma_popped_front<T>(items: Seq<T>, times: nat)
    requires
        times <= items.len(),
    ensures
        popped_front(items, times) == items.skip(times as int),
    decreases times,
{
    if times > 0 {
        lemma_popped_front(items, (times - 1) as nat);
    }
}

/// Popping at the back `times` times leaves all items but the last `times`.
pub proof fn lemma_popped_back<T>(items: Seq<T>, times: nat)
    requires
        times <= items.len(),
    ensures
        popped_back(items, times) == items.take(items.len() - times),
    decreases times,
{
    if times > 0 {
        lemma_popped_back(items, (times - 1) as nat);
        assert(items.take(items.len() - times + 1).drop_last() =~= items.take(
            items.len() - times,
        ));
    }
}

/// After `push_back` of each of `values` on an empty list, the list is as long as `values`,
/// and `get(i)` returns the value of the `i`-th call.
pub proof fn law_push_back_then_get<T>(values: Seq<T>)
    ensures
        pushed_back(Seq::<T>::empty(), values).len() == values.len(),
        forall|i: int|
            0 <= i < values.len() ==> item_at(pushed_back(Seq::<T>::empty(), values), i) == Ok::<
                T,
                LinkedListError,
            >(#[trigger] values[i]),
{
    lemma_pushed_back(Seq::<T>::empty(), values);
}

/// After `push_front` of each of `values` on an empty list, the list is as long as
/// `values`, and `get(i)` returns the value of the call that was `i` calls before the last:
/// `get(0)` the value pushed last, `get(n - 1)` the one pushed first.
pub proof fn law_push_front_then_get<T>(values: Seq<T>)
    ensures
        pushed_front(Seq::<T>::empty(), values).len() == values.len(),
        forall|i: int|
            0 <= i < values.len() ==> item_at(pushed_front(Seq::<T>::empty(), values), i) == Ok::<
                T,
                LinkedListError,
            >(#[trigger] values[values.len() - 1 - i]),
{
    lemma_pushed_front(Seq::<T>::empty(), values);
}

/// First in, first out: after `push_back` of each of `values` on an empty list, the call
/// of `pop_front` that follows `done` earlier ones returns the value pushed at turn `done`.
pub proof fn law_pop_front_is_fifo<T>(values: Seq<T>, done: nat)
    requires
        done < values.len(),
    ensures
        first_item(popped_front(pushed_back(Seq::<T>::empty(), values), done)) == Ok::<
            T,
            LinkedListError,
        >(values[done as int]),
{
    lemma_pushed_back(Seq::<T>::empty(), values);
    lemma_popped_front(values, done);
}

/// Last in, first out: after `push_back` of each of `values` on an empty list, the call of
/// `pop_back` that follows `done` earlier ones returns the value pushed `done` turns before
/// the last.
pub proof fn law_pop_back_is_lifo<T>(values: Seq<T>, done: nat)
    requires
        done < values.len(),
    ensures
        last_item(popped_back(pushed_back(Seq::<T>::empty(), values), done)) == Ok::<
            T,
            LinkedListError,
        >(values[values.len() - 1 - done]),
{
    lemma_pushed_back(Seq::<T>::empty(), values);
    lemma_popped_back(values, done);
}

/// After `remove(idx)` has taken an item out, the list is shorter by one, `get` returns
/// what it did before at the positions before `idx`, and at `idx` and behind it what it
/// returned before for the position one further back.
pub proof fn law_remove_then_get<T>(items: Seq<T>, idx: int)
    requires
        0 <= idx < items.len(),
    ensures
        without_item(items, idx).len() == items.len() - 1,
        forall|j: int|
            0 <= j < idx ==> #[trigger] item_at(without_item(items, idx), j) == item_at(items, j),
        forall|j: int|
            idx <= j < items.len() - 1 ==> #[trigger] item_at(without_item(items, idx), j)
                == item_at(items, j + 1),
{
}

/// Where `remove(idx)` fails, the list is left as it was.
pub proof fn law_remove_failed_keeps<T>(items: Seq<T>, idx: int)
    requires
        item_at(items, idx) is Err,
    ensures
        without_item(items, idx) == items,
{
}

/// After `append`, the list is as long as both lists together; `get` returns the items of
/// the first list at their old positions, and behind them those of the second in order.
pub proof fn law_append_then_get<T>(items: Seq<T>, other: Seq<T>)
    ensures
        (items + other).len() == items.len() + other.len(),
        forall|i: int|
            0 <= i < items.len() ==> #[trigger] item_at(items + other, i) == item_at(items, i),
        forall|i: int|
            items.len() <= i < items.len() + other.len() ==> #[trigger] item_at(items + other, i)
                == item_at(other, i - items.len()),
{
}

/// On the empty list, to which `clear` takes any list, `get`, `front` and `back` fail with
/// `EmptyList`, as `pop_front` and `pop_back` do, which leave it empty.
pub proof fn law_cleared_is_empty<T>(idx: int)
    ensures
        Seq::<T>::empty().len() == 0,
        item_at(Seq::<T>::empty(), idx) == Err::<T, LinkedListError>(LinkedListError::EmptyList),
        first_item(Seq::<T>::empty()) == Err::<T, LinkedListError>(LinkedListError::EmptyList),
        last_item(Seq::<T>::empty()) == Err::<T, LinkedListError>(LinkedListError::EmptyList),
        without_first(Seq::<T>::empty()) == Seq::<T>::empty(),
        without_last(Seq::<T>::empty()) == Seq::<T>::empty(),
{
}

} // verus!
