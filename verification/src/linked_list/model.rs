//! What each list operation means on the sequence of values that a list stands for.

use vstd::prelude::*;
use vstd::std_specs::cmp::PartialEqSpec;
use crate::linked_list::LinkedListError;

verus! {

/// What looking up position `idx` yields in a list that holds `items`.
pub open spec fn item_at<T>(items: Seq<T>, idx: int) -> Result<T, LinkedListError> {
    if items.len() == 0 {
        Err(LinkedListError::EmptyList)
    } else if 0 <= idx < items.len() {
        Ok(items[idx])
    } else {
        Err(LinkedListError::OutOfBounds)
    }
}

/// What looking at the front yields in a list that holds `items`.
pub open spec fn first_item<T>(items: Seq<T>) -> Result<T, LinkedListError> {
    if items.len() == 0 {
        Err(LinkedListError::EmptyList)
    } else {
        Ok(items.first())
    }
}

/// What looking at the back yields in a list that holds `items`.
pub open spec fn last_item<T>(items: Seq<T>) -> Result<T, LinkedListError> {
    if items.len() == 0 {
        Err(LinkedListError::EmptyList)
    } else {
        Ok(items.last())
    }
}

/// The items left once the front one is taken away; nothing changes where there is none.
pub open spec fn without_first<T>(items: Seq<T>) -> Seq<T> {
    if items.len() == 0 {
        items
    } else {
        items.drop_first()
    }
}

/// The items left once the back one is taken away; nothing changes where there is none.
pub open spec fn without_last<T>(items: Seq<T>) -> Seq<T> {
    if items.len() == 0 {
        items
    } else {
        items.drop_last()
    }
}

/// The items left once position `idx` is taken away; nothing changes where `idx` names no item.
pub open spec fn without_item<T>(items: Seq<T>, idx: int) -> Seq<T> {
    if 0 <= idx < items.len() {
        items.remove(idx)
    } else {
        items
    }
}

/// Whether `==`, asked if `a` equals `b`, can answer `verdict`.
pub open spec fn answers<T: PartialEq>(a: T, b: T, verdict: bool) -> bool {
    call_ensures(T::eq, (&a, &b), verdict)
}

/// Whether `==` can answer yes for one of `items` and `item`.
pub open spec fn some_equal<T: PartialEq>(items: Seq<T>, item: T) -> bool {
    exists|i: int| 0 <= i < items.len() && answers(#[trigger] items[i], item, true)
}

/// Whether `==` can answer no for each of `items` and `item`.
pub open spec fn none_equal<T: PartialEq>(items: Seq<T>, item: T) -> bool {
    forall|i: int| 0 <= i < items.len() ==> answers(#[trigger] items[i], item, false)
}

/// Whether some item equals `item`, for a type whose `==` has a meaning in contracts.
pub open spec fn holds<T: PartialEq>(items: Seq<T>, item: T) -> bool {
    exists|i: int| 0 <= i < items.len() && (#[trigger] items[i]).eq_spec(&item)
}

} // verus!
