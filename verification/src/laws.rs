//! Laws that relate the operations of a list to each other.

use crate::allocator::Allocator;
use crate::cursor::cursor::{spec_move_next, spec_move_previous};
use crate::iter::{rest_front, Iter};
use crate::list::DynList;
use crate::sized::{spec_pop_back, spec_pop_front, spec_push_back, spec_push_front};
use vstd::prelude::*;

verus! {

/// A value pushed to the back is the value that a pop from the back returns,
/// and the pop leaves the values that were there before the push: none, where
/// there were none.
pub proof fn lemma_push_back_pop_back<T>(values: Seq<T>, value: T)
    ensures
        spec_pop_back(spec_push_back(values, value)) == (Some(value), values),
        values.len() == 0 ==> spec_pop_back(spec_push_back(values, value)).1.len() == 0,
{
    assert(values.push(value).drop_last() =~= values);
}

/// A value pushed to the front is the value that a pop from the front
/// returns, and the pop leaves the values that were there before the push.
pub proof fn lemma_push_front_pop_front<T>(values: Seq<T>, value: T)
    ensures
        spec_pop_front(spec_push_front(values, value)) == (Some(value), values),
{
    assert((seq![value] + values).drop_first() =~= values);
}

/// The values that an iterator hands out, one call of `next` after another,
/// until none is left.
pub open spec fn yields<T>(remaining: Seq<T>) -> Seq<T>
    decreases remaining.len(),
{
    if remaining.len() == 0 {
        Seq::<T>::empty()
    } else {
        seq![remaining[0]] + yields(rest_front(remaining))
    }
}

/// An iterator hands out the values that it has left, in their order.
pub proof fn lemma_yields_all<T>(remaining: Seq<T>)
    ensures
        yields(remaining) == remaining,
    decreases remaining.len(),
{
    if remaining.len() > 0 {
        lemma_yields_all(rest_front(remaining));
        assert(seq![remaining[0]] + remaining.drop_first() =~= remaining);
    } else {
        assert(remaining =~= Seq::<T>::empty());
    }
}

/// Two iterators made from one list, with no change to the list between
/// them, hand out the same values in the same order: the values of the list.
pub proof fn lemma_iteration_repeatable<U, A: Allocator>(
    list: DynList<U, A>,
    first: Iter<'_, U, A>,
    second: Iter<'_, U, A>,
)
    requires
        first@ == list@,
        second@ == list@,
    ensures
        yields(first@) == yields(second@),
        yields(first@) == list@,
{
    lemma_yields_all(list@);
}

/// Where a cursor at place `at` of a list of `len` values stands after
/// `steps` steps forwards.
pub open spec fn moved_next(len: int, at: Option<int>, steps: nat) -> Option<int>
    decreases steps,
{
    if steps == 0 {
        at
    } else {
        spec_move_next(len, moved_next(len, at, (steps - 1) as nat))
    }
}

/// Where a cursor at place `at` of a list of `len` values stands after
/// `steps` steps backwards.
pub open spec fn moved_previous(len: int, at: Option<int>, steps: nat) -> Option<int>
    decreases steps,
{
    if steps == 0 {
        at
    } else {
        spec_move_previous(len, moved_previous(len, at, (steps - 1) as nat))
    }
}

/// From the ghost place, `steps` steps forwards that do not go round the
/// list lead to the value at place `steps - 1`.
pub proof fn lemma_moved_next_from_ghost(len: nat, steps: nat)
    requires
        1 <= steps <= len,
    ensures
        moved_next(len as int, None, steps) == Some(steps - 1),
    decreases steps,
{
    if steps > 1 {
        lemma_moved_next_from_ghost(len, (steps - 1) as nat);
    } else {
        assert(moved_next(len as int, None, 0) is None);
    }
    assert(moved_next(len as int, None, steps) == spec_move_next(
        len as int,
        moved_next(len as int, None, (steps - 1) as nat),
    ));
}

/// From the ghost place, `steps` steps backwards that do not go round the
/// list lead to the value at place `len - steps`.
pub proof fn lemma_moved_previous_from_ghost(len: nat, steps: nat)
    requires
        1 <= steps <= len,
    ensures
        moved_previous(len as int, None, steps) == Some(len - steps),
    decreases steps,
{
    if steps > 1 {
        lemma_moved_previous_from_ghost(len, (steps - 1) as nat);
    } else {
        assert(moved_previous(len as int, None, 0) is None);
    }
    assert(moved_previous(len as int, None, steps) == spec_move_previous(
        len as int,
        moved_previous(len as int, None, (steps - 1) as nat),
    ));
}

/// The list is a circle with the ghost place in it: from the ghost place,
/// one step more than the list has values leads back to the ghost place, in
/// either direction.
pub proof fn lemma_cursor_circular(len: nat)
    ensures
        moved_next(len as int, None, len + 1) is None,
        moved_previous(len as int, None, len + 1) is None,
{
    if len > 0 {
        lemma_moved_next_from_ghost(len, len);
        lemma_moved_previous_from_ghost(len, len);
    } else {
        assert(moved_next(0, None, 0) is None);
        assert(moved_previous(0, None, 0) is None);
    }
    assert(moved_next(len as int, None, len + 1) == spec_move_next(
        len as int,
        moved_next(len as int, None, len),
    ));
    assert(moved_previous(len as int, None, len + 1) == spec_move_previous(
        len as int,
        moved_previous(len as int, None, len),
    ));
}

/// On the empty list every step from the ghost place leads to the ghost
/// place.
pub proof fn lemma_cursor_stays_on_ghost_of_empty(steps: nat)
    ensures
        moved_next(0, None, steps) is None,
        moved_previous(0, None, steps) is None,
    decreases steps,
{
    if steps > 0 {
        lemma_cursor_stays_on_ghost_of_empty((steps - 1) as nat);
        assert(moved_next(0, None, steps) == spec_move_next(
            0,
            moved_next(0, None, (steps - 1) as nat),
        ));
        assert(moved_previous(0, None, steps) == spec_move_previous(
            0,
            moved_previous(0, None, (steps - 1) as nat),
        ));
    }
}

} // verus!
