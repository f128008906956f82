//! Lists of values of several types kept in one common form.
//!
//! A value that was of type `T` before it was brought into the common form `U`
//! gets a node that is laid out for a `T`, with the size of `T` as its
//! descriptor.

use crate::allocator::{Allocator, Global};
use crate::cursor::cursor_mut::{place_after, place_after_insertion, place_before, CursorMut};
use crate::errors::AllocateError;
use crate::layout::Layout;
use crate::list::DynList;
use crate::node::{header_layout, node_layout_spec, Outcome};
use crate::list::Header;
use crate::sized::{
    after_all, grants_all, sized_layout, spec_push_back, spec_push_front,
};
use crate::uninit::refused;
use vstd::prelude::*;

verus! {

impl<U, A: Allocator> DynList<U, A> {
    /// How a request for a node of a value that was of type `T` ends at the
    /// list's allocator, as it stands.
    pub open spec fn unsize_outcome<T>(&self) -> Outcome {
        self.outcome(true, sized_layout::<T>())
    }

    /// Attempts to push `value`, which was a `T`, to the front of the list.
    ///
    /// On failure the list is as it was, and the error holds `value`.
    pub fn try_push_front_unsize<T>(&mut self, value: U) -> (r: Result<(), AllocateError<U>>)
        requires
            old(self).wf(),
        ensures
            final(self).wf(),
            match r {
                Ok(_) => {
                    &&& old(self).unsize_outcome::<T>() is Granted
                    &&& final(self)@ == spec_push_front(old(self)@, value)
                    &&& final(self).spec_allocator() == old(self).spec_allocator().after_allocate(
                        old(self).unsize_outcome::<T>()->Granted_0,
                    )
                },
                Err(error) => {
                    &&& *final(self) == *old(self)
                    &&& error.spec_value() == value
                    &&& refused(old(self).unsize_outcome::<T>(), error.spec_layout())
                },
            },
    {
        self.try_push_value_front(Some(core::mem::size_of::<T>()), Layout::new::<T>(), value)
    }

    /// Attempts to push `value`, which was a `T`, to the back of the list.
    ///
    /// On failure the list is as it was, and the error holds `value`.
    pub fn try_push_back_unsize<T>(&mut self, value: U) -> (r: Result<(), AllocateError<U>>)
        requires
            old(self).wf(),
        ensures
            final(self).wf(),
            match r {
                Ok(_) => {
                    &&& old(self).unsize_outcome::<T>() is Granted
                    &&& final(self)@ == spec_push_back(old(self)@, value)
                    &&& final(self).spec_allocator() == old(self).spec_allocator().after_allocate(
                        old(self).unsize_outcome::<T>()->Granted_0,
                    )
                },
                Err(error) => {
                    &&& *final(self) == *old(self)
                    &&& error.spec_value() == value
                    &&& refused(old(self).unsize_outcome::<T>(), error.spec_layout())
                },
            },
    {
        self.try_push_value_back(Some(core::mem::size_of::<T>()), Layout::new::<T>(), value)
    }

    /// Pushes `value`, which was a `T`, to the front of the list.
    ///
    /// A layout must exist for the node, and the allocator must grant it.
    pub fn push_front_unsize<T>(&mut self, value: U)
        requires
            old(self).wf(),
            old(self).unsize_outcome::<T>() is Granted,
        ensures
            final(self).wf(),
            final(self)@ == spec_push_front(old(self)@, value),
            final(self).spec_allocator() == old(self).spec_allocator().after_allocate(
                old(self).unsize_outcome::<T>()->Granted_0,
            ),
    {
        match self.try_push_front_unsize::<T>(value) {
            Ok(_) => {},
            Err(_) => unreached(),
        }
    }

    /// Pushes `value`, which was a `T`, to the back of the list.
    ///
    /// A layout must exist for the node, and the allocator must grant it.
    pub fn push_back_unsize<T>(&mut self, value: U)
        requires
            old(self).wf(),
            old(self).unsize_outcome::<T>() is Granted,
        ensures
            final(self).wf(),
            final(self)@ == spec_push_back(old(self)@, value),
            final(self).spec_allocator() == old(self).spec_allocator().after_allocate(
                old(self).unsize_outcome::<T>()->Granted_0,
            ),
    {
        match self.try_push_back_unsize::<T>(value) {
            Ok(_) => {},
            Err(_) => unreached(),
        }
    }

    /// Pushes the values of `items`, which were of type `T`, to the back of
    /// the list, in their order.
    ///
    /// A layout must exist for a node, and the allocator must grant a node
    /// for each value.
    pub fn extend_unsize<T>(&mut self, items: Vec<U>)
        requires
            old(self).wf(),
            items@.len() > 0 ==> !(old(self).unsize_outcome::<T>() is Overflow),
            items@.len() > 0 ==> grants_all(
                old(self).spec_allocator(),
                node_layout_spec(
                    header_layout::<Header>(),
                    true,
                    sized_layout::<T>(),
                ).unwrap().layout,
                items@.len(),
            ),
        ensures
            final(self).wf(),
            final(self)@ == old(self)@ + items@,
            items@.len() > 0 ==> final(self).spec_allocator() == after_all(
                old(self).spec_allocator(),
                node_layout_spec(
                    header_layout::<Header>(),
                    true,
                    sized_layout::<T>(),
                ).unwrap().layout,
                items@.len(),
            ),
            items@.len() == 0 ==> *final(self) == *old(self),
    {
        self.extend_values(Some(core::mem::size_of::<T>()), Layout::new::<T>(), items)
    }

    /// Gathers the values of `items`, which were of type `T`, into a list in
    /// the given allocator.
    ///
    /// A layout must exist for a node, and the allocator must grant a node
    /// for each value.
    pub fn from_iter_unsize_in<T>(items: Vec<U>, allocator: A) -> (r: Self)
        requires
            items@.len() > 0 ==> node_layout_spec(
                header_layout::<Header>(),
                true,
                sized_layout::<T>(),
            ) is Some,
            items@.len() > 0 ==> grants_all(
                allocator,
                node_layout_spec(
                    header_layout::<Header>(),
                    true,
                    sized_layout::<T>(),
                ).unwrap().layout,
                items@.len(),
            ),
        ensures
            r.wf(),
            r@ == items@,
            items@.len() > 0 ==> r.spec_allocator() == after_all(
                allocator,
                node_layout_spec(
                    header_layout::<Header>(),
                    true,
                    sized_layout::<T>(),
                ).unwrap().layout,
                items@.len(),
            ),
            items@.len() == 0 ==> r.spec_allocator() == allocator,
    {
        let mut list = Self::new_in(allocator);
        list.extend_unsize::<T>(items);
        proof {
            assert(Seq::<U>::empty() + items@ =~= items@);
        }
        list
    }
}

impl<U> DynList<U, Global> {
    /// Gathers the values of `items`, which were of type `T`, into a list.
    ///
    /// A layout must exist for a node of such a value.
    pub fn from_iter_unsize<T>(items: Vec<U>) -> (r: Self)
        requires
            items@.len() > 0 ==> node_layout_spec(
                header_layout::<Header>(),
                true,
                sized_layout::<T>(),
            ) is Some,
        ensures
            r.wf(),
            r@ == items@,
            r.spec_allocator() == Global,
    {
        proof {
            if items@.len() > 0 {
                crate::sized::lemma_global_grants_all(
                    node_layout_spec(
                        header_layout::<Header>(),
                        true,
                        sized_layout::<T>(),
                    ).unwrap().layout,
                    items@.len(),
                );
            }
        }
        Self::from_iter_unsize_in::<T>(items, Global)
    }
}

impl<'a, U, A: Allocator> CursorMut<'a, U, A> {
    /// Attempts to insert `value`, which was a `T`, before the current node.
    /// The cursor stays on the element it was on.
    ///
    /// On failure the list is as it was, and the error holds `value`.
    pub fn try_insert_before_unsize<T>(&mut self, value: U) -> (r: Result<(), AllocateError<U>>)
        requires
            old(self).wf(),
        ensures
            final(self).wf(),
            final(self).current == old(self).current,
            *final(final(self).list) == *final(old(self).list),
            match r {
                Ok(_) => {
                    let k = place_before(old(self).list()@.len() as int, old(self).index());
                    let outcome = old(self).list().unsize_outcome::<T>();
                    &&& outcome is Granted
                    &&& final(self).list()@ == old(self).list()@.insert(k, value)
                    &&& final(self).index() == place_after_insertion(old(self).index(), k)
                    &&& final(self).list().spec_allocator()
                        == old(self).list().spec_allocator().after_allocate(outcome->Granted_0)
                },
                Err(error) => {
                    &&& final(self).list() == old(self).list()
                    &&& error.spec_value() == value
                    &&& refused(old(self).list().unsize_outcome::<T>(), error.spec_layout())
                },
            },
    {
        self.try_insert_value_before(Some(core::mem::size_of::<T>()), Layout::new::<T>(), value)
    }

    /// Attempts to insert `value`, which was a `T`, after the current node.
    /// The cursor stays on the element it was on.
    ///
    /// On failure the list is as it was, and the error holds `value`.
    pub fn try_insert_after_unsize<T>(&mut self, value: U) -> (r: Result<(), AllocateError<U>>)
        requires
            old(self).wf(),
        ensures
            final(self).wf(),
            final(self).current == old(self).current,
            *final(final(self).list) == *final(old(self).list),
            match r {
                Ok(_) => {
                    let k = place_after(old(self).list()@.len() as int, old(self).index());
                    let outcome = old(self).list().unsize_outcome::<T>();
                    &&& outcome is Granted
                    &&& final(self).list()@ == old(self).list()@.insert(k, value)
                    &&& final(self).index() == old(self).index()
                    &&& final(self).list().spec_allocator()
                        == old(self).list().spec_allocator().after_allocate(outcome->Granted_0)
                },
                Err(error) => {
                    &&& final(self).list() == old(self).list()
                    &&& error.spec_value() == value
                    &&& refused(old(self).list().unsize_outcome::<T>(), error.spec_layout())
                },
            },
    {
        self.try_insert_value_after(Some(core::mem::size_of::<T>()), Layout::new::<T>(), value)
    }

    /// Inserts `value`, which was a `T`, before the current node. The cursor
    /// stays on the element it was on.
    ///
    /// A layout must exist for the node, and the allocator must grant it.
    pub fn insert_before_unsize<T>(&mut self, value: U)
        requires
            old(self).wf(),
            old(self).list().unsize_outcome::<T>() is Granted,
        ensures
            final(self).wf(),
            final(self).current == old(self).current,
            *final(final(self).list) == *final(old(self).list),
            final(self).list()@ == old(self).list()@.insert(
                place_before(old(self).list()@.len() as int, old(self).index()),
                value,
            ),
            final(self).index() == place_after_insertion(
                old(self).index(),
                place_before(old(self).list()@.len() as int, old(self).index()),
            ),
            final(self).list().spec_allocator() == old(self).list().spec_allocator().after_allocate(
                old(self).list().unsize_outcome::<T>()->Granted_0,
            ),
    {
        match self.try_insert_before_unsize::<T>(value) {
            Ok(_) => {},
            Err(_) => unreached(),
        }
    }

    /// Inserts `value`, which was a `T`, after the current node. The cursor
    /// stays on the element it was on.
    ///
    /// A layout must exist for the node, and the allocator must grant it.
    pub fn insert_after_unsize<T>(&mut self, value: U)
        requires
            old(self).wf(),
            old(self).list().unsize_outcome::<T>() is Granted,
        ensures
            final(self).wf(),
            final(self).current == old(self).current,
            *final(final(self).list) == *final(old(self).list),
            final(self).list()@ == old(self).list()@.insert(
                place_after(old(self).list()@.len() as int, old(self).index()),
                value,
            ),
            final(self).index() == old(self).index(),
            final(self).list().spec_allocator() == old(self).list().spec_allocator().after_allocate(
                old(self).list().unsize_outcome::<T>()->Granted_0,
            ),
    {
        match self.try_insert_after_unsize::<T>(value) {
            Ok(_) => {},
            Err(_) => unreached(),
        }
    }
}

} // verus!
