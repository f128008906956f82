//! Cursor operations on lists of values of one fixed size.

use crate::allocator::Allocator;
use crate::cursor::cursor::lemma_step;
use crate::cursor::cursor_mut::{
    lemma_place_after_remove, place_after, place_after_insertion, place_after_removal,
    place_before, CursorMut,
};
use crate::errors::AllocateError;
use crate::layout::Layout;
use crate::list::Header;
use crate::sized::{sized_layout, try_new_sized};
use crate::uninit::{granted_at, refused, MaybeUninitNode};
use vstd::prelude::*;

verus! {

impl<'a, T, A: Allocator> CursorMut<'a, T, A> {
    /// Attempts to allocate an uninitialised node before the current node.
    ///
    /// If the cursor is on the "ghost" element, this will allocate the node
    /// at the back of the list.
    pub fn try_allocate_uninit_sized_before(&mut self) -> (r: Result<
        MaybeUninitNode<'_, T, A>,
        AllocateError,
    >)
        requires
            old(self).wf(),
        ensures
            final(self).current == old(self).current,
            *final(final(self).list) == *final(old(self).list),
            match r {
                Ok(node) => granted_at(
                    old(self).list(),
                    node,
                    place_before(old(self).list()@.len() as int, old(self).index()),
                    None,
                    sized_layout::<T>(),
                    old(self).list().sized_outcome(),
                ) && final(self).list() == *final(node.list),
                Err(error) => final(self).list() == old(self).list() && refused(
                    old(self).list().sized_outcome(),
                    error.spec_layout(),
                ),
            },
    {
        let header: Header = self.links_before();
        try_new_sized(&mut *self.list, header)
    }

    /// Attempts to allocate an uninitialised node after the current node.
    ///
    /// If the cursor is on the "ghost" element, this will allocate the node
    /// at the front of the list.
    pub fn try_allocate_uninit_sized_after(&mut self) -> (r: Result<
        MaybeUninitNode<'_, T, A>,
        AllocateError,
    >)
        requires
            old(self).wf(),
        ensures
            final(self).current == old(self).current,
            *final(final(self).list) == *final(old(self).list),
            match r {
                Ok(node) => granted_at(
                    old(self).list(),
                    node,
                    place_after(old(self).list()@.len() as int, old(self).index()),
                    None,
                    sized_layout::<T>(),
                    old(self).list().sized_outcome(),
                ) && final(self).list() == *final(node.list),
                Err(error) => final(self).list() == old(self).list() && refused(
                    old(self).list().sized_outcome(),
                    error.spec_layout(),
                ),
            },
    {
        let header: Header = self.links_after();
        try_new_sized(&mut *self.list, header)
    }

    /// Allocates an uninitialised node before the current node.
    ///
    /// A layout must exist for the node, and the allocator must grant it.
    pub fn allocate_uninit_sized_before(&mut self) -> (node: MaybeUninitNode<'_, T, A>)
        requires
            old(self).wf(),
            old(self).list().sized_outcome() is Granted,
        ensures
            final(self).current == old(self).current,
            *final(final(self).list) == *final(old(self).list),
            granted_at(
                old(self).list(),
                node,
                place_before(old(self).list()@.len() as int, old(self).index()),
                None,
                sized_layout::<T>(),
                old(self).list().sized_outcome(),
            ),
            final(self).list() == *final(node.list),
    {
        self.allocate_uninit_before(None, Layout::new::<T>())
    }

    /// Allocates an uninitialised node after the current node.
    ///
    /// A layout must exist for the node, and the allocator must grant it.
    pub fn allocate_uninit_sized_after(&mut self) -> (node: MaybeUninitNode<'_, T, A>)
        requires
            old(self).wf(),
            old(self).list().sized_outcome() is Granted,
        ensures
            final(self).current == old(self).current,
            *final(final(self).list) == *final(old(self).list),
            granted_at(
                old(self).list(),
                node,
                place_after(old(self).list()@.len() as int, old(self).index()),
                None,
                sized_layout::<T>(),
                old(self).list().sized_outcome(),
            ),
            final(self).list() == *final(node.list),
    {
        self.allocate_uninit_after(None, Layout::new::<T>())
    }

    /// Attempts to insert `value` before the current node. The cursor stays
    /// on the element it was on.
    ///
    /// On failure the list is as it was, and the error holds `value`.
    pub fn try_insert_before(&mut self, value: T) -> (r: Result<(), AllocateError<T>>)
        requires
            old(self).wf(),
        ensures
            final(self).wf(),
            final(self).current == old(self).current,
            *final(final(self).list) == *final(old(self).list),
            match r {
                Ok(_) => {
                    let k = place_before(old(self).list()@.len() as int, old(self).index());
                    &&& old(self).list().sized_outcome() is Granted
                    &&& final(self).list()@ == old(self).list()@.insert(k, value)
                    &&& final(self).index() == place_after_insertion(old(self).index(), k)
                    &&& final(self).list().spec_allocator() ==
                        old(self).list().spec_allocator().after_allocate(
                        old(self).list().sized_outcome()->Granted_0,
                    )
                },
                Err(error) => {
                    &&& final(self).list() == old(self).list()
                    &&& error.spec_value() == value
                    &&& refused(old(self).list().sized_outcome(), error.spec_layout())
                },
            },
    {
        self.try_insert_value_before(None, Layout::new::<T>(), value)
    }

    /// Attempts to insert `value` after the current node. The cursor stays
    /// on the element it was on.
    ///
    /// On failure the list is as it was, and the error holds `value`.
    pub fn try_insert_after(&mut self, value: T) -> (r: Result<(), AllocateError<T>>)
        requires
            old(self).wf(),
        ensures
            final(self).wf(),
            final(self).current == old(self).current,
            *final(final(self).list) == *final(old(self).list),
            match r {
                Ok(_) => {
                    let k = place_after(old(self).list()@.len() as int, old(self).index());
                    &&& old(self).list().sized_outcome() is Granted
                    &&& final(self).list()@ == old(self).list()@.insert(k, value)
                    &&& final(self).index() == old(self).index()
                    &&& final(self).list().spec_allocator() ==
                        old(self).list().spec_allocator().after_allocate(
                        old(self).list().sized_outcome()->Granted_0,
                    )
                },
                Err(error) => {
                    &&& final(self).list() == old(self).list()
                    &&& error.spec_value() == value
                    &&& refused(old(self).list().sized_outcome(), error.spec_layout())
                },
            },
    {
        self.try_insert_value_after(None, Layout::new::<T>(), value)
    }

    /// Inserts `value` before the current node. The cursor stays on the
    /// element it was on.
    ///
    /// A layout must exist for the node, and the allocator must grant it.
    pub fn insert_before(&mut self, value: T)
        requires
            old(self).wf(),
            old(self).list().sized_outcome() is Granted,
        ensures
            final(self).wf(),
            final(self).current == old(self).current,
            *final(final(self).list) == *final(old(self).list),
            final(self).list()@ == old(self).list()@.insert(
                place_before(old(self).list()@.len() as int, old(self).index()),
                value,
            ),
            final(self).index() == place_after_insertion(
                old(self).index(),
                place_before(old(self).list()@.len() as int, old(self).index()),
            ),
            final(self).list().spec_allocator() == old(self).list().spec_allocator().after_allocate(
                old(self).list().sized_outcome()->Granted_0,
            ),
    {
        match self.try_insert_before(value) {
            Ok(_) => {},
            Err(_) => unreached(),
        }
    }

    /// Inserts `value` after the current node. The cursor stays on the
    /// element it was on.
    ///
    /// A layout must exist for the node, and the allocator must grant it.
    pub fn insert_after(&mut self, value: T)
        requires
            old(self).wf(),
            old(self).list().sized_outcome() is Granted,
        ensures
            final(self).wf(),
            final(self).current == old(self).current,
            *final(final(self).list) == *final(old(self).list),
            final(self).list()@ == old(self).list()@.insert(
                place_after(old(self).list()@.len() as int, old(self).index()),
                value,
            ),
            final(self).index() == old(self).index(),
            final(self).list().spec_allocator() == old(self).list().spec_allocator().after_allocate(
                old(self).list().sized_outcome()->Granted_0,
            ),
    {
        match self.try_insert_after(value) {
            Ok(_) => {},
            Err(_) => unreached(),
        }
    }

    /// Removes the current node and returns its value; the cursor moves to
    /// the element before it, or to the "ghost" element where there is none.
    ///
    /// If the cursor is pointing to the "ghost" element, this returns `None`
    /// and changes nothing.
    pub fn remove_current(&mut self) -> (r: Option<T>)
        requires
            old(self).wf(),
        ensures
            final(self).wf(),
            r is Some <==> old(self).index() is Some,
            r is None ==> final(self).list() == old(self).list() && final(self).current is None,
            r is Some ==> {
                let at = old(self).index().unwrap();
                &&& r->Some_0 == old(self).list()@[at]
                &&& final(self).list()@ == old(self).list()@.remove(at)
                &&& final(self).index() == place_after_removal(at)
                &&& final(self).list().spec_allocator() ==
                    old(self).list().spec_allocator().after_deallocate(
                    old(self).list().arena().node_layout(old(self).current.unwrap()),
                )
            },
            *final(final(self).list) == *final(old(self).list),
    {
        proof {
            lemma_step(self.list().order(), self.list().nodes(), self.current);
        }
        match self.remove_current_node() {
            Some(node) => {
                let value = node.take();
                proof {
                    let at = old(self).index().unwrap();
                    if at > 0 {
                        lemma_place_after_remove(old(self).list().order(), at, at - 1);
                    }
                }
                Some(value)
            },
            None => None,
        }
    }
}

} // verus!
