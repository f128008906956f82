//! Cursor operations on lists of arrays.

use crate::array::{clone_of, clone_prefix, copy_prefix};
use crate::allocator::Allocator;
use crate::array::{array_layout, try_new_array};
use crate::cursor::cursor_mut::{place_after, place_after_insertion, place_before, CursorMut};
use crate::errors::AllocateError;
use crate::list::Header;
use crate::layout::Layout;
use crate::uninit::{granted_at, refused, MaybeUninitNode};
use vstd::prelude::*;

verus! {

impl<'a, T, A: Allocator> CursorMut<'a, Vec<T>, A> {
    /// Attempts to allocate an uninitialised array node before the current node.
    ///
    /// If the cursor is on the "ghost" element, this will allocate the node
    /// at the back of the list.
    ///
    /// Fails where no layout exists for the array or for the node, and where
    /// the allocator declines the node's layout; the list is then as it was.
    pub fn try_allocate_uninit_array_before(&mut self, length: usize) -> (r: Result<
        MaybeUninitNode<'_, Vec<T>, A>,
        AllocateError,
    >)
        requires
            old(self).wf(),
        ensures
            final(self).current == old(self).current,
            *final(final(self).list) == *final(old(self).list),
            match r {
                Ok(node) => array_layout::<T>(length) is Some && granted_at(
                    old(self).list(),
                    node,
                    place_before(old(self).list()@.len() as int, old(self).index()),
                    Some(length),
                    array_layout::<T>(length).unwrap(),
                    old(self).list().array_outcome(length),
                ) && final(self).list() == *final(node.list),
                Err(error) => final(self).list() == old(self).list() && refused(
                    old(self).list().array_outcome(length),
                    error.spec_layout(),
                ),
            },
    {
        let header: Header = self.links_before();
        try_new_array(&mut *self.list, length, header)
    }

    /// Allocates an uninitialised array node before the current node.
    ///
    /// If the cursor is on the "ghost" element, this will allocate the node
    /// at the back of the list.
    ///
    /// A layout must exist for the node, and the allocator must grant it.
    pub fn allocate_uninit_array_before(&mut self, length: usize) -> (node: MaybeUninitNode<
        '_,
        Vec<T>,
        A,
    >)
        requires
            old(self).wf(),
            old(self).list().array_outcome(length) is Granted,
        ensures
            final(self).current == old(self).current,
            *final(final(self).list) == *final(old(self).list),
            granted_at(
                old(self).list(),
                node,
                place_before(old(self).list()@.len() as int, old(self).index()),
                Some(length),
                array_layout::<T>(length).unwrap(),
                old(self).list().array_outcome(length),
            ),
            final(self).list() == *final(node.list),
    {
        AllocateError::unwrap_result(self.try_allocate_uninit_array_before(length))
    }

    /// Attempts to allocate an uninitialised array node after the current node.
    ///
    /// If the cursor is on the "ghost" element, this will allocate the node
    /// at the front of the list.
    ///
    /// Fails where no layout exists for the array or for the node, and where
    /// the allocator declines the node's layout; the list is then as it was.
    pub fn try_allocate_uninit_array_after(&mut self, length: usize) -> (r: Result<
        MaybeUninitNode<'_, Vec<T>, A>,
        AllocateError,
    >)
        requires
            old(self).wf(),
        ensures
            final(self).current == old(self).current,
            *final(final(self).list) == *final(old(self).list),
            match r {
                Ok(node) => array_layout::<T>(length) is Some && granted_at(
                    old(self).list(),
                    node,
                    place_after(old(self).list()@.len() as int, old(self).index()),
                    Some(length),
                    array_layout::<T>(length).unwrap(),
                    old(self).list().array_outcome(length),
                ) && final(self).list() == *final(node.list),
                Err(error) => final(self).list() == old(self).list() && refused(
                    old(self).list().array_outcome(length),
                    error.spec_layout(),
                ),
            },
    {
        let header: Header = self.links_after();
        try_new_array(&mut *self.list, length, header)
    }

    /// Allocates an uninitialised array node after the current node.
    ///
    /// If the cursor is on the "ghost" element, this will allocate the node
    /// at the front of the list.
    ///
    /// A layout must exist for the node, and the allocator must grant it.
    pub fn allocate_uninit_array_after(&mut self, length: usize) -> (node: MaybeUninitNode<
        '_,
        Vec<T>,
        A,
    >)
        requires
            old(self).wf(),
            old(self).list().array_outcome(length) is Granted,
        ensures
            final(self).current == old(self).current,
            *final(final(self).list) == *final(old(self).list),
            granted_at(
                old(self).list(),
                node,
                place_after(old(self).list()@.len() as int, old(self).index()),
                Some(length),
                array_layout::<T>(length).unwrap(),
                old(self).list().array_outcome(length),
            ),
            final(self).list() == *final(node.list),
    {
        AllocateError::unwrap_result(self.try_allocate_uninit_array_after(length))
    }

    /// Attempts to copy `src` and insert it before the current node. The
    /// cursor stays on the element it was on.
    ///
    /// On failure the list is as it was.
    pub fn try_insert_copy_slice_before(&mut self, src: &[T]) -> (r: Result<
        (),
        AllocateError,
    >) where
        T: Copy,

        requires
            old(self).wf(),
        ensures
            final(self).wf(),
            final(self).current == old(self).current,
            *final(final(self).list) == *final(old(self).list),
            match r {
                Ok(_) => {
                    let k = place_before(old(self).list()@.len() as int, old(self).index());
                    let outcome = old(self).list().array_outcome(src@.len() as usize);
                    &&& outcome is Granted
                    &&& final(self).list()@.len() == old(self).list()@.len() + 1
                    &&& final(self).list()@[k]@ == src@
                    &&& final(self).list()@.remove(k) == old(self).list()@
                    &&& final(self).index() == place_after_insertion(
                        old(self).index(),
                        place_before(old(self).list()@.len() as int, old(self).index()),
                    )
                    &&& final(self).list().spec_allocator() ==
                        old(self).list().spec_allocator().after_allocate(outcome->Granted_0)
                },
                Err(error) => {
                    &&& final(self).list() == old(self).list()
                    &&& refused(
                        old(self).list().array_outcome(src@.len() as usize),
                        error.spec_layout(),
                    )
                },
            },
    {
        let layout: Layout = match Layout::array::<T>(src.len()) {
            Ok(layout) => layout,
            Err(error) => {
                return Err(AllocateError::new_layout(error));
            },
        };
        let value = copy_prefix(src, src.len());
        let ghost k = place_before(old(self).list()@.len() as int, old(self).index());
        match self.try_insert_value_before(Some(src.len()), layout, value) {
            Ok(_) => {
                proof {
                    assert(src@.take(src@.len() as int) =~= src@);
                    assert(old(self).list()@.insert(k, value).remove(k) =~= old(self).list()@);
                }
                Ok(())
            },
            Err(error) => Err(error.into_parts().1),
        }
    }

    /// Copies `src` and inserts it before the current node. The cursor
    /// stays on the element it was on.
    ///
    /// A layout must exist for the node, and the allocator must grant it.
    pub fn insert_copy_slice_before(&mut self, src: &[T]) where T: Copy
        requires
            old(self).wf(),
            old(self).list().array_outcome(src@.len() as usize) is Granted,
        ensures
            final(self).wf(),
            final(self).current == old(self).current,
            *final(final(self).list) == *final(old(self).list),
            final(self).list()@.len() == old(self).list()@.len() + 1,
            final(self).list()@[place_before(
                old(self).list()@.len() as int,
                old(self).index(),
            )]@ == src@,
            final(self).list()@.remove(
                place_before(old(self).list()@.len() as int, old(self).index()),
            )
                == old(self).list()@,
            final(self).index() == place_after_insertion(
                old(self).index(),
                place_before(old(self).list()@.len() as int, old(self).index()),
            ),
            final(self).list().spec_allocator() == old(self).list().spec_allocator().after_allocate(
                old(self).list().array_outcome(src@.len() as usize)->Granted_0,
            ),
    {
        match self.try_insert_copy_slice_before(src) {
            Ok(_) => {},
            Err(_) => unreached(),
        }
    }

    /// Attempts to copy `src` and insert it after the current node. The
    /// cursor stays on the element it was on.
    ///
    /// On failure the list is as it was.
    pub fn try_insert_copy_slice_after(&mut self, src: &[T]) -> (r: Result<
        (),
        AllocateError,
    >) where
        T: Copy,

        requires
            old(self).wf(),
        ensures
            final(self).wf(),
            final(self).current == old(self).current,
            *final(final(self).list) == *final(old(self).list),
            match r {
                Ok(_) => {
                    let k = place_after(old(self).list()@.len() as int, old(self).index());
                    let outcome = old(self).list().array_outcome(src@.len() as usize);
                    &&& outcome is Granted
                    &&& final(self).list()@.len() == old(self).list()@.len() + 1
                    &&& final(self).list()@[k]@ == src@
                    &&& final(self).list()@.remove(k) == old(self).list()@
                    &&& final(self).index() == old(self).index()
                    &&& final(self).list().spec_allocator() ==
                        old(self).list().spec_allocator().after_allocate(outcome->Granted_0)
                },
                Err(error) => {
                    &&& final(self).list() == old(self).list()
                    &&& refused(
                        old(self).list().array_outcome(src@.len() as usize),
                        error.spec_layout(),
                    )
                },
            },
    {
        let layout: Layout = match Layout::array::<T>(src.len()) {
            Ok(layout) => layout,
            Err(error) => {
                return Err(AllocateError::new_layout(error));
            },
        };
        let value = copy_prefix(src, src.len());
        let ghost k = place_after(old(self).list()@.len() as int, old(self).index());
        match self.try_insert_value_after(Some(src.len()), layout, value) {
            Ok(_) => {
                proof {
                    assert(src@.take(src@.len() as int) =~= src@);
                    assert(old(self).list()@.insert(k, value).remove(k) =~= old(self).list()@);
                }
                Ok(())
            },
            Err(error) => Err(error.into_parts().1),
        }
    }

    /// Copies `src` and inserts it after the current node. The cursor
    /// stays on the element it was on.
    ///
    /// A layout must exist for the node, and the allocator must grant it.
    pub fn insert_copy_slice_after(&mut self, src: &[T]) where T: Copy
        requires
            old(self).wf(),
            old(self).list().array_outcome(src@.len() as usize) is Granted,
        ensures
            final(self).wf(),
            final(self).current == old(self).current,
            *final(final(self).list) == *final(old(self).list),
            final(self).list()@.len() == old(self).list()@.len() + 1,
            final(self).list()@[place_after(
                old(self).list()@.len() as int,
                old(self).index(),
            )]@ == src@,
            final(self).list()@.remove(
                place_after(old(self).list()@.len() as int, old(self).index()),
            )
                == old(self).list()@,
            final(self).index() == old(self).index(),
            final(self).list().spec_allocator() == old(self).list().spec_allocator().after_allocate(
                old(self).list().array_outcome(src@.len() as usize)->Granted_0,
            ),
    {
        match self.try_insert_copy_slice_after(src) {
            Ok(_) => {},
            Err(_) => unreached(),
        }
    }

    /// Attempts to clone `src` and insert it before the current node. The
    /// cursor stays on the element it was on.
    ///
    /// On failure the list is as it was.
    pub fn try_insert_clone_slice_before(&mut self, src: &[T]) -> (r: Result<
        (),
        AllocateError,
    >) where
        T: Clone,

        requires
            old(self).wf(),
        ensures
            final(self).wf(),
            final(self).current == old(self).current,
            *final(final(self).list) == *final(old(self).list),
            match r {
                Ok(_) => {
                    let k = place_before(old(self).list()@.len() as int, old(self).index());
                    let outcome = old(self).list().array_outcome(src@.len() as usize);
                    &&& outcome is Granted
                    &&& final(self).list()@.len() == old(self).list()@.len() + 1
                    &&& clone_of(src@, final(self).list()@[k]@)
                    &&& final(self).list()@.remove(k) == old(self).list()@
                    &&& final(self).index() == place_after_insertion(
                        old(self).index(),
                        place_before(old(self).list()@.len() as int, old(self).index()),
                    )
                    &&& final(self).list().spec_allocator() ==
                        old(self).list().spec_allocator().after_allocate(outcome->Granted_0)
                },
                Err(error) => {
                    &&& final(self).list() == old(self).list()
                    &&& refused(
                        old(self).list().array_outcome(src@.len() as usize),
                        error.spec_layout(),
                    )
                },
            },
    {
        let layout: Layout = match Layout::array::<T>(src.len()) {
            Ok(layout) => layout,
            Err(error) => {
                return Err(AllocateError::new_layout(error));
            },
        };
        let value = clone_prefix(src, src.len());
        let ghost k = place_before(old(self).list()@.len() as int, old(self).index());
        match self.try_insert_value_before(Some(src.len()), layout, value) {
            Ok(_) => {
                proof {
                    assert(src@.take(src@.len() as int) =~= src@);
                    assert(old(self).list()@.insert(k, value).remove(k) =~= old(self).list()@);
                }
                Ok(())
            },
            Err(error) => Err(error.into_parts().1),
        }
    }

    /// Clones `src` and inserts it before the current node. The cursor
    /// stays on the element it was on.
    ///
    /// A layout must exist for the node, and the allocator must grant it.
    pub fn insert_clone_slice_before(&mut self, src: &[T]) where T: Clone
        requires
            old(self).wf(),
            old(self).list().array_outcome(src@.len() as usize) is Granted,
        ensures
            final(self).wf(),
            final(self).current == old(self).current,
            *final(final(self).list) == *final(old(self).list),
            final(self).list()@.len() == old(self).list()@.len() + 1,
            clone_of(
                src@,
                final(self).list()@[place_before(
                    old(self).list()@.len() as int,
                    old(self).index(),
                )]@,
            ),
            final(self).list()@.remove(
                place_before(old(self).list()@.len() as int, old(self).index()),
            )
                == old(self).list()@,
            final(self).index() == place_after_insertion(
                old(self).index(),
                place_before(old(self).list()@.len() as int, old(self).index()),
            ),
            final(self).list().spec_allocator() == old(self).list().spec_allocator().after_allocate(
                old(self).list().array_outcome(src@.len() as usize)->Granted_0,
            ),
    {
        match self.try_insert_clone_slice_before(src) {
            Ok(_) => {},
            Err(_) => unreached(),
        }
    }

    /// Attempts to clone `src` and insert it after the current node. The
    /// cursor stays on the element it was on.
    ///
    /// On failure the list is as it was.
    pub fn try_insert_clone_slice_after(&mut self, src: &[T]) -> (r: Result<
        (),
        AllocateError,
    >) where
        T: Clone,

        requires
            old(self).wf(),
        ensures
            final(self).wf(),
            final(self).current == old(self).current,
            *final(final(self).list) == *final(old(self).list),
            match r {
                Ok(_) => {
                    let k = place_after(old(self).list()@.len() as int, old(self).index());
                    let outcome = old(self).list().array_outcome(src@.len() as usize);
                    &&& outcome is Granted
                    &&& final(self).list()@.len() == old(self).list()@.len() + 1
                    &&& clone_of(src@, final(self).list()@[k]@)
                    &&& final(self).list()@.remove(k) == old(self).list()@
                    &&& final(self).index() == old(self).index()
                    &&& final(self).list().spec_allocator() ==
                        old(self).list().spec_allocator().after_allocate(outcome->Granted_0)
                },
                Err(error) => {
                    &&& final(self).list() == old(self).list()
                    &&& refused(
                        old(self).list().array_outcome(src@.len() as usize),
                        error.spec_layout(),
                    )
                },
            },
    {
        let layout: Layout = match Layout::array::<T>(src.len()) {
            Ok(layout) => layout,
            Err(error) => {
                return Err(AllocateError::new_layout(error));
            },
        };
        let value = clone_prefix(src, src.len());
        let ghost k = place_after(old(self).list()@.len() as int, old(self).index());
        match self.try_insert_value_after(Some(src.len()), layout, value) {
            Ok(_) => {
                proof {
                    assert(src@.take(src@.len() as int) =~= src@);
                    assert(old(self).list()@.insert(k, value).remove(k) =~= old(self).list()@);
                }
                Ok(())
            },
            Err(error) => Err(error.into_parts().1),
        }
    }

    /// Clones `src` and inserts it after the current node. The cursor
    /// stays on the element it was on.
    ///
    /// A layout must exist for the node, and the allocator must grant it.
    pub fn insert_clone_slice_after(&mut self, src: &[T]) where T: Clone
        requires
            old(self).wf(),
            old(self).list().array_outcome(src@.len() as usize) is Granted,
        ensures
            final(self).wf(),
            final(self).current == old(self).current,
            *final(final(self).list) == *final(old(self).list),
            final(self).list()@.len() == old(self).list()@.len() + 1,
            clone_of(
                src@,
                final(self).list()@[place_after(
                    old(self).list()@.len() as int,
                    old(self).index(),
                )]@,
            ),
            final(self).list()@.remove(
                place_after(old(self).list()@.len() as int, old(self).index()),
            )
                == old(self).list()@,
            final(self).index() == old(self).index(),
            final(self).list().spec_allocator() == old(self).list().spec_allocator().after_allocate(
                old(self).list().array_outcome(src@.len() as usize)->Granted_0,
            ),
    {
        match self.try_insert_clone_slice_after(src) {
            Ok(_) => {},
            Err(_) => unreached(),
        }
    }
}

} // verus!
