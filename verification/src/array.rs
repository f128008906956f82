//! Lists of arrays whose length is chosen when a node is made.

use crate::allocator::Allocator;
use crate::errors::AllocateError;
use crate::layout::{array_spec, Layout, LayoutView};
use crate::list::{fits, lemma_slot_for, slot_for, DynList, Header};
use crate::node::{NodePtr, Outcome};
use crate::uninit::{granted_at, refused, try_new, MaybeUninitNode};
use vstd::layout::{align_of, size_of};
use vstd::prelude::*;

verus! {

/// The layout of `length` values of type `T` in a row, if there is one.
pub open spec fn array_layout<T>(length: usize) -> Option<LayoutView> {
    array_spec(size_of::<T>() as int, align_of::<T>() as int, length as int)
}

/// `after` is `before` with one array added at the front, whose items are `items`.
pub open spec fn pushed_front<T>(before: Seq<Vec<T>>, after: Seq<Vec<T>>, items: Seq<T>) -> bool {
    &&& after.len() == before.len() + 1
    &&& after[0]@ == items
    &&& after.drop_first() == before
}

/// `after` is `before` with one array added at the back, whose items are `items`.
pub open spec fn pushed_back<T>(before: Seq<Vec<T>>, after: Seq<Vec<T>>, items: Seq<T>) -> bool {
    &&& after.len() == before.len() + 1
    &&& after.last()@ == items
    &&& after.drop_last() == before
}

/// The array `copy` holds a clone of each item of `items`, in order.
pub open spec fn clone_of<T: Clone>(items: Seq<T>, copy: Seq<T>) -> bool {
    &&& copy.len() == items.len()
    &&& forall|i: int| 0 <= i < items.len() ==> cloned::<T>(#[trigger] items[i], copy[i])
}

/// The smaller of two lengths.
pub open spec fn min_len(a: int, b: int) -> int {
    if a <= b {
        a
    } else {
        b
    }
}

/// How many items a node made for `metadata` items takes from `len` items.
pub open spec fn taken(metadata: Option<usize>, len: int) -> int {
    match metadata {
        Some(length) => min_len(length as int, len),
        None => len,
    }
}

/// Copies the first `count` items of `src` into a new array.
pub fn copy_prefix<T: Copy>(src: &[T], count: usize) -> (r: Vec<T>)
    requires
        count <= src@.len(),
    ensures
        r@ == src@.take(count as int),
{
    let mut items: Vec<T> = Vec::with_capacity(count);
    let mut i: usize = 0;
    while i < count
        invariant
            i <= count <= src@.len(),
            items@ == src@.take(i as int),
        decreases count - i,
    {
        items.push(src[i]);
        i += 1;
        proof {
            assert(items@ =~= src@.take(i as int));
        }
    }
    items
}

/// Clones the first `count` items of `src` into a new array.
pub fn clone_prefix<T: Clone>(src: &[T], count: usize) -> (r: Vec<T>)
    requires
        count <= src@.len(),
    ensures
        clone_of(src@.take(count as int), r@),
{
    let mut items: Vec<T> = Vec::with_capacity(count);
    let mut i: usize = 0;
    while i < count
        invariant
            i <= count <= src@.len(),
            clone_of(src@.take(i as int), items@),
        decreases count - i,
    {
        let item = src[i].clone();
        items.push(item);
        i += 1;
    }
    items
}

/// Attempts to make a node of `list` with links `header` for an array of `length` values
/// of type `T`.
///
/// Fails where no layout exists for the array or for the node, and where the
/// allocator declines the node's layout; the list is then as it was.
pub fn try_new_array<'a, T, A: Allocator>(
    list: &'a mut DynList<Vec<T>, A>,
    length: usize,
    header: Header,
) -> (r: Result<MaybeUninitNode<'a, Vec<T>, A>, AllocateError>)
    requires
        old(list).wf(),
        fits(old(list).order(), header),
    ensures
        match r {
            Ok(node) => array_layout::<T>(length) is Some && granted_at(
                *old(list),
                node,
                slot_for(old(list).order(), header),
                Some(length),
                array_layout::<T>(length).unwrap(),
                old(list).array_outcome(length),
            ) && *final(list) == *final(node.list),
            Err(error) => *final(list) == *old(list) && refused(
                old(list).array_outcome(length),
                error.spec_layout(),
            ),
        },
{
    match Layout::array::<T>(length) {
        Ok(layout) => try_new(list, Some(length), layout, header),
        Err(error) => Err(AllocateError::new_layout(error)),
    }
}

impl<'a, T, A: Allocator> MaybeUninitNode<'a, Vec<T>, A> {
    /// Gets the contained array as far as it has been written.
    pub fn as_slice(&self) -> (r: &[T])
        requires
            self.wf(),
        ensures
            r@ == match self.spec_value() {
                Some(items) => items@,
                None => Seq::<T>::empty(),
            },
    {
        match self.as_ref() {
            Some(items) => items.as_slice(),
            None => &[],
        }
    }

    /// Copies the slice `src` into the node: as many items as the node was
    /// made for, or all of `src` where that is shorter.
    pub fn copy_from_slice(&mut self, src: &[T]) where T: Copy
        requires
            old(self).wf(),
        ensures
            final(self).wf(),
            final(self).spec_value() is Some,
            final(self).spec_value().unwrap()@ == src@.take(
                taken(old(self).spec_metadata(), src@.len() as int),
            ),
            final(self).node() == old(self).node(),
            final(self).position() == old(self).position(),
            final(self).spec_metadata() == old(self).spec_metadata(),
            final(self).list().order() == old(self).list().order(),
            final(self).list()@ == old(self).list()@,
            final(self).list().spec_allocator() == old(self).list().spec_allocator(),
            *final(final(self).list) == *final(old(self).list),
    {
        let count: usize = match self.metadata() {
            Some(length) => if length <= src.len() {
                length
            } else {
                src.len()
            },
            None => src.len(),
        };
        let items = copy_prefix(src, count);
        self.write(items);
    }

    /// Clones the slice `src` into the node: as many items as the node was
    /// made for, or all of `src` where that is shorter.
    pub fn clone_from_slice(&mut self, src: &[T]) where T: Clone
        requires
            old(self).wf(),
        ensures
            final(self).wf(),
            final(self).spec_value() is Some,
            clone_of(
                src@.take(taken(old(self).spec_metadata(), src@.len() as int)),
                final(self).spec_value().unwrap()@,
            ),
            final(self).node() == old(self).node(),
            final(self).position() == old(self).position(),
            final(self).spec_metadata() == old(self).spec_metadata(),
            final(self).list().order() == old(self).list().order(),
            final(self).list()@ == old(self).list()@,
            final(self).list().spec_allocator() == old(self).list().spec_allocator(),
            *final(final(self).list) == *final(old(self).list),
    {
        let count: usize = match self.metadata() {
            Some(length) => if length <= src.len() {
                length
            } else {
                src.len()
            },
            None => src.len(),
        };
        let items = clone_prefix(src, count);
        self.write(items);
    }
}

impl<T, A: Allocator> DynList<Vec<T>, A> {
    /// How a request for a node of an array of `length` items ends at the
    /// list's allocator, as it stands.
    pub open spec fn array_outcome(&self, length: usize) -> Outcome {
        match array_layout::<T>(length) {
            None => Outcome::Overflow,
            Some(value) => self.outcome(true, value),
        }
    }

    /// Attempts to allocate an uninitialised array node at the front of the list.
    ///
    /// Fails where no layout exists for the array or for the node, and where
    /// the allocator declines the node's layout; the list is then as it was.
    pub fn try_allocate_uninit_array_front(&mut self, length: usize) -> (r: Result<
        MaybeUninitNode<'_, Vec<T>, A>,
        AllocateError,
    >)
        requires
            old(self).wf(),
        ensures
            match r {
                Ok(node) => array_layout::<T>(length) is Some && granted_at(
                    *old(self),
                    node,
                    0,
                    Some(length),
                    array_layout::<T>(length).unwrap(),
                    old(self).array_outcome(length),
                ) && *final(self) == *final(node.list),
                Err(error) => *final(self) == *old(self) && refused(
                    old(self).array_outcome(length),
                    error.spec_layout(),
                ),
            },
    {
        let next: Option<NodePtr> = self.front_node();
        proof {
            lemma_slot_for(self.order(), Header { next, previous: None }, 0);
        }
        try_new_array(self, length, Header { next, previous: None })
    }

    /// Attempts to allocate an uninitialised array node at the back of the list.
    ///
    /// Fails where no layout exists for the array or for the node, and where
    /// the allocator declines the node's layout; the list is then as it was.
    pub fn try_allocate_uninit_array_back(&mut self, length: usize) -> (r: Result<
        MaybeUninitNode<'_, Vec<T>, A>,
        AllocateError,
    >)
        requires
            old(self).wf(),
        ensures
            match r {
                Ok(node) => array_layout::<T>(length) is Some && granted_at(
                    *old(self),
                    node,
                    old(self).order().len() as int,
                    Some(length),
                    array_layout::<T>(length).unwrap(),
                    old(self).array_outcome(length),
                ) && *final(self) == *final(node.list),
                Err(error) => *final(self) == *old(self) && refused(
                    old(self).array_outcome(length),
                    error.spec_layout(),
                ),
            },
    {
        let previous: Option<NodePtr> = self.back_node();
        proof {
            lemma_slot_for(
                self.order(),
                Header { next: None, previous },
                self.order().len() as int,
            );
        }
        try_new_array(self, length, Header { next: None, previous })
    }

    /// Allocates an uninitialised array node at the front of the list.
    ///
    /// A layout must exist for the node, and the allocator must grant it.
    pub fn allocate_uninit_array_front(&mut self, length: usize) -> (node: MaybeUninitNode<
        '_,
        Vec<T>,
        A,
    >)
        requires
            old(self).wf(),
            old(self).array_outcome(length) is Granted,
        ensures
            granted_at(
                *old(self),
                node,
                0,
                Some(length),
                array_layout::<T>(length).unwrap(),
                old(self).array_outcome(length),
            ),
            *final(self) == *final(node.list),
    {
        AllocateError::unwrap_result(self.try_allocate_uninit_array_front(length))
    }

    /// Allocates an uninitialised array node at the back of the list.
    ///
    /// A layout must exist for the node, and the allocator must grant it.
    pub fn allocate_uninit_array_back(&mut self, length: usize) -> (node: MaybeUninitNode<
        '_,
        Vec<T>,
        A,
    >)
        requires
            old(self).wf(),
            old(self).array_outcome(length) is Granted,
        ensures
            granted_at(
                *old(self),
                node,
                old(self).order().len() as int,
                Some(length),
                array_layout::<T>(length).unwrap(),
                old(self).array_outcome(length),
            ),
            *final(self) == *final(node.list),
    {
        AllocateError::unwrap_result(self.try_allocate_uninit_array_back(length))
    }

    /// Attempts to copy the array `src` and push it to the front of the list.
    ///
    /// On failure the list is as it was.
    pub fn try_push_front_copy_array(&mut self, src: &[T]) -> (r: Result<(), AllocateError>) where
        T: Copy,

        requires
            old(self).wf(),
        ensures
            final(self).wf(),
            match r {
                Ok(_) => {
                    &&& old(self).array_outcome(src@.len() as usize) is Granted
                    &&& pushed_front(old(self)@, final(self)@, src@)
                    &&& final(self).spec_allocator() == old(self).spec_allocator().after_allocate(
                        old(self).array_outcome(src@.len() as usize)->Granted_0,
                    )
                },
                Err(error) => {
                    &&& *final(self) == *old(self)
                    &&& refused(old(self).array_outcome(src@.len() as usize), error.spec_layout())
                },
            },
    {
        let mut node = match self.try_allocate_uninit_array_front(src.len()) {
            Ok(node) => node,
            Err(error) => {
                return Err(error);
            },
        };
        node.copy_from_slice(src);
        node.insert();
        proof {
            assert(src@.take(src@.len() as int) =~= src@);
            assert(final(self)@.drop_first() =~= old(self)@);
        }
        Ok(())
    }

    /// Attempts to copy the array `src` and push it to the back of the list.
    ///
    /// On failure the list is as it was.
    pub fn try_push_back_copy_array(&mut self, src: &[T]) -> (r: Result<(), AllocateError>) where
        T: Copy,

        requires
            old(self).wf(),
        ensures
            final(self).wf(),
            match r {
                Ok(_) => {
                    &&& old(self).array_outcome(src@.len() as usize) is Granted
                    &&& pushed_back(old(self)@, final(self)@, src@)
                    &&& final(self).spec_allocator() == old(self).spec_allocator().after_allocate(
                        old(self).array_outcome(src@.len() as usize)->Granted_0,
                    )
                },
                Err(error) => {
                    &&& *final(self) == *old(self)
                    &&& refused(old(self).array_outcome(src@.len() as usize), error.spec_layout())
                },
            },
    {
        let mut node = match self.try_allocate_uninit_array_back(src.len()) {
            Ok(node) => node,
            Err(error) => {
                return Err(error);
            },
        };
        node.copy_from_slice(src);
        node.insert();
        proof {
            assert(src@.take(src@.len() as int) =~= src@);
            assert(final(self)@.drop_last() =~= old(self)@);
        }
        Ok(())
    }

    /// Copies the array `src` and pushes it to the front of the list.
    ///
    /// A layout must exist for the node, and the allocator must grant it.
    pub fn push_front_copy_array(&mut self, src: &[T]) where T: Copy
        requires
            old(self).wf(),
            old(self).array_outcome(src@.len() as usize) is Granted,
        ensures
            final(self).wf(),
            pushed_front(old(self)@, final(self)@, src@),
            final(self).spec_allocator() == old(self).spec_allocator().after_allocate(
                old(self).array_outcome(src@.len() as usize)->Granted_0,
            ),
    {
        match self.try_push_front_copy_array(src) {
            Ok(_) => {},
            Err(_) => unreached(),
        }
    }

    /// Copies the array `src` and pushes it to the back of the list.
    ///
    /// A layout must exist for the node, and the allocator must grant it.
    pub fn push_back_copy_array(&mut self, src: &[T]) where T: Copy
        requires
            old(self).wf(),
            old(self).array_outcome(src@.len() as usize) is Granted,
        ensures
            final(self).wf(),
            pushed_back(old(self)@, final(self)@, src@),
            final(self).spec_allocator() == old(self).spec_allocator().after_allocate(
                old(self).array_outcome(src@.len() as usize)->Granted_0,
            ),
    {
        match self.try_push_back_copy_array(src) {
            Ok(_) => {},
            Err(_) => unreached(),
        }
    }

    /// Attempts to clone the array `src` and push it to the front of the list.
    ///
    /// On failure the list is as it was.
    pub fn try_push_front_clone_array(&mut self, src: &[T]) -> (r: Result<(), AllocateError>) where
        T: Clone,

        requires
            old(self).wf(),
        ensures
            final(self).wf(),
            match r {
                Ok(_) => {
                    &&& old(self).array_outcome(src@.len() as usize) is Granted
                    &&& final(self)@.len() == old(self)@.len() + 1
                    &&& clone_of(src@, final(self)@[0]@)
                    &&& final(self)@.drop_first() == old(self)@
                    &&& final(self).spec_allocator() == old(self).spec_allocator().after_allocate(
                        old(self).array_outcome(src@.len() as usize)->Granted_0,
                    )
                },
                Err(error) => {
                    &&& *final(self) == *old(self)
                    &&& refused(old(self).array_outcome(src@.len() as usize), error.spec_layout())
                },
            },
    {
        let mut node = match self.try_allocate_uninit_array_front(src.len()) {
            Ok(node) => node,
            Err(error) => {
                return Err(error);
            },
        };
        node.clone_from_slice(src);
        node.insert();
        proof {
            assert(src@.take(src@.len() as int) =~= src@);
            assert(final(self)@.drop_first() =~= old(self)@);
        }
        Ok(())
    }

    /// Attempts to clone the array `src` and push it to the back of the list.
    ///
    /// On failure the list is as it was.
    pub fn try_push_back_clone_array(&mut self, src: &[T]) -> (r: Result<(), AllocateError>) where
        T: Clone,

        requires
            old(self).wf(),
        ensures
            final(self).wf(),
            match r {
                Ok(_) => {
                    &&& old(self).array_outcome(src@.len() as usize) is Granted
                    &&& final(self)@.len() == old(self)@.len() + 1
                    &&& clone_of(src@, final(self)@.last()@)
                    &&& final(self)@.drop_last() == old(self)@
                    &&& final(self).spec_allocator() == old(self).spec_allocator().after_allocate(
                        old(self).array_outcome(src@.len() as usize)->Granted_0,
                    )
                },
                Err(error) => {
                    &&& *final(self) == *old(self)
                    &&& refused(old(self).array_outcome(src@.len() as usize), error.spec_layout())
                },
            },
    {
        let mut node = match self.try_allocate_uninit_array_back(src.len()) {
            Ok(node) => node,
            Err(error) => {
                return Err(error);
            },
        };
        node.clone_from_slice(src);
        node.insert();
        proof {
            assert(src@.take(src@.len() as int) =~= src@);
            assert(final(self)@.drop_last() =~= old(self)@);
        }
        Ok(())
    }

    /// Clones the array `src` and pushes it to the front of the list.
    ///
    /// A layout must exist for the node, and the allocator must grant it.
    pub fn push_front_clone_array(&mut self, src: &[T]) where T: Clone
        requires
            old(self).wf(),
            old(self).array_outcome(src@.len() as usize) is Granted,
        ensures
            final(self).wf(),
            final(self)@.len() == old(self)@.len() + 1,
            clone_of(src@, final(self)@[0]@),
            final(self)@.drop_first() == old(self)@,
            final(self).spec_allocator() == old(self).spec_allocator().after_allocate(
                old(self).array_outcome(src@.len() as usize)->Granted_0,
            ),
    {
        match self.try_push_front_clone_array(src) {
            Ok(_) => {},
            Err(_) => unreached(),
        }
    }

    /// Clones the array `src` and pushes it to the back of the list.
    ///
    /// A layout must exist for the node, and the allocator must grant it.
    pub fn push_back_clone_array(&mut self, src: &[T]) where T: Clone
        requires
            old(self).wf(),
            old(self).array_outcome(src@.len() as usize) is Granted,
        ensures
            final(self).wf(),
            final(self)@.len() == old(self)@.len() + 1,
            clone_of(src@, final(self)@.last()@),
            final(self)@.drop_last() == old(self)@,
            final(self).spec_allocator() == old(self).spec_allocator().after_allocate(
                old(self).array_outcome(src@.len() as usize)->Granted_0,
            ),
    {
        match self.try_push_back_clone_array(src) {
            Ok(_) => {},
            Err(_) => unreached(),
        }
    }
}

} // verus!
