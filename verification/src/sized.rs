//! Lists of values of one fixed size.

use crate::allocator::{Allocator, Global};
use crate::errors::AllocateError;
use crate::layout::{Layout, LayoutView};
use crate::list::{fits, lemma_slot_for, slot_for, DynList, Header};
use crate::node::{header_layout, node_layout_spec, NodePtr, Outcome};
use crate::uninit::{granted_at, refused, try_new, MaybeUninitNode};
use vstd::layout::{align_of, size_of};
use vstd::prelude::*;

verus! {

/// The layout of a value of type `T`.
pub open spec fn sized_layout<T>() -> LayoutView {
    LayoutView { size: size_of::<T>() as int, align: align_of::<T>() as int }
}

/// The sequence with `v` added at the front.
pub open spec fn spec_push_front<T>(s: Seq<T>, v: T) -> Seq<T> {
    seq![v] + s
}

/// The sequence with `v` added at the back.
pub open spec fn spec_push_back<T>(s: Seq<T>, v: T) -> Seq<T> {
    s.push(v)
}

/// The first value of the sequence, if any, and the sequence without it.
pub open spec fn spec_pop_front<T>(s: Seq<T>) -> (Option<T>, Seq<T>) {
    if s.len() == 0 {
        (None, s)
    } else {
        (Some(s[0]), s.drop_first())
    }
}

/// The last value of the sequence, if any, and the sequence without it.
pub open spec fn spec_pop_back<T>(s: Seq<T>) -> (Option<T>, Seq<T>) {
    if s.len() == 0 {
        (None, s)
    } else {
        (Some(s.last()), s.drop_last())
    }
}

/// The allocator grants `count` blocks of layout `layout`, one after another.
pub open spec fn grants_all<A: Allocator>(allocator: A, layout: LayoutView, count: nat) -> bool
    decreases count,
{
    count == 0 || (allocator.grants(layout) && grants_all(
        allocator.after_allocate(layout),
        layout,
        (count - 1) as nat,
    ))
}

/// The allocator after it has granted `count` blocks of layout `layout`.
pub open spec fn after_all<A: Allocator>(allocator: A, layout: LayoutView, count: nat) -> A
    decreases count,
{
    if count == 0 {
        allocator
    } else {
        after_all(allocator.after_allocate(layout), layout, (count - 1) as nat)
    }
}

/// Attempts to make a node of `list` with links `header` for a value of type
/// `T`.
///
/// Fails where no layout exists for the node, and where the allocator
/// declines that layout; the list is then as it was.
pub fn try_new_sized<'a, T, A: Allocator>(list: &'a mut DynList<T, A>, header: Header) -> (r:
    Result<MaybeUninitNode<'a, T, A>, AllocateError>)
    requires
        old(list).wf(),
        fits(old(list).order(), header),
    ensures
        match r {
            Ok(node) => granted_at(
                *old(list),
                node,
                slot_for(old(list).order(), header),
                None,
                sized_layout::<T>(),
                old(list).sized_outcome(),
            ) && *final(list) == *final(node.list),
            Err(error) => *final(list) == *old(list) && refused(
                old(list).sized_outcome(),
                error.spec_layout(),
            ),
        },
{
    try_new(list, None, Layout::new::<T>(), header)
}

/// The allocator that grants every request grants any number of blocks.
pub proof fn lemma_global_grants_all(layout: LayoutView, count: nat)
    ensures
        grants_all(Global, layout, count),
        after_all(Global, layout, count) == Global,
    decreases count,
{
    if count > 0 {
        lemma_global_grants_all(layout, (count - 1) as nat);
    }
}

impl<T, A: Allocator> DynList<T, A> {
    /// How a request for a node of a value of type `T` ends at the list's
    /// allocator, as it stands.
    pub open spec fn sized_outcome(&self) -> Outcome {
        self.outcome(false, sized_layout::<T>())
    }

    /// Attempts to allocate an uninitialised node at the front of the list.
    ///
    /// Fails where no layout exists for the node, and where the allocator
    /// declines that layout; the list is then as it was.
    pub fn try_allocate_uninit_sized_front(&mut self) -> (r: Result<
        MaybeUninitNode<'_, T, A>,
        AllocateError,
    >)
        requires
            old(self).wf(),
        ensures
            match r {
                Ok(node) => granted_at(
                    *old(self),
                    node,
                    0,
                    None,
                    sized_layout::<T>(),
                    old(self).sized_outcome(),
                ) && *final(self) == *final(node.list),
                Err(error) => *final(self) == *old(self) && refused(
                    old(self).sized_outcome(),
                    error.spec_layout(),
                ),
            },
    {
        let next: Option<NodePtr> = self.front_node();
        proof {
            lemma_slot_for(self.order(), Header { next, previous: None }, 0);
        }
        try_new_sized(self, Header { next, previous: None })
    }

    /// Attempts to allocate an uninitialised node at the back of the list.
    ///
    /// Fails where no layout exists for the node, and where the allocator
    /// declines that layout; the list is then as it was.
    pub fn try_allocate_uninit_sized_back(&mut self) -> (r: Result<
        MaybeUninitNode<'_, T, A>,
        AllocateError,
    >)
        requires
            old(self).wf(),
        ensures
            match r {
                Ok(node) => granted_at(
                    *old(self),
                    node,
                    old(self).order().len() as int,
                    None,
                    sized_layout::<T>(),
                    old(self).sized_outcome(),
                ) && *final(self) == *final(node.list),
                Err(error) => *final(self) == *old(self) && refused(
                    old(self).sized_outcome(),
                    error.spec_layout(),
                ),
            },
    {
        let previous: Option<NodePtr> = self.back_node();
        proof {
            lemma_slot_for(
                self.order(),
                Header { next: None, previous },
                self.order().len() as int,
            );
        }
        try_new_sized(self, Header { next: None, previous })
    }

    /// Allocates an uninitialised node at the front of the list.
    ///
    /// A layout must exist for the node, and the allocator must grant it.
    pub fn allocate_uninit_sized_front(&mut self) -> (node: MaybeUninitNode<'_, T, A>)
        requires
            old(self).wf(),
            old(self).sized_outcome() is Granted,
        ensures
            granted_at(*old(self), node, 0, None, sized_layout::<T>(), old(self).sized_outcome()),
            *final(self) == *final(node.list),
    {
        AllocateError::unwrap_result(self.try_allocate_uninit_sized_front())
    }

    /// Allocates an uninitialised node at the back of the list.
    ///
    /// A layout must exist for the node, and the allocator must grant it.
    pub fn allocate_uninit_sized_back(&mut self) -> (node: MaybeUninitNode<'_, T, A>)
        requires
            old(self).wf(),
            old(self).sized_outcome() is Granted,
        ensures
            granted_at(
                *old(self),
                node,
                old(self).order().len() as int,
                None,
                sized_layout::<T>(),
                old(self).sized_outcome(),
            ),
            *final(self) == *final(node.list),
    {
        AllocateError::unwrap_result(self.try_allocate_uninit_sized_back())
    }

    /// Attempts to push `value` to the front of the list.
    ///
    /// On failure the list is as it was, and the error holds `value`.
    pub fn try_push_front(&mut self, value: T) -> (r: Result<(), AllocateError<T>>)
        requires
            old(self).wf(),
        ensures
            final(self).wf(),
            match r {
                Ok(_) => {
                    &&& old(self).sized_outcome() is Granted
                    &&& final(self)@ == spec_push_front(old(self)@, value)
                    &&& final(self).spec_allocator() == old(self).spec_allocator().after_allocate(
                        old(self).sized_outcome()->Granted_0,
                    )
                },
                Err(error) => {
                    &&& *final(self) == *old(self)
                    &&& error.spec_value() == value
                    &&& refused(old(self).sized_outcome(), error.spec_layout())
                },
            },
    {
        let mut node = match self.try_allocate_uninit_sized_front() {
            Ok(node) => node,
            Err(error) => {
                return Err(error.with_value(value));
            },
        };
        node.write(value);
        node.insert();
        proof {
            assert(old(self)@.insert(0, value) =~= spec_push_front(old(self)@, value));
        }
        Ok(())
    }

    /// Attempts to push `value` to the back of the list.
    ///
    /// On failure the list is as it was, and the error holds `value`.
    pub fn try_push_back(&mut self, value: T) -> (r: Result<(), AllocateError<T>>)
        requires
            old(self).wf(),
        ensures
            final(self).wf(),
            match r {
                Ok(_) => {
                    &&& old(self).sized_outcome() is Granted
                    &&& final(self)@ == spec_push_back(old(self)@, value)
                    &&& final(self).spec_allocator() == old(self).spec_allocator().after_allocate(
                        old(self).sized_outcome()->Granted_0,
                    )
                },
                Err(error) => {
                    &&& *final(self) == *old(self)
                    &&& error.spec_value() == value
                    &&& refused(old(self).sized_outcome(), error.spec_layout())
                },
            },
    {
        let mut node = match self.try_allocate_uninit_sized_back() {
            Ok(node) => node,
            Err(error) => {
                return Err(error.with_value(value));
            },
        };
        node.write(value);
        node.insert();
        proof {
            assert(old(self)@.insert(old(self)@.len() as int, value) =~= spec_push_back(
                old(self)@,
                value,
            ));
        }
        Ok(())
    }

    /// Pushes `value` to the front of the list.
    ///
    /// A layout must exist for the node, and the allocator must grant it.
    pub fn push_front(&mut self, value: T)
        requires
            old(self).wf(),
            old(self).sized_outcome() is Granted,
        ensures
            final(self).wf(),
            final(self)@ == spec_push_front(old(self)@, value),
            final(self).spec_allocator() == old(self).spec_allocator().after_allocate(
                old(self).sized_outcome()->Granted_0,
            ),
    {
        let mut node = self.allocate_uninit_sized_front();
        node.write(value);
        node.insert();
        proof {
            assert(old(self)@.insert(0, value) =~= spec_push_front(old(self)@, value));
        }
    }

    /// Pushes `value` to the back of the list.
    ///
    /// A layout must exist for the node, and the allocator must grant it.
    pub fn push_back(&mut self, value: T)
        requires
            old(self).wf(),
            old(self).sized_outcome() is Granted,
        ensures
            final(self).wf(),
            final(self)@ == spec_push_back(old(self)@, value),
            final(self).spec_allocator() == old(self).spec_allocator().after_allocate(
                old(self).sized_outcome()->Granted_0,
            ),
    {
        let mut node = self.allocate_uninit_sized_back();
        node.write(value);
        node.insert();
        proof {
            assert(old(self)@.insert(old(self)@.len() as int, value) =~= spec_push_back(
                old(self)@,
                value,
            ));
        }
    }

    /// Removes the value at the front of the list and returns it.
    ///
    /// If the list is empty, this returns `None` and changes nothing.
    pub fn pop_front(&mut self) -> (r: Option<T>)
        requires
            old(self).wf(),
        ensures
            final(self).wf(),
            (r, final(self)@) == spec_pop_front(old(self)@),
            r is None ==> *final(self) == *old(self),
            r is Some ==> final(self).spec_allocator() == old(
                self,
            ).spec_allocator().after_deallocate(
                old(self).arena().node_layout(old(self).order()[0]),
            ),
    {
        match self.pop_front_node() {
            Some(node) => {
                let value = node.take();
                proof {
                    assert(old(self)@.remove(0) =~= old(self)@.drop_first());
                }
                Some(value)
            },
            None => None,
        }
    }

    /// Removes the value at the back of the list and returns it.
    ///
    /// If the list is empty, this returns `None` and changes nothing.
    pub fn pop_back(&mut self) -> (r: Option<T>)
        requires
            old(self).wf(),
        ensures
            final(self).wf(),
            (r, final(self)@) == spec_pop_back(old(self)@),
            r is None ==> *final(self) == *old(self),
            r is Some ==> final(self).spec_allocator() == old(
                self,
            ).spec_allocator().after_deallocate(
                old(self).arena().node_layout(old(self).order().last()),
            ),
    {
        match self.pop_back_node() {
            Some(node) => {
                let value = node.take();
                proof {
                    assert(old(self)@.remove(old(self)@.len() - 1) =~= old(self)@.drop_last());
                }
                Some(value)
            },
            None => None,
        }
    }

    /// Pushes the values of `items` to the back of the list, in their order.
    ///
    /// A layout must exist for a node, and the allocator must grant a node
    /// for each value.
    pub fn extend(&mut self, items: Vec<T>)
        requires
            old(self).wf(),
            items@.len() > 0 ==> !(old(self).sized_outcome() is Overflow),
            items@.len() > 0 ==> grants_all(
                old(self).spec_allocator(),
                node_layout_spec(
                    header_layout::<Header>(),
                    false,
                    sized_layout::<T>(),
                ).unwrap().layout,
                items@.len(),
            ),
        ensures
            final(self).wf(),
            final(self)@ == old(self)@ + items@,
            items@.len() > 0 ==> final(self).spec_allocator() == after_all(
                old(self).spec_allocator(),
                node_layout_spec(
                    header_layout::<Header>(),
                    false,
                    sized_layout::<T>(),
                ).unwrap().layout,
                items@.len(),
            ),
            items@.len() == 0 ==> *final(self) == *old(self),
    {
        self.extend_values(None, Layout::new::<T>(), items)
    }
}

} // verus!
