//! Nodes that are made and not linked yet, or taken out and not given back.

use crate::allocator::{released_each, Allocator, Global};
use crate::errors::AllocateError;
use crate::layout::{Layout, LayoutView};
use crate::list::{
    fits, index_in, lemma_index_in, lemma_slot_for, node_at, same_payloads, slot_for, DynList,
    Header,
};
use crate::node::{allocation_outcome, NodePtr, NodeView, Outcome};
use vstd::prelude::*;

verus! {

/// A node with a value that may not be written yet.
///
/// Such a node is of a list and outside its order; its links name the place
/// where it belongs. It holds the list until it is linked in by
/// [`Self::insert`] or given back by [`Self::deallocate`].
pub struct MaybeUninitNode<'a, U, A: Allocator = Global> {
    /// The list that the node is of.
    pub list: &'a mut DynList<U, A>,
    /// The node's name.
    pub node: NodePtr,
}

impl<'a, U, A: Allocator> MaybeUninitNode<'a, U, A> {
    /// The list that the node is of, as it stands.
    pub open spec fn list(&self) -> DynList<U, A> {
        *self.list
    }

    /// The node's name.
    pub open spec fn node(&self) -> NodePtr {
        self.node
    }

    /// The node is of its list, not linked, and its links fit the list.
    pub open spec fn wf(&self) -> bool {
        &&& self.list().wf()
        &&& self.list().staged(self.node())
    }

    /// The node's value, if it has been written.
    pub open spec fn spec_value(&self) -> Option<U> {
        self.list().nodes()[self.node()].value
    }

    /// The place in the list's order where the node belongs.
    pub open spec fn position(&self) -> int {
        slot_for(self.list().order(), self.list().nodes()[self.node()].header)
    }

    /// The length that the node was made for, where its value's shape varies.
    pub open spec fn spec_metadata(&self) -> Option<usize> {
        self.list().nodes()[self.node()].metadata
    }

    /// Gets the address of the node's value.
    pub fn value_ptr(&self) -> (r: usize)
        ensures
            r == self.node().spec_value_ptr(),
    {
        self.node.value_ptr()
    }

    /// Gets the length that the node was made for.
    pub fn metadata(&self) -> (r: Option<usize>)
        requires
            self.wf(),
        ensures
            r == self.spec_metadata(),
    {
        self.list.metadata(self.node)
    }

    /// Gets a reference to the contained value, if it has been written.
    pub fn as_ref(&self) -> (r: Option<&U>)
        requires
            self.wf(),
        ensures
            r.is_some() == self.spec_value().is_some(),
            r.is_some() ==> *r.unwrap() == self.spec_value().unwrap(),
    {
        self.list.value(self.node)
    }

    /// Gets a mutable reference to the contained value, if it has been written.
    pub fn as_mut(&mut self) -> (r: Option<&mut U>)
        requires
            old(self).wf(),
        ensures
            r.is_some() == old(self).spec_value().is_some(),
            r.is_some() ==> *r.unwrap() == old(self).spec_value().unwrap(),
            final(self).wf(),
            final(self).node() == old(self).node(),
            final(self).position() == old(self).position(),
            final(self).spec_metadata() == old(self).spec_metadata(),
            r.is_some() ==> final(self).spec_value() == Some(*final(r.unwrap())),
            r.is_none() ==> final(self).spec_value().is_none(),
            final(self).list().order() == old(self).list().order(),
            final(self).list()@ =~= old(self).list()@,
            final(self).list().spec_allocator() == old(self).list().spec_allocator(),
            *final(final(self).list) == *final(old(self).list),
    {
        self.list.staged_value_mut(self.node)
    }

    /// Writes the node's value and hands back the value that was there.
    pub fn write(&mut self, value: U) -> (r: Option<U>)
        requires
            old(self).wf(),
        ensures
            final(self).wf(),
            r == old(self).spec_value(),
            final(self).spec_value() == Some(value),
            final(self).node() == old(self).node(),
            final(self).position() == old(self).position(),
            final(self).spec_metadata() == old(self).spec_metadata(),
            final(self).list().order() == old(self).list().order(),
            final(self).list()@ == old(self).list()@,
            final(self).list().spec_allocator() == old(self).list().spec_allocator(),
            *final(final(self).list) == *final(old(self).list),
    {
        self.list.write(self.node, value)
    }

    /// Links the node into the list, at the place its links name.
    ///
    /// The value must have been written.
    pub fn insert(self)
        requires
            self.wf(),
            self.spec_value().is_some(),
        ensures
            final(self.list).wf(),
            final(self.list).order() == self.list().order().insert(self.position(), self.node()),
            final(self.list)@ == self.list()@.insert(self.position(), self.spec_value().unwrap()),
            final(self.list).spec_allocator() == self.list().spec_allocator(),
    {
        let MaybeUninitNode { list, node } = self;
        list.insert(node);
    }

    /// Drops the contained value, if one was written.
    ///
    /// Note that this does not give the node back.
    pub fn drop_in_place(&mut self)
        requires
            old(self).wf(),
        ensures
            final(self).wf(),
            final(self).spec_value().is_none(),
            final(self).node() == old(self).node(),
            final(self).position() == old(self).position(),
            final(self).spec_metadata() == old(self).spec_metadata(),
            final(self).list().order() == old(self).list().order(),
            final(self).list()@ == old(self).list()@,
            final(self).list().nodes() == old(self).list().nodes().insert(
                old(self).node(),
                NodeView {
                    header: old(self).list().nodes()[old(self).node()].header,
                    metadata: old(self).list().nodes()[old(self).node()].metadata,
                    value_layout: old(self).list().nodes()[old(self).node()].value_layout,
                    value: None,
                },
            ),
            final(self).list().spec_allocator() == old(self).list().spec_allocator(),
            *final(final(self).list) == *final(old(self).list),
    {
        let _ = self.list.take(self.node);
    }

    /// Gives the node back to the list's allocator without linking it in.
    /// The value in it, if one was written, goes with it.
    pub fn deallocate(self)
        requires
            self.wf(),
        ensures
            final(self.list).wf(),
            final(self.list).order() == self.list().order(),
            final(self.list)@ == self.list()@,
            final(self.list).nodes() == self.list().nodes().remove(self.node()),
            final(self.list).spec_allocator() == self.list().spec_allocator().after_deallocate(
                self.list().arena().node_layout(self.node()),
            ),
    {
        let MaybeUninitNode { list, node } = self;
        list.deallocate(node);
    }

    /// Removes the contained value and gives the node back.
    ///
    /// The value must have been written.
    pub fn take(self) -> (r: U)
        requires
            self.wf(),
            self.spec_value().is_some(),
        ensures
            r == self.spec_value().unwrap(),
            final(self.list).wf(),
            final(self.list).order() == self.list().order(),
            final(self.list)@ == self.list()@,
            final(self.list).nodes() == self.list().nodes().remove(self.node()),
            final(self.list).spec_allocator() == self.list().spec_allocator().after_deallocate(
                self.list().arena().node_layout(self.node()),
            ),
    {
        let ghost before = self.list().nodes();
        let MaybeUninitNode { list, node } = self;
        let value = list.take(node);
        list.deallocate(node);
        proof {
            assert(list.nodes() =~= before.remove(node));
        }
        value.unwrap()
    }

    /// Attempts to move the value into a box and return it; the node is then
    /// given back. The box is asked of `allocator`, with the layout of the
    /// value.
    ///
    /// The value must have been written.
    ///
    /// Where the allocator declines, the error holds the node, untouched.
    pub fn try_take_boxed_in<A2: Allocator>(self, allocator: A2) -> (r: Result<
        Box<U>,
        AllocateError<Self>,
    >)
        requires
            self.wf(),
            self.spec_value().is_some(),
        ensures
            r is Ok <==> allocator.grants(self.list().nodes()[self.node()].value_layout@),
            match r {
                Ok(value) => {
                    &&& *value == self.spec_value().unwrap()
                    &&& final(self.list).wf()
                    &&& final(self.list).order() == self.list().order()
                    &&& final(self.list)@ == self.list()@
                    &&& final(self.list).nodes() == self.list().nodes().remove(self.node())
                    &&& final(self.list).spec_allocator()
                        == self.list().spec_allocator().after_deallocate(
                        self.list().arena().node_layout(self.node()),
                    )
                },
                Err(error) => {
                    &&& error.spec_value() == self
                    &&& error.spec_layout() == Some(self.list().nodes()[self.node()].value_layout)
                },
            },
    {
        let value_layout: Layout = self.list.value_layout(self.node);
        let mut allocator = allocator;
        proof {
            self.list.arena().lemma_node_has_layout(self.node);
        }
        match allocator.allocate(value_layout) {
            Ok(()) => {},
            Err(error) => {
                return Err(AllocateError::new_alloc(error, value_layout).with_value(self));
            },
        }
        Ok(Box::new(self.take()))
    }

    /// Attempts to move the value into a box and return it; the node is then
    /// given back. The box is asked of a copy of the list's allocator, with
    /// the layout of the value.
    ///
    /// The value must have been written.
    ///
    /// Where the allocator declines, the error holds the node, untouched.
    pub fn try_take_boxed(self) -> (r: Result<Box<U>, AllocateError<Self>>) where A: Copy
        requires
            self.wf(),
            self.spec_value().is_some(),
        ensures
            r is Ok <==> self.list().spec_allocator().grants(
                self.list().nodes()[self.node()].value_layout@,
            ),
            match r {
                Ok(value) => {
                    &&& *value == self.spec_value().unwrap()
                    &&& final(self.list).wf()
                    &&& final(self.list).order() == self.list().order()
                    &&& final(self.list)@ == self.list()@
                    &&& final(self.list).nodes() == self.list().nodes().remove(self.node())
                    &&& final(self.list).spec_allocator()
                        == self.list().spec_allocator().after_deallocate(
                        self.list().arena().node_layout(self.node()),
                    )
                },
                Err(error) => {
                    &&& error.spec_value() == self
                    &&& error.spec_layout() == Some(self.list().nodes()[self.node()].value_layout)
                },
            },
    {
        let allocator: A = *self.list.allocator();
        self.try_take_boxed_in(allocator)
    }

    /// Moves the value into a box and returns it; the node is given back.
    /// The box is asked of `allocator`, with the layout of the value.
    ///
    /// The value must have been written, and `allocator` must grant the
    /// layout of the value.
    pub fn take_boxed_in<A2: Allocator>(self, allocator: A2) -> (r: Box<U>)
        requires
            self.wf(),
            self.spec_value().is_some(),
            allocator.grants(self.list().nodes()[self.node()].value_layout@),
        ensures
            *r == self.spec_value().unwrap(),
            final(self.list).wf(),
            final(self.list).order() == self.list().order(),
            final(self.list)@ == self.list()@,
            final(self.list).nodes() == self.list().nodes().remove(self.node()),
            final(self.list).spec_allocator() == self.list().spec_allocator().after_deallocate(
                self.list().arena().node_layout(self.node()),
            ),
    {
        match self.try_take_boxed_in(allocator) {
            Ok(value) => value,
            Err(_) => unreached(),
        }
    }

    /// Moves the value into a box and returns it; the node is given back.
    ///
    /// The value must have been written, and the list's allocator must grant
    /// the layout of the value.
    pub fn take_boxed(self) -> (r: Box<U>) where A: Copy
        requires
            self.wf(),
            self.spec_value().is_some(),
            self.list().spec_allocator().grants(self.list().nodes()[self.node()].value_layout@),
        ensures
            *r == self.spec_value().unwrap(),
            final(self.list).wf(),
            final(self.list).order() == self.list().order(),
            final(self.list)@ == self.list()@,
            final(self.list).nodes() == self.list().nodes().remove(self.node()),
            final(self.list).spec_allocator() == self.list().spec_allocator().after_deallocate(
                self.list().arena().node_layout(self.node()),
            ),
    {
        let allocator: A = *self.list.allocator();
        self.take_boxed_in(allocator)
    }
}

/// `declined` is what a request that ends as `outcome` reports when it
/// fails: nothing where no layout exists for the node, else the layout that
/// the allocator declined.
pub open spec fn refused(outcome: Outcome, declined: Option<Layout>) -> bool {
    match outcome {
        Outcome::Overflow => declined.is_none(),
        Outcome::Denied(layout) => declined.is_some() && declined.unwrap()@ == layout,
        Outcome::Granted(_) => false,
    }
}

/// `node` is what a request that ends as `outcome` hands out when it is
/// granted for place `k` of `before`: a new node of the list, unwritten and
/// not linked, whose links name the neighbours of place `k`. The list's other
/// nodes are as they were.
pub open spec fn granted_at<U, A: Allocator>(
    before: DynList<U, A>,
    node: MaybeUninitNode<'_, U, A>,
    k: int,
    metadata: Option<usize>,
    value_layout: LayoutView,
    outcome: Outcome,
) -> bool {
    &&& outcome is Granted
    &&& node.wf()
    &&& !before.nodes().dom().contains(node.node())
    &&& node.list().order() == before.order()
    &&& node.list()@ == before@
    &&& node.list().nodes().dom() == before.nodes().dom().insert(node.node())
    &&& forall|p: NodePtr|
        before.nodes().dom().contains(p) ==> #[trigger] node.list().nodes()[p] == before.nodes()[p]
    &&& node.list().nodes()[node.node()].header == (Header {
        next: node_at(before.order(), k),
        previous: node_at(before.order(), k - 1),
    })
    &&& node.spec_metadata() == metadata
    &&& node.list().nodes()[node.node()].value_layout@ == value_layout
    &&& node.spec_value().is_none()
    &&& node.position() == k
    &&& node.list().spec_allocator() == before.spec_allocator().after_allocate(outcome->Granted_0)
}

/// `node` is what taking the node at place `k` out of `before` hands out:
/// that node with its value, outside the order, fitting where it stood.
pub open spec fn removed_at<U, A: Allocator>(
    before: DynList<U, A>,
    node: MaybeUninitNode<'_, U, A>,
    k: int,
) -> bool {
    &&& 0 <= k < before.order().len()
    &&& node.wf()
    &&& node.node() == before.order()[k]
    &&& node.list().order() == before.order().remove(k)
    &&& node.list()@ == before@.remove(k)
    &&& node.spec_value() == Some(before@[k])
    &&& node.position() == k
    &&& same_payloads(node.list().nodes(), before.nodes())
    &&& node.list().spec_allocator() == before.spec_allocator()
}

/// Watches over a node of `list` that is not linked.
pub fn new_maybe_uninit<'a, U, A: Allocator>(list: &'a mut DynList<U, A>, node: NodePtr) -> (r:
    MaybeUninitNode<'a, U, A>)
    requires
        old(list).wf(),
        old(list).staged(node),
    ensures
        r.wf(),
        r.node() == node,
        r.list() == *old(list),
        *final(list) == *final(r.list),
{
    MaybeUninitNode { list, node }
}

/// Attempts to make a node of `list` with links `header` for a value of
/// layout `value_layout`. The node is not linked and its value is not
/// written; its links name the place where it belongs.
///
/// Fails where no layout exists for the node, and where the allocator
/// declines that layout; the list is then as it was.
pub fn try_new<'a, U, A: Allocator>(
    list: &'a mut DynList<U, A>,
    metadata: Option<usize>,
    value_layout: Layout,
    header: Header,
) -> (r: Result<MaybeUninitNode<'a, U, A>, AllocateError>)
    requires
        old(list).wf(),
        value_layout.valid(),
        fits(old(list).order(), header),
    ensures
        match r {
            Ok(node) => granted_at(
                *old(list),
                node,
                slot_for(old(list).order(), header),
                metadata,
                value_layout@,
                old(list).outcome(metadata.is_some(), value_layout@),
            ) && *final(list) == *final(node.list),
            Err(error) => *final(list) == *old(list) && refused(
                old(list).outcome(metadata.is_some(), value_layout@),
                error.spec_layout(),
            ),
        },
{
    match list.try_allocate_node(header, metadata, value_layout) {
        Ok(node) => Ok(new_maybe_uninit(list, node)),
        Err(error) => Err(error),
    }
}

impl<U, A: Allocator> DynList<U, A> {
    /// Attempts to allocate an uninitialised node at the front of the list.
    ///
    /// Fails where no layout exists for the node, and where the allocator
    /// declines that layout; the list is then as it was.
    pub fn try_allocate_uninit_front(
        &mut self,
        metadata: Option<usize>,
        value_layout: Layout,
    ) -> (r:
        Result<MaybeUninitNode<'_, U, A>, AllocateError>)
        requires
            old(self).wf(),
            value_layout.valid(),
        ensures
            match r {
                Ok(node) => granted_at(
                    *old(self),
                    node,
                    0,
                    metadata,
                    value_layout@,
                    old(self).outcome(metadata.is_some(), value_layout@),
                ) && *final(self)
                    == *final(node.list),
                Err(error) => *final(self) == *old(self) &&
                    refused(
                        old(self).outcome(metadata.is_some(), value_layout@),
                        error.spec_layout(),
                    ),
            },
    {
        let next: Option<NodePtr> = self.front_node();
        proof {
            lemma_slot_for(self.order(), Header { next, previous: None }, 0);
        }
        try_new(self, metadata, value_layout, Header { next, previous: None })
    }

    /// Attempts to allocate an uninitialised node at the back of the list.
    ///
    /// Fails where no layout exists for the node, and where the allocator
    /// declines that layout; the list is then as it was.
    pub fn try_allocate_uninit_back(&mut self, metadata: Option<usize>, value_layout: Layout) -> (r:
        Result<MaybeUninitNode<'_, U, A>, AllocateError>)
        requires
            old(self).wf(),
            value_layout.valid(),
        ensures
            match r {
                Ok(node) => granted_at(
                    *old(self),
                    node,
                    old(self).order().len() as int,
                    metadata,
                    value_layout@,
                    old(self).outcome(metadata.is_some(), value_layout@),
                ) && *final(self) == *final(node.list),
                Err(error) => *final(self) == *old(self) &&
                    refused(
                        old(self).outcome(metadata.is_some(), value_layout@),
                        error.spec_layout(),
                    ),
            },
    {
        let previous: Option<NodePtr> = self.back_node();
        proof {
            lemma_slot_for(
                self.order(),
                Header { next: None, previous },
                self.order().len() as int,
            );
        }
        try_new(self, metadata, value_layout, Header { next: None, previous })
    }

    /// Allocates an uninitialised node at the front of the list.
    ///
    /// A layout must exist for the node, and the allocator must grant it.
    pub fn allocate_uninit_front(&mut self, metadata: Option<usize>, value_layout: Layout) -> (node:
        MaybeUninitNode<'_, U, A>)
        requires
            old(self).wf(),
            value_layout.valid(),
            old(self).outcome(metadata.is_some(), value_layout@) is Granted,
        ensures
            granted_at(
                *old(self),
                node,
                0,
                metadata,
                value_layout@,
                old(self).outcome(metadata.is_some(), value_layout@),
            ),
            *final(self) == *final(node.list),
    {
        match self.try_allocate_uninit_front(metadata, value_layout) {
            Ok(node) => node,
            Err(_) => unreached(),
        }
    }

    /// Allocates an uninitialised node at the back of the list.
    ///
    /// A layout must exist for the node, and the allocator must grant it.
    pub fn allocate_uninit_back(&mut self, metadata: Option<usize>, value_layout: Layout) -> (node:
        MaybeUninitNode<'_, U, A>)
        requires
            old(self).wf(),
            value_layout.valid(),
            old(self).outcome(metadata.is_some(), value_layout@) is Granted,
        ensures
            granted_at(
                *old(self),
                node,
                old(self).order().len() as int,
                metadata,
                value_layout@,
                old(self).outcome(metadata.is_some(), value_layout@),
            ),
            *final(self) == *final(node.list),
    {
        match self.try_allocate_uninit_back(metadata, value_layout) {
            Ok(node) => node,
            Err(_) => unreached(),
        }
    }

    /// Takes the node `node` of the order out of the list and hands it out.
    pub fn remove_node(&mut self, node: NodePtr) -> (r: MaybeUninitNode<'_, U, A>)
        requires
            old(self).wf(),
            old(self).order().contains(node),
        ensures
            removed_at(*old(self), r, index_in(old(self).order(), node)),
            *final(self) == *final(r.list),
    {
        proof {
            let k = index_in(self.order(), node);
            assert(self.order()[k] == node);
        }
        self.unlink(node);
        MaybeUninitNode { list: self, node }
    }

    /// Removes the front node of the list and hands it out with its value.
    ///
    /// If the list is empty, this returns `None` and changes nothing.
    pub fn pop_front_node(&mut self) -> (r: Option<MaybeUninitNode<'_, U, A>>)
        requires
            old(self).wf(),
        ensures
            match r {
                Some(node) => removed_at(*old(self), node, 0) && *final(self) == *final(node.list),
                None => old(self)@.len() == 0 && *final(self) == *old(self),
            },
    {
        match self.front_node() {
            Some(front) => {
                proof {
                    assert(self.order()[0] == front);
                    lemma_index_in(self.order(), 0);
                }
                Some(self.remove_node(front))
            },
            None => None,
        }
    }

    /// Removes the back node of the list and hands it out with its value.
    ///
    /// If the list is empty, this returns `None` and changes nothing.
    pub fn pop_back_node(&mut self) -> (r: Option<MaybeUninitNode<'_, U, A>>)
        requires
            old(self).wf(),
        ensures
            match r {
                Some(node) => removed_at(*old(self), node, old(self).order().len() - 1) &&
                    *final(self) == *final(node.list),
                None => old(self)@.len() == 0 && *final(self) == *old(self),
            },
    {
        match self.back_node() {
            Some(back) => {
                proof {
                    assert(self.order()[self.order().len() - 1] == back);
                    lemma_index_in(self.order(), self.order().len() - 1);
                }
                Some(self.remove_node(back))
            },
            None => None,
        }
    }

    /// Deletes and drops the node at the front of the list.
    ///
    /// Returns `true` if a node was removed and `false` if the list was empty.
    pub fn delete_front(&mut self) -> (r: bool)
        requires
            old(self).wf(),
        ensures
            r == (old(self)@.len() > 0),
            final(self).wf(),
            r ==> final(self)@ == old(self)@.remove(0),
            r ==> final(self).order() == old(self).order().remove(0),
            r ==> final(self).spec_allocator() == old(self).spec_allocator().after_deallocate(
                old(self).arena().node_layout(old(self).order()[0]),
            ),
            r ==> same_payloads(
                final(self).nodes(),
                old(self).nodes().remove(old(self).order()[0]),
            ),
            !r ==> *final(self) == *old(self),
    {
        match self.pop_front_node() {
            Some(mut node) => {
                node.drop_in_place();
                node.deallocate();
                proof {
                    assert(self.nodes().dom() =~= old(self).nodes().remove(
                        old(self).order()[0],
                    ).dom());
                }
                true
            },
            None => false,
        }
    }

    /// Deletes and drops the node at the back of the list.
    ///
    /// Returns `true` if a node was removed and `false` if the list was empty.
    pub fn delete_back(&mut self) -> (r: bool)
        requires
            old(self).wf(),
        ensures
            r == (old(self)@.len() > 0),
            final(self).wf(),
            r ==> final(self)@ == old(self)@.drop_last(),
            r ==> final(self).order() == old(self).order().drop_last(),
            r ==> final(self).spec_allocator() == old(self).spec_allocator().after_deallocate(
                old(self).arena().node_layout(old(self).order().last()),
            ),
            r ==> same_payloads(
                final(self).nodes(),
                old(self).nodes().remove(old(self).order().last()),
            ),
            !r ==> *final(self) == *old(self),
    {
        match self.pop_back_node() {
            Some(mut node) => {
                node.drop_in_place();
                node.deallocate();
                proof {
                    assert(self.nodes().dom() =~= old(self).nodes().remove(
                        old(self).order().last(),
                    ).dom());
                    assert(old(self)@.remove(old(self)@.len() - 1) =~= old(self)@.drop_last());
                    assert(old(self).order().remove(old(self).order().len() - 1)
                        =~= old(self).order().drop_last());
                }
                true
            },
            None => false,
        }
    }

    /// Attempts to remove the front node and return its value in a box. The
    /// box is asked of a copy of the list's allocator, with the layout of the
    /// value.
    ///
    /// If the list is empty, this returns `None`.
    ///
    /// Where the allocator declines, the node is linked in again and the list
    /// is as it was.
    pub fn try_pop_front_boxed(&mut self) -> (r: Option<Result<Box<U>, AllocateError>>) where
        A: Copy,

        requires
            old(self).wf(),
        ensures
            final(self).wf(),
            r is Some <==> old(self)@.len() > 0,
            r is None ==> *final(self) == *old(self),
            r is Some ==> {
                let node = old(self).order()[0];
                let value_layout = old(self).nodes()[node].value_layout;
                match r->Some_0 {
                    Ok(value) => {
                        &&& old(self).spec_allocator().grants(value_layout@)
                        &&& *value == old(self)@[0]
                        &&& final(self)@ == old(self)@.drop_first()
                        &&& final(self).spec_allocator() ==
                            old(self).spec_allocator().after_deallocate(
                                old(self).arena().node_layout(node),
                            )
                    },
                    Err(error) => {
                        &&& !old(self).spec_allocator().grants(value_layout@)
                        &&& error.spec_layout() == Some(value_layout)
                        &&& final(self)@ == old(self)@
                        &&& final(self).order() == old(self).order()
                        &&& final(self).spec_allocator() == old(self).spec_allocator()
                    },
                }
            },
    {
        match self.pop_front_node() {
            Some(node) => match node.try_take_boxed() {
                Ok(value) => {
                    proof {
                        assert(old(self)@.remove(0) =~= old(self)@.drop_first());
                    }
                    Some(Ok(value))
                },
                Err(error) => {
                    let (node, error) = error.into_parts();
                    node.insert();
                    proof {
                        let order = old(self).order();
                        let at = 0;
                        assert(order.remove(at).insert(at, order[at]) =~= order);
                        assert(old(self)@.remove(at).insert(at, old(self)@[at]) =~= old(self)@);
                    }
                    Some(Err(error))
                },
            },
            None => None,
        }
    }

    /// Removes the front node and returns its value in a box.
    ///
    /// If the list is empty, this returns `None`.
    ///
    /// The list's allocator must grant the layout of the value.
    pub fn pop_front_boxed(&mut self) -> (r: Option<Box<U>>) where A: Copy
        requires
            old(self).wf(),
            old(self)@.len() > 0 ==> old(self).spec_allocator().grants(
                old(self).nodes()[old(self).order()[0]].value_layout@,
            ),
        ensures
            final(self).wf(),
            r is Some <==> old(self)@.len() > 0,
            r is None ==> *final(self) == *old(self),
            r is Some ==> {
                &&& *r->Some_0 == old(self)@[0]
                &&& final(self)@ == old(self)@.drop_first()
                &&& final(self).spec_allocator() == old(self).spec_allocator().after_deallocate(
                    old(self).arena().node_layout(old(self).order()[0]),
                )
            },
    {
        match self.try_pop_front_boxed() {
            Some(result) => Some(AllocateError::unwrap_result(result)),
            None => None,
        }
    }

    /// Attempts to remove the back node and return its value in a box. The
    /// box is asked of a copy of the list's allocator, with the layout of the
    /// value.
    ///
    /// If the list is empty, this returns `None`.
    ///
    /// Where the allocator declines, the node is linked in again and the list
    /// is as it was.
    pub fn try_pop_back_boxed(&mut self) -> (r: Option<Result<Box<U>, AllocateError>>) where
        A: Copy,

        requires
            old(self).wf(),
        ensures
            final(self).wf(),
            r is Some <==> old(self)@.len() > 0,
            r is None ==> *final(self) == *old(self),
            r is Some ==> {
                let node = old(self).order().last();
                let value_layout = old(self).nodes()[node].value_layout;
                match r->Some_0 {
                    Ok(value) => {
                        &&& old(self).spec_allocator().grants(value_layout@)
                        &&& *value == old(self)@[old(self)@.len() - 1]
                        &&& final(self)@ == old(self)@.drop_last()
                        &&& final(self).spec_allocator() ==
                            old(self).spec_allocator().after_deallocate(
                                old(self).arena().node_layout(node),
                            )
                    },
                    Err(error) => {
                        &&& !old(self).spec_allocator().grants(value_layout@)
                        &&& error.spec_layout() == Some(value_layout)
                        &&& final(self)@ == old(self)@
                        &&& final(self).order() == old(self).order()
                        &&& final(self).spec_allocator() == old(self).spec_allocator()
                    },
                }
            },
    {
        match self.pop_back_node() {
            Some(node) => match node.try_take_boxed() {
                Ok(value) => {
                    proof {
                        assert(old(self)@.remove(old(self)@.len() - 1) =~= old(self)@.drop_last());
                    }
                    Some(Ok(value))
                },
                Err(error) => {
                    let (node, error) = error.into_parts();
                    node.insert();
                    proof {
                        let order = old(self).order();
                        let at = old(self)@.len() - 1;
                        assert(order.remove(at).insert(at, order[at]) =~= order);
                        assert(old(self)@.remove(at).insert(at, old(self)@[at]) =~= old(self)@);
                    }
                    Some(Err(error))
                },
            },
            None => None,
        }
    }

    /// Removes the back node and returns its value in a box.
    ///
    /// If the list is empty, this returns `None`.
    ///
    /// The list's allocator must grant the layout of the value.
    pub fn pop_back_boxed(&mut self) -> (r: Option<Box<U>>) where A: Copy
        requires
            old(self).wf(),
            old(self)@.len() > 0 ==> old(self).spec_allocator().grants(
                old(self).nodes()[old(self).order().last()].value_layout@,
            ),
        ensures
            final(self).wf(),
            r is Some <==> old(self)@.len() > 0,
            r is None ==> *final(self) == *old(self),
            r is Some ==> {
                &&& *r->Some_0 == old(self)@[old(self)@.len() - 1]
                &&& final(self)@ == old(self)@.drop_last()
                &&& final(self).spec_allocator() == old(self).spec_allocator().after_deallocate(
                    old(self).arena().node_layout(old(self).order().last()),
                )
            },
    {
        match self.try_pop_back_boxed() {
            Some(result) => Some(AllocateError::unwrap_result(result)),
            None => None,
        }
    }

    /// Destroys the values and gives the nodes back, from the front to the
    /// back, until the list is empty.
    pub fn clear(&mut self)
        requires
            old(self).wf(),
        ensures
            final(self).wf(),
            final(self)@.len() == 0,
            final(self).spec_allocator() == released_each(
                old(self).spec_allocator(),
                old(self).node_layouts(),
            ),
    {
        let ghost layouts = self.node_layouts();
        let ghost mut i: int = 0;
        proof {
            assert(self.order().skip(0) =~= self.order());
            assert(layouts.skip(0) =~= layouts);
        }
        loop
            invariant
                self.wf(),
                layouts == old(self).node_layouts(),
                0 <= i <= layouts.len(),
                self.node_layouts() == layouts.skip(i),
                released_each(old(self).spec_allocator(), layouts) == released_each(
                    self.spec_allocator(),
                    layouts.skip(i),
                ),
            ensures
                self@.len() == 0,
                i == layouts.len(),
            decreases layouts.len() - i,
        {
            let ghost before = *self;
            proof {
                assert(before.node_layouts().len() == before.order().len());
            }
            if !self.delete_front() {
                break ;
            }
            proof {
                assert(layouts.skip(i)[0] == before.arena().node_layout(before.order()[0]));
                assert(self.node_layouts() =~= layouts.skip(i + 1)) by {
                    assert forall|j: int| 0 <= j < self.order().len() implies self.node_layouts()[j]
                        == layouts.skip(i + 1)[j] by {
                        assert(self.order()[j] == before.order()[j + 1]);
                        assert(before.nodes().dom().contains(before.order()[j + 1]));
                        assert(before.order()[j + 1] != before.order()[0]);
                        assert(layouts.skip(i)[j + 1] == before.arena().node_layout(
                            before.order()[j + 1],
                        ));
                    }
                }
                assert(layouts.skip(i).drop_first() =~= layouts.skip(i + 1));
                i = i + 1;
            }
        }
        proof {
            assert(layouts.skip(i) =~= Seq::<LayoutView>::empty());
        }
    }
}

} // verus!
