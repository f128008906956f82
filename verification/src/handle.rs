//! What a structure offers to the nodes that are made for it.

use crate::allocator::Allocator;
use crate::layout::LayoutView;
use crate::list::{fits, lemma_not_in, DynList};
use crate::node::NodePtr;
use vstd::prelude::*;

verus! {

/// A structure that nodes can be made for: it links a finished node in,
/// gives an unlinked node back, and names the allocator that grants its
/// nodes.
pub trait StructureHandle<U> {
    /// The allocator that grants the structure's nodes.
    type Allocator: Allocator;

    /// The structure is in order.
    spec fn handle_wf(&self) -> bool;

    /// The node is of the structure and is not linked into it.
    spec fn holds(&self, node: NodePtr) -> bool;

    /// The node's value is written and its links name neighbours of the
    /// structure, or an end of it.
    spec fn ready(&self, node: NodePtr) -> bool;

    /// The structure's allocator.
    spec fn handle_allocator(&self) -> Self::Allocator;

    /// The layout that the node was granted with.
    spec fn handle_layout(&self, node: NodePtr) -> LayoutView;

    /// Links the node into the structure; the other unlinked nodes stay
    /// unlinked.
    fn insert(&mut self, node: NodePtr)
        requires
            old(self).handle_wf(),
            old(self).holds(node),
            old(self).ready(node),
        ensures
            final(self).handle_wf(),
            !final(self).holds(node),
            forall|other: NodePtr| other != node ==>
                final(self).holds(other) == old(self).holds(other),
            final(self).handle_allocator() == old(self).handle_allocator(),
    ;

    /// Gets the allocator to use for the structure's nodes.
    fn allocator(&self) -> (r: &Self::Allocator)
        ensures
            *r == self.handle_allocator(),
    ;

    /// Gives an unlinked node back to the allocator, without a look at its
    /// value.
    fn deallocate(&mut self, node: NodePtr)
        requires
            old(self).handle_wf(),
            old(self).holds(node),
        ensures
            final(self).handle_wf(),
            !final(self).holds(node),
            forall|other: NodePtr| other != node ==>
                final(self).holds(other) == old(self).holds(other),
            final(self).handle_allocator() == old(self).handle_allocator().after_deallocate(
                old(self).handle_layout(node),
            ),
    ;
}

impl<U, A: Allocator> StructureHandle<U> for DynList<U, A> {
    type Allocator = A;

    open spec fn handle_wf(&self) -> bool {
        self.wf()
    }

    open spec fn holds(&self, node: NodePtr) -> bool {
        self.nodes().dom().contains(node) && !self.order().contains(node)
    }

    open spec fn ready(&self, node: NodePtr) -> bool {
        self.nodes()[node].value.is_some() && fits(self.order(), self.nodes()[node].header)
    }

    open spec fn handle_allocator(&self) -> A {
        self.spec_allocator()
    }

    open spec fn handle_layout(&self, node: NodePtr) -> LayoutView {
        self.arena().node_layout(node)
    }

    fn insert(&mut self, node: NodePtr) {
        let ghost k = crate::list::slot_for(self.order(), self.nodes()[node].header);
        DynList::insert(self, node);
        proof {
            let order = old(self).order();
            let grown = order.insert(k, node);
            lemma_not_in(order, node);
            assert(grown[k] == node);
            assert forall|other: NodePtr| other != node implies final(self).holds(other) ==
                old(self).holds(other) by {
                if order.contains(other) {
                    let i = choose|i: int| 0 <= i < order.len() && order[i] == other;
                    assert(grown[if i < k {
                        i
                    } else {
                        i + 1
                    }] == other);
                }
                if grown.contains(other) {
                    let i = choose|i: int| 0 <= i < grown.len() && grown[i] == other;
                    assert(order[if i < k {
                        i
                    } else {
                        i - 1
                    }] == other);
                }
            }
        }
    }

    fn allocator(&self) -> (r: &A) {
        DynList::allocator(self)
    }

    fn deallocate(&mut self, node: NodePtr) {
        DynList::deallocate(self, node);
    }
}

} // verus!
