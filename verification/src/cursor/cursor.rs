//! The cursor that reads.

use crate::allocator::{Allocator, Global};
use crate::list::{index_in, lemma_index_in, DynList};
use crate::node::NodePtr;
use vstd::prelude::*;

verus! {

/// Where a cursor at place `at` of a list of `len` values stands after a
/// step forwards: `None` is the ghost place between the back and the front.
pub open spec fn spec_move_next(len: int, at: Option<int>) -> Option<int> {
    match at {
        None => if len > 0 {
            Some(0)
        } else {
            None
        },
        Some(i) => if i + 1 < len {
            Some(i + 1)
        } else {
            None
        },
    }
}

/// Where a cursor at place `at` of a list of `len` values stands after a
/// step backwards: `None` is the ghost place between the back and the front.
pub open spec fn spec_move_previous(len: int, at: Option<int>) -> Option<int> {
    match at {
        None => if len > 0 {
            Some(len - 1)
        } else {
            None
        },
        Some(i) => if i > 0 {
            Some(i - 1)
        } else {
            None
        },
    }
}

/// The place of the node `current` in `order`; `None` for the ghost place.
pub open spec fn place_of(order: Seq<NodePtr>, current: Option<NodePtr>) -> Option<int> {
    match current {
        Some(node) => Some(index_in(order, node)),
        None => None,
    }
}

/// A cursor over a [`DynList`].
///
/// Cursors point to an element in the list. There is an extra "ghost" element
/// between the front and the back, making it circular.
pub struct Cursor<'a, U, A: Allocator = Global> {
    /// The node the cursor is on; `None` on the ghost element.
    pub current: Option<NodePtr>,
    /// The list the cursor is over.
    pub list: &'a DynList<U, A>,
}

impl<'a, U, A: Allocator> Clone for Cursor<'a, U, A> {
    /// A second cursor at the same place of the same list.
    fn clone(&self) -> (r: Self)
        ensures
            r.current == self.current,
            r.list == self.list,
    {
        Cursor { current: self.current, list: self.list }
    }
}

impl<'a, U, A: Allocator> Cursor<'a, U, A> {
    /// The list is in order and the cursor is on one of its linked nodes, or
    /// on the ghost element.
    pub open spec fn wf(&self) -> bool {
        &&& self.list.wf()
        &&& self.current is Some ==> self.list.order().contains(self.current->Some_0)
    }

    /// The place of the cursor in the list; `None` on the ghost element.
    pub open spec fn index(&self) -> Option<int> {
        place_of(self.list.order(), self.current)
    }

    /// Moves the cursor to the next element.
    ///
    /// If the cursor is on the "ghost" element, this moves to the front of the list.
    /// If the cursor is at the back of the list, this moves to the "ghost" element.
    pub fn move_next(&mut self)
        requires
            old(self).wf(),
        ensures
            final(self).wf(),
            final(self).list == old(self).list,
            final(self).index() == spec_move_next(
                old(self).list@.len() as int,
                old(self).index(),
            ),
    {
        proof {
            lemma_step(self.list.order(), self.list.nodes(), self.current);
        }
        self.current = match self.current {
            None => self.list.front_node(),
            Some(node) => self.list.header(node).next,
        };
    }

    /// Moves the cursor to the previous element.
    ///
    /// If the cursor is on the "ghost" element, this moves to the back of the list.
    /// If the cursor is at the front of the list, this moves to the "ghost" element.
    pub fn move_previous(&mut self)
        requires
            old(self).wf(),
        ensures
            final(self).wf(),
            final(self).list == old(self).list,
            final(self).index() == spec_move_previous(
                old(self).list@.len() as int,
                old(self).index(),
            ),
    {
        proof {
            lemma_step(self.list.order(), self.list.nodes(), self.current);
        }
        self.current = match self.current {
            None => self.list.back_node(),
            Some(node) => self.list.header(node).previous,
        };
    }

    /// Gets a reference to the current element.
    ///
    /// If the cursor is pointing to the "ghost" element, this returns `None`.
    pub fn current(&self) -> (r: Option<&'a U>)
        requires
            self.wf(),
        ensures
            r.is_some() == self.index().is_some(),
            r.is_some() ==> *r.unwrap() == self.list@[self.index().unwrap()],
    {
        proof {
            lemma_step(self.list.order(), self.list.nodes(), self.current);
        }
        match self.current {
            Some(node) => self.list.value(node),
            None => None,
        }
    }

    /// Returns a reference to the underlying list.
    pub fn as_list(&self) -> (r: &'a DynList<U, A>)
        ensures
            r == self.list,
    {
        self.list
    }
}

/// What a cursor on `current` finds: the node stands at its place in the
/// order, is of the list and holds a value; the nodes that its links name
/// stand at the places beside it, and so do the ends of the order.
pub proof fn lemma_step<U>(
    order: Seq<NodePtr>,
    nodes: crate::list::Nodes<U>,
    current: Option<NodePtr>,
)
    requires
        order.no_duplicates(),
        crate::list::linked(nodes, order),
        current is Some ==> order.contains(current->Some_0),
    ensures
        order.len() > 0 ==> index_in(order, order[0]) == 0 && index_in(order, order.last())
            == order.len() - 1,
        current is Some ==> {
            let node = current->Some_0;
            let k = index_in(order, node);
            &&& 0 <= k < order.len()
            &&& order[k] == node
            &&& nodes.dom().contains(node)
            &&& nodes[node].value.is_some()
            &&& nodes[node].header.next == crate::list::node_at(order, k + 1)
            &&& nodes[node].header.previous == crate::list::node_at(order, k - 1)
            &&& k + 1 < order.len() ==> index_in(order, order[k + 1]) == k + 1
            &&& k > 0 ==> index_in(order, order[k - 1]) == k - 1
        },
{
    if order.len() > 0 {
        lemma_index_in(order, 0);
        lemma_index_in(order, order.len() - 1);
    }
    if current is Some {
        let node = current->Some_0;
        let k = index_in(order, node);
        assert(0 <= k < order.len() && order[k] == node);
        assert(nodes.dom().contains(order[k]));
        if k + 1 < order.len() {
            lemma_index_in(order, k + 1);
        }
        if k > 0 {
            lemma_index_in(order, k - 1);
        }
    }
}

impl<U, A: Allocator> DynList<U, A> {
    /// Creates a [`Cursor`] at the front of the list.
    ///
    /// If the list is empty, this will point to the "ghost" element.
    pub fn cursor_front(&self) -> (r: Cursor<'_, U, A>)
        requires
            self.wf(),
        ensures
            r.wf(),
            r.list == self,
            r.index() == spec_move_next(self@.len() as int, None),
    {
        proof {
            lemma_step(self.order(), self.nodes(), None);
        }
        Cursor { current: self.front_node(), list: self }
    }

    /// Creates a [`Cursor`] at the back of the list.
    ///
    /// If the list is empty, this will point to the "ghost" element.
    pub fn cursor_back(&self) -> (r: Cursor<'_, U, A>)
        requires
            self.wf(),
        ensures
            r.wf(),
            r.list == self,
            r.index() == spec_move_previous(self@.len() as int, None),
    {
        proof {
            lemma_step(self.order(), self.nodes(), None);
        }
        Cursor { current: self.back_node(), list: self }
    }
}

} // verus!
