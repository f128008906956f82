//! The cursor that changes the list.

use crate::allocator::{Allocator, Global};
use crate::cursor::cursor::{lemma_step, place_of, spec_move_next, spec_move_previous, Cursor};
use crate::errors::AllocateError;
use crate::layout::Layout;
use crate::list::{
    fits, index_in, lemma_index_in, lemma_slot_for, node_at, slot_for, DynList, Header,
};
use crate::node::NodePtr;
use crate::uninit::{granted_at, refused, removed_at, try_new, MaybeUninitNode};
use vstd::prelude::*;

verus! {

/// The place at which a node made before a cursor at `at` is linked in: the
/// cursor's own place, or the back of the list from the ghost element.
pub open spec fn place_before(len: int, at: Option<int>) -> int {
    match at {
        Some(i) => i,
        None => len,
    }
}

/// The place at which a node made after a cursor at `at` is linked in: the
/// place behind the cursor's, or the front of the list from the ghost element.
pub open spec fn place_after(len: int, at: Option<int>) -> int {
    match at {
        Some(i) => i + 1,
        None => 0,
    }
}

/// Where a node of `order` stands once `node` has been linked in at place `k`.
pub proof fn lemma_place_after_insert(order: Seq<NodePtr>, k: int, node: NodePtr, j: int)
    requires
        0 <= k <= order.len(),
        0 <= j < order.len(),
        order.insert(k, node).no_duplicates(),
    ensures
        order.insert(k, node).contains(order[j]),
        index_in(order.insert(k, node), order[j]) == if j < k {
            j
        } else {
            j + 1
        },
{
    let after = order.insert(k, node);
    let at = if j < k {
        j
    } else {
        j + 1
    };
    assert(after[at] == order[j]);
    lemma_index_in(after, at);
}

/// Where a node of `order` stands once the node at place `k` has been taken out.
pub proof fn lemma_place_after_remove(order: Seq<NodePtr>, k: int, j: int)
    requires
        0 <= k < order.len(),
        0 <= j < order.len(),
        j != k,
        order.remove(k).no_duplicates(),
    ensures
        order.remove(k).contains(order[j]),
        index_in(order.remove(k), order[j]) == if j < k {
            j
        } else {
            j - 1
        },
{
    let after = order.remove(k);
    let at = if j < k {
        j
    } else {
        j - 1
    };
    assert(after[at] == order[j]);
    lemma_index_in(after, at);
}

/// Where a cursor at `at` stands once the element it was on has been
/// removed: on the element before it, or on the ghost element.
pub open spec fn place_after_removal(at: int) -> Option<int> {
    if at > 0 {
        Some(at - 1)
    } else {
        None
    }
}

/// Where a cursor at `at` stands once a node has been linked in at place `k`:
/// on the same element, which has moved one place where `k` is not behind it.
pub open spec fn place_after_insertion(at: Option<int>, k: int) -> Option<int> {
    match at {
        Some(i) => if i < k {
            Some(i)
        } else {
            Some(i + 1)
        },
        None => None,
    }
}

/// A mutable cursor over a [`DynList`].
///
/// Cursors point to an element in the list. There is an extra "ghost" element
/// between the front and the back, making it circular.
pub struct CursorMut<'a, U, A: Allocator = Global> {
    /// The node the cursor is on; `None` on the ghost element.
    pub current: Option<NodePtr>,
    /// The list the cursor is over.
    pub list: &'a mut DynList<U, A>,
}

impl<'a, U, A: Allocator> CursorMut<'a, U, A> {
    /// The list the cursor is over, as it stands.
    pub open spec fn list(&self) -> DynList<U, A> {
        *self.list
    }

    /// The list is in order and the cursor is on one of its linked nodes, or
    /// on the ghost element.
    pub open spec fn wf(&self) -> bool {
        &&& self.list().wf()
        &&& self.current is Some ==> self.list().order().contains(self.current->Some_0)
    }

    /// The place of the cursor in the list; `None` on the ghost element.
    pub open spec fn index(&self) -> Option<int> {
        place_of(self.list().order(), self.current)
    }

    /// Gets an immutable cursor over the list, at the same place.
    pub fn as_cursor(&self) -> (r: Cursor<'_, U, A>)
        ensures
            r.current == self.current,
            *r.list == self.list(),
    {
        Cursor { current: self.current, list: &*self.list }
    }

    /// Returns a reference to the underlying list.
    pub fn as_list(&self) -> (r: &DynList<U, A>)
        ensures
            *r == self.list(),
    {
        &*self.list
    }

    /// Moves the cursor to the next element.
    ///
    /// If the cursor is on the "ghost" element, this moves to the front of the list.
    /// If the cursor is at the back of the list, this moves to the "ghost" element.
    pub fn move_next(&mut self)
        requires
            old(self).wf(),
        ensures
            final(self).wf(),
            final(self).list() == old(self).list(),
            final(self).index() == spec_move_next(
                old(self).list()@.len() as int,
                old(self).index(),
            ),
            *final(final(self).list) == *final(old(self).list),
    {
        proof {
            lemma_step(self.list().order(), self.list().nodes(), self.current);
        }
        self.current = match self.current {
            None => self.list.front_node(),
            Some(node) => self.list.header(node).next,
        };
    }

    /// Moves the cursor to the previous element.
    ///
    /// If the cursor is on the "ghost" element, this moves to the back of the list.
    /// If the cursor is at the front of the list, this moves to the "ghost" element.
    pub fn move_previous(&mut self)
        requires
            old(self).wf(),
        ensures
            final(self).wf(),
            final(self).list() == old(self).list(),
            final(self).index() == spec_move_previous(
                old(self).list()@.len() as int,
                old(self).index(),
            ),
            *final(final(self).list) == *final(old(self).list),
    {
        proof {
            lemma_step(self.list().order(), self.list().nodes(), self.current);
        }
        self.current = match self.current {
            None => self.list.back_node(),
            Some(node) => self.list.header(node).previous,
        };
    }

    /// Gets a mutable reference to the current element.
    ///
    /// If the cursor is pointing to the "ghost" element, this returns `None`.
    pub fn current(&mut self) -> (r: Option<&mut U>)
        requires
            old(self).wf(),
        ensures
            r.is_some() == old(self).index().is_some(),
            r.is_some() ==> *r.unwrap() == old(self).list()@[old(self).index().unwrap()],
            final(self).current == old(self).current,
            final(self).list().wf(),
            final(self).list().order() == old(self).list().order(),
            r.is_some() ==> final(self).list()@ =~= old(self).list()@.update(
                old(self).index().unwrap(),
                *final(r.unwrap()),
            ),
            r.is_none() ==> final(self).list()@ =~= old(self).list()@,
            final(self).list().spec_allocator() == old(self).list().spec_allocator(),
            *final(final(self).list) == *final(old(self).list),
    {
        match self.current {
            Some(node) => self.list.value_mut(node),
            None => None,
        }
    }

    /// The links of a node that is to stand before the current node: the
    /// current node and the node before it, or the back of the list from the
    /// "ghost" element.
    pub fn links_before(&self) -> (header: Header)
        requires
            self.wf(),
        ensures
            fits(self.list().order(), header),
            slot_for(self.list().order(), header) == place_before(
                self.list()@.len() as int,
                self.index(),
            ),
    {
        proof {
            lemma_step(self.list().order(), self.list().nodes(), self.current);
        }
        let (next, previous) = match self.current {
            None => (None, self.list.back_node()),
            Some(current) => (Some(current), self.list.header(current).previous),
        };
        proof {
            lemma_slot_for(
                self.list().order(),
                Header { next, previous },
                place_before(self.list()@.len() as int, self.index()),
            );
        }
        Header { next, previous }
    }

    /// The links of a node that is to stand after the current node: the
    /// current node and the node after it, or the front of the list from the
    /// "ghost" element.
    pub fn links_after(&self) -> (header: Header)
        requires
            self.wf(),
        ensures
            fits(self.list().order(), header),
            slot_for(self.list().order(), header) == place_after(
                self.list()@.len() as int,
                self.index(),
            ),
    {
        proof {
            lemma_step(self.list().order(), self.list().nodes(), self.current);
        }
        let (next, previous) = match self.current {
            None => (self.list.front_node(), None),
            Some(current) => (self.list.header(current).next, Some(current)),
        };
        proof {
            lemma_slot_for(
                self.list().order(),
                Header { next, previous },
                place_after(self.list()@.len() as int, self.index()),
            );
        }
        Header { next, previous }
    }

    /// Attempts to allocate an uninitialised node before the current node.
    ///
    /// If the cursor is on the "ghost" element, this will allocate the node
    /// at the back of the list.
    ///
    /// Fails where no layout exists for the node, and where the allocator
    /// declines that layout; the list is then as it was.
    pub fn try_allocate_uninit_before(
        &mut self,
        metadata: Option<usize>,
        value_layout: Layout,
    ) -> (r:
        Result<MaybeUninitNode<'_, U, A>, AllocateError>)
        requires
            old(self).wf(),
            value_layout.valid(),
        ensures
            final(self).current == old(self).current,
            *final(final(self).list) == *final(old(self).list),
            match r {
                Ok(node) => granted_at(
                    old(self).list(),
                    node,
                    place_before(old(self).list()@.len() as int, old(self).index()),
                    metadata,
                    value_layout@,
                    old(self).list().outcome(metadata.is_some(), value_layout@),
                ) && final(self).list() == *final(node.list),
                Err(error) => final(self).list() == old(self).list() && refused(
                    old(self).list().outcome(metadata.is_some(), value_layout@),
                    error.spec_layout(),
                ),
            },
    {
        let header: Header = self.links_before();
        try_new(&mut *self.list, metadata, value_layout, header)
    }

    /// Attempts to allocate an uninitialised node after the current node.
    ///
    /// If the cursor is on the "ghost" element, this will allocate the node
    /// at the front of the list.
    ///
    /// Fails where no layout exists for the node, and where the allocator
    /// declines that layout; the list is then as it was.
    pub fn try_allocate_uninit_after(
        &mut self,
        metadata: Option<usize>,
        value_layout: Layout,
    ) -> (r:
        Result<MaybeUninitNode<'_, U, A>, AllocateError>)
        requires
            old(self).wf(),
            value_layout.valid(),
        ensures
            final(self).current == old(self).current,
            *final(final(self).list) == *final(old(self).list),
            match r {
                Ok(node) => granted_at(
                    old(self).list(),
                    node,
                    place_after(old(self).list()@.len() as int, old(self).index()),
                    metadata,
                    value_layout@,
                    old(self).list().outcome(metadata.is_some(), value_layout@),
                ) && final(self).list() == *final(node.list),
                Err(error) => final(self).list() == old(self).list() && refused(
                    old(self).list().outcome(metadata.is_some(), value_layout@),
                    error.spec_layout(),
                ),
            },
    {
        let header: Header = self.links_after();
        try_new(&mut *self.list, metadata, value_layout, header)
    }

    /// Allocates an uninitialised node before the current node.
    ///
    /// If the cursor is on the "ghost" element, this will allocate the node
    /// at the back of the list.
    ///
    /// A layout must exist for the node, and the allocator must grant it.
    pub fn allocate_uninit_before(
        &mut self,
        metadata: Option<usize>,
        value_layout: Layout,
    ) -> (node:
        MaybeUninitNode<'_, U, A>)
        requires
            old(self).wf(),
            value_layout.valid(),
            old(self).list().outcome(metadata.is_some(), value_layout@) is Granted,
        ensures
            final(self).current == old(self).current,
            *final(final(self).list) == *final(old(self).list),
            granted_at(
                old(self).list(),
                node,
                place_before(old(self).list()@.len() as int, old(self).index()),
                metadata,
                value_layout@,
                old(self).list().outcome(metadata.is_some(), value_layout@),
            ),
            final(self).list() == *final(node.list),
    {
        AllocateError::unwrap_result(self.try_allocate_uninit_before(metadata, value_layout))
    }

    /// Allocates an uninitialised node after the current node.
    ///
    /// If the cursor is on the "ghost" element, this will allocate the node
    /// at the front of the list.
    ///
    /// A layout must exist for the node, and the allocator must grant it.
    pub fn allocate_uninit_after(&mut self, metadata: Option<usize>, value_layout: Layout) -> (node:
        MaybeUninitNode<'_, U, A>)
        requires
            old(self).wf(),
            value_layout.valid(),
            old(self).list().outcome(metadata.is_some(), value_layout@) is Granted,
        ensures
            final(self).current == old(self).current,
            *final(final(self).list) == *final(old(self).list),
            granted_at(
                old(self).list(),
                node,
                place_after(old(self).list()@.len() as int, old(self).index()),
                metadata,
                value_layout@,
                old(self).list().outcome(metadata.is_some(), value_layout@),
            ),
            final(self).list() == *final(node.list),
    {
        AllocateError::unwrap_result(self.try_allocate_uninit_after(metadata, value_layout))
    }

    /// Attempts to make a node before the current node for a value of layout
    /// `value_layout`, to write `value` into it and to link it in. The cursor
    /// stays on the element it was on.
    ///
    /// On failure the list is as it was, and the error holds `value`.
    pub fn try_insert_value_before(
        &mut self,
        metadata: Option<usize>,
        value_layout: Layout,
        value: U,
    ) -> (r: Result<(), AllocateError<U>>)
        requires
            old(self).wf(),
            value_layout.valid(),
        ensures
            final(self).wf(),
            final(self).current == old(self).current,
            *final(final(self).list) == *final(old(self).list),
            match r {
                Ok(_) => {
                    let k = place_before(old(self).list()@.len() as int, old(self).index());
                    let outcome = old(self).list().outcome(metadata.is_some(), value_layout@);
                    &&& outcome is Granted
                    &&& final(self).list()@ == old(self).list()@.insert(k, value)
                    &&& final(self).index() == place_after_insertion(old(self).index(), k)
                    &&& final(self).list().spec_allocator() ==
                        old(self).list().spec_allocator().after_allocate(outcome->Granted_0)
                },
                Err(error) => {
                    &&& final(self).list() == old(self).list()
                    &&& error.spec_value() == value
                    &&& refused(
                        old(self).list().outcome(metadata.is_some(), value_layout@),
                        error.spec_layout(),
                    )
                },
            },
    {
        proof {
            lemma_step(self.list().order(), self.list().nodes(), self.current);
        }
        let mut node = match self.try_allocate_uninit_before(metadata, value_layout) {
            Ok(node) => node,
            Err(error) => {
                return Err(error.with_value(value));
            },
        };
        let ghost slot = node.node();
        node.write(value);
        node.insert();
        proof {
            if old(self).index() is Some {
                let at = old(self).index().unwrap();
                lemma_place_after_insert(old(self).list().order(), at, slot, at);
            }
        }
        Ok(())
    }

    /// Attempts to make a node after the current node for a value of layout
    /// `value_layout`, to write `value` into it and to link it in. The cursor
    /// stays on the element it was on.
    ///
    /// On failure the list is as it was, and the error holds `value`.
    pub fn try_insert_value_after(
        &mut self,
        metadata: Option<usize>,
        value_layout: Layout,
        value: U,
    ) -> (r: Result<(), AllocateError<U>>)
        requires
            old(self).wf(),
            value_layout.valid(),
        ensures
            final(self).wf(),
            final(self).current == old(self).current,
            *final(final(self).list) == *final(old(self).list),
            match r {
                Ok(_) => {
                    let k = place_after(old(self).list()@.len() as int, old(self).index());
                    let outcome = old(self).list().outcome(metadata.is_some(), value_layout@);
                    &&& outcome is Granted
                    &&& final(self).list()@ == old(self).list()@.insert(k, value)
                    &&& final(self).index() == old(self).index()
                    &&& final(self).list().spec_allocator() ==
                        old(self).list().spec_allocator().after_allocate(outcome->Granted_0)
                },
                Err(error) => {
                    &&& final(self).list() == old(self).list()
                    &&& error.spec_value() == value
                    &&& refused(
                        old(self).list().outcome(metadata.is_some(), value_layout@),
                        error.spec_layout(),
                    )
                },
            },
    {
        proof {
            lemma_step(self.list().order(), self.list().nodes(), self.current);
        }
        let mut node = match self.try_allocate_uninit_after(metadata, value_layout) {
            Ok(node) => node,
            Err(error) => {
                return Err(error.with_value(value));
            },
        };
        let ghost slot = node.node();
        node.write(value);
        node.insert();
        proof {
            if old(self).index() is Some {
                let at = old(self).index().unwrap();
                lemma_place_after_insert(old(self).list().order(), at + 1, slot, at);
            }
        }
        Ok(())
    }

    /// Removes the current node and hands it out with its value; the cursor
    /// moves to the element before it, or to the "ghost" element where there
    /// is none.
    ///
    /// If the cursor is pointing to the "ghost" element, this returns `None`
    /// and changes nothing.
    pub fn remove_current_node(&mut self) -> (r: Option<MaybeUninitNode<'_, U, A>>)
        requires
            old(self).wf(),
        ensures
            *final(final(self).list) == *final(old(self).list),
            match r {
                Some(node) => {
                    &&& old(self).index() is Some
                    &&& removed_at(old(self).list(), node, old(self).index().unwrap())
                    &&& final(self).current == node_at(
                        old(self).list().order(),
                        old(self).index().unwrap() - 1,
                    )
                    &&& final(self).list() == *final(node.list)
                },
                None => old(self).index() is None && final(self).current is None &&
                    final(self).list() == old(self).list(),
            },
    {
        proof {
            lemma_step(self.list().order(), self.list().nodes(), self.current);
        }
        match self.current {
            Some(node) => {
                self.current = self.list.header(node).previous;
                Some(self.list.remove_node(node))
            },
            None => None,
        }
    }

    /// Deletes and drops the current node; the cursor moves to the element
    /// before it, or to the "ghost" element where there is none.
    ///
    /// Returns `true` if a node was removed and `false` if the current
    /// element is the "ghost".
    pub fn delete_current(&mut self) -> (r: bool)
        requires
            old(self).wf(),
        ensures
            final(self).wf(),
            r == old(self).index().is_some(),
            r ==> {
                let at = old(self).index().unwrap();
                &&& final(self).list()@ == old(self).list()@.remove(at)
                &&& final(self).index() == place_after_removal(at)
                &&& final(self).list().spec_allocator() ==
                    old(self).list().spec_allocator().after_deallocate(
                    old(self).list().arena().node_layout(old(self).current.unwrap()),
                )
            },
            !r ==> final(self).list() == old(self).list() && final(self).current is None,
            *final(final(self).list) == *final(old(self).list),
    {
        proof {
            lemma_step(self.list().order(), self.list().nodes(), self.current);
        }
        match self.remove_current_node() {
            Some(mut node) => {
                node.drop_in_place();
                node.deallocate();
                proof {
                    let at = old(self).index().unwrap();
                    if at > 0 {
                        lemma_place_after_remove(old(self).list().order(), at, at - 1);
                    }
                }
                true
            },
            None => false,
        }
    }

    /// Attempts to remove the current node and return its value in a box;
    /// the cursor moves to the element before it, or to the "ghost" element
    /// where there is none. The box is asked of a copy of the list's
    /// allocator, with the layout of the value.
    ///
    /// If the cursor is pointing to the "ghost" element, this returns `None`.
    ///
    /// Where the allocator declines, the node is not removed and the cursor
    /// stays on it.
    pub fn try_remove_current_boxed(&mut self) -> (r: Option<Result<Box<U>, AllocateError>>) where
        A: Copy,
        requires
            old(self).wf(),
        ensures
            final(self).wf(),
            r is Some <==> old(self).index() is Some,
            r is None ==> final(self).list() == old(self).list() && final(self).current is None,
            r is Some ==> {
                let at = old(self).index().unwrap();
                let node = old(self).current.unwrap();
                let value_layout = old(self).list().nodes()[node].value_layout;
                match r->Some_0 {
                    Ok(value) => {
                        &&& old(self).list().spec_allocator().grants(value_layout@)
                        &&& *value == old(self).list()@[at]
                        &&& final(self).list()@ == old(self).list()@.remove(at)
                        &&& final(self).index() == place_after_removal(at)
                        &&& final(self).list().spec_allocator() ==
                            old(self).list().spec_allocator().after_deallocate(
                            old(self).list().arena().node_layout(old(self).current.unwrap()),
                        )
                    },
                    Err(error) => {
                        &&& !old(self).list().spec_allocator().grants(value_layout@)
                        &&& error.spec_layout() == Some(value_layout)
                        &&& final(self).list()@ == old(self).list()@
                        &&& final(self).list().order() == old(self).list().order()
                        &&& final(self).current == old(self).current
                        &&& final(self).list().spec_allocator() == old(self).list().spec_allocator()
                    },
                }
            },
            *final(final(self).list) == *final(old(self).list),
    {
        proof {
            lemma_step(self.list().order(), self.list().nodes(), self.current);
        }
        let current: NodePtr = match self.current {
            Some(current) => current,
            None => {
                return None;
            },
        };
        let value_layout: Layout = self.list.value_layout(current);
        let mut allocator: A = *self.list.allocator();
        proof {
            self.list().arena().lemma_node_has_layout(current);
        }
        match allocator.allocate(value_layout) {
            Ok(()) => {},
            Err(error) => {
                return Some(Err(AllocateError::new_alloc(error, value_layout)));
            },
        }
        match self.remove_current_node() {
            Some(node) => {
                let value = node.take_boxed();
                proof {
                    let at = old(self).index().unwrap();
                    if at > 0 {
                        lemma_place_after_remove(old(self).list().order(), at, at - 1);
                    }
                }
                Some(Ok(value))
            },
            None => None,
        }
    }

    /// Removes the current node and returns its value in a box; the cursor
    /// moves to the element before it, or to the "ghost" element where there
    /// is none.
    ///
    /// If the cursor is pointing to the "ghost" element, this returns `None`.
    ///
    /// The list's allocator must grant the layout of the value.
    pub fn remove_current_boxed(&mut self) -> (r: Option<Box<U>>) where A: Copy
        requires
            old(self).wf(),
            old(self).current is Some ==> old(self).list().spec_allocator().grants(
                old(self).list().nodes()[old(self).current.unwrap()].value_layout@,
            ),
        ensures
            final(self).wf(),
            r is Some <==> old(self).index() is Some,
            r is None ==> final(self).list() == old(self).list() && final(self).current is None,
            r is Some ==> {
                let at = old(self).index().unwrap();
                &&& *r->Some_0 == old(self).list()@[at]
                &&& final(self).list()@ == old(self).list()@.remove(at)
                &&& final(self).index() == place_after_removal(at)
                &&& final(self).list().spec_allocator() ==
                    old(self).list().spec_allocator().after_deallocate(
                    old(self).list().arena().node_layout(old(self).current.unwrap()),
                )
            },
            *final(final(self).list) == *final(old(self).list),
    {
        match self.try_remove_current_boxed() {
            Some(result) => Some(AllocateError::unwrap_result(result)),
            None => None,
        }
    }
}

impl<U, A: Allocator> DynList<U, A> {
    /// Creates a [`CursorMut`] at the front of the list that can mutate the list.
    ///
    /// If the list is empty, this will point to the "ghost" element.
    pub fn cursor_front_mut(&mut self) -> (r: CursorMut<'_, U, A>)
        requires
            old(self).wf(),
        ensures
            r.wf(),
            r.list() == *old(self),
            r.index() == spec_move_next(old(self)@.len() as int, None),
            *final(self) == *final(r.list),
    {
        proof {
            lemma_step(self.order(), self.nodes(), None);
        }
        CursorMut { current: self.front_node(), list: self }
    }

    /// Creates a [`CursorMut`] at the back of the list that can mutate the list.
    ///
    /// If the list is empty, this will point to the "ghost" element.
    pub fn cursor_back_mut(&mut self) -> (r: CursorMut<'_, U, A>)
        requires
            old(self).wf(),
        ensures
            r.wf(),
            r.list() == *old(self),
            r.index() == spec_move_previous(old(self)@.len() as int, None),
            *final(self) == *final(r.list),
    {
        proof {
            lemma_step(self.order(), self.nodes(), None);
        }
        CursorMut { current: self.back_node(), list: self }
    }
}

} // verus!
