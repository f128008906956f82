//! The list: the order of its nodes, its two ends, and the operations that
//! link a node in and out.

use crate::allocator::{Allocator, Global};
use crate::errors::AllocateError;
use crate::layout::{Layout, LayoutView};
use crate::node::{allocation_outcome, Arena, NodePtr, NodeView, Outcome};

pub use crate::links::{
    ends_of, fits, index_in, lemma_index_in, lemma_insert_linked, lemma_insert_no_duplicates,
    lemma_not_in, lemma_order_unique, lemma_slot_for, lemma_unlink_linked, linked, node_at, orders,
    relinked, same_payloads, slot_for, values_of, Header, Nodes,
};
use vstd::prelude::*;

verus! {

/// The first and the last node of a list that is not empty.
#[derive(Clone, Copy)]
struct Ends {
    front: NodePtr,
    back: NodePtr,
}

/// A doubly-linked list of values whose size is only known when a node is
/// made. The list owns its nodes; each is one block granted by the list's
/// allocator.
pub struct DynList<U, A: Allocator = Global> {
    ends: Option<Ends>,
    arena: Arena<Header, U, A>,
    order: Ghost<Seq<NodePtr>>,
}

impl<U, A: Allocator> View for DynList<U, A> {
    type V = Seq<U>;

    open spec fn view(&self) -> Seq<U> {
        values_of(self.nodes(), self.order())
    }
}

impl<U, A: Allocator> DynList<U, A> {
    /// The arena that holds the list's nodes, linked or not.
    pub closed spec fn arena(&self) -> Arena<Header, U, A> {
        self.arena
    }

    /// The names of the linked nodes, front to back.
    pub closed spec fn order(&self) -> Seq<NodePtr> {
        self.order@
    }

    /// The stored pair of ends: the first and the last node.
    pub closed spec fn spec_ends(&self) -> Option<(NodePtr, NodePtr)> {
        match self.ends {
            Some(ends) => Some((ends.front, ends.back)),
            None => None,
        }
    }

    /// The nodes of the list, by name: the linked ones and those that were
    /// made or taken out and are not linked.
    pub open spec fn nodes(&self) -> Nodes<U> {
        self.arena()@
    }

    /// The list's allocator.
    pub open spec fn spec_allocator(&self) -> A {
        self.arena().spec_allocator()
    }

    /// How a request for a node with a value of layout `value` ends at the
    /// list's allocator, as it stands.
    pub open spec fn outcome(&self, described: bool, value: LayoutView) -> Outcome {
        allocation_outcome::<Header, A>(self.spec_allocator(), described, value)
    }

    /// The list is in order: no node is linked twice, every linked node
    /// holds a value and names its neighbours, and the pair of ends is absent
    /// exactly when no node is linked, else it names the first and the last.
    pub open spec fn wf(&self) -> bool {
        &&& self.arena().wf()
        &&& self.order().no_duplicates()
        &&& linked(self.nodes(), self.order())
        &&& self.spec_ends() == if self.order().len() == 0 {
            None
        } else {
            Some((self.order()[0], self.order().last()))
        }
    }

    /// Node `p` is of this list, is not linked, holds a value, and its links
    /// fit the list as it stands.
    pub open spec fn insertable(&self, p: NodePtr) -> bool {
        &&& self.staged(p)
        &&& self.nodes()[p].value.is_some()
    }

    /// Node `p` is of this list, is not linked, and its links fit the list
    /// as it stands.
    pub open spec fn staged(&self, p: NodePtr) -> bool {
        &&& self.nodes().dom().contains(p)
        &&& !self.order().contains(p)
        &&& fits(self.order(), self.nodes()[p].header)
    }

    /// Creates an empty list in the given allocator.
    pub fn new_in(allocator: A) -> (r: Self)
        ensures
            r.wf(),
            r@ == Seq::<U>::empty(),
            r.order() == Seq::<NodePtr>::empty(),
            r.nodes() == Map::<NodePtr, NodeView<Header, U>>::empty(),
            r.spec_allocator() == allocator,
    {
        let r = DynList { ends: None, arena: Arena::new_in(allocator), order: Ghost(Seq::empty()) };
        proof {
            assert(r@ =~= Seq::<U>::empty());
        }
        r
    }

    /// Links node `node` into the list, at the place its links name: it
    /// becomes the `next` of its `previous`, the `previous` of its `next`, and
    /// an end of the list where it has no neighbour on that side.
    pub fn insert(&mut self, node: NodePtr)
        requires
            old(self).wf(),
            old(self).insertable(node),
        ensures
            final(self).wf(),
            final(self).order() == old(self).order().insert(
                slot_for(old(self).order(), old(self).nodes()[node].header),
                node,
            ),
            final(self)@ == old(self)@.insert(
                slot_for(old(self).order(), old(self).nodes()[node].header),
                old(self).nodes()[node].value.unwrap(),
            ),
            same_payloads(final(self).nodes(), old(self).nodes()),
            final(self).nodes()[node].header == old(self).nodes()[node].header,
            final(self).spec_allocator() == old(self).spec_allocator(),
    {
        let header: Header = *self.arena.header(node);
        let ghost order = self.order@;
        let ghost k = slot_for(order, header);
        self.relink(header.previous, Some(node), header.next, Some(node));
        match self.ends {
            Some(ends) => {
                match (header.previous, header.next) {
                    (Some(_), Some(_)) => {},
                    (Some(_), None) => {
                        self.ends = Some(Ends { front: ends.front, back: node });
                    },
                    (None, Some(_)) => {
                        self.ends = Some(Ends { front: node, back: ends.back });
                    },
                    (None, None) => {
                        assert(false);
                    },
                }
            },
            None => {
                self.ends = Some(Ends { front: node, back: node });
            },
        }
        self.order = Ghost(order.insert(k, node));
        proof {
            lemma_insert_no_duplicates(order, k, node);
            lemma_insert_linked(old(self).nodes(), self.nodes(), order, k, node);
            let grown = order.insert(k, node);
            assert(grown[k] == node);
            if k > 0 {
                assert(grown[0] == order[0]);
            }
            if k < order.len() {
                assert(grown[grown.len() - 1] == order[order.len() - 1]);
            }
        }
    }

    /// Changes two links: the node `a`, if there is one, gets `a_next` as its
    /// `next`, and the node `b`, if there is one, gets `b_previous` as its
    /// `previous`.
    fn relink(
        &mut self,
        a: Option<NodePtr>,
        a_next: Option<NodePtr>,
        b: Option<NodePtr>,
        b_previous: Option<NodePtr>,
    )
        requires
            old(self).arena().wf(),
            a is Some ==> old(self).nodes().dom().contains(a->Some_0),
            b is Some ==> old(self).nodes().dom().contains(b->Some_0),
        ensures
            final(self).arena().wf(),
            relinked(old(self).nodes(), final(self).nodes(), a, a_next, b, b_previous),
            final(self).order() == old(self).order(),
            final(self).spec_ends() == old(self).spec_ends(),
            final(self).spec_allocator() == old(self).spec_allocator(),
    {
        if let Some(a) = a {
            let links: Header = *self.arena.header(a);
            self.arena.set_header(a, Header { next: a_next, previous: links.previous });
        }
        if let Some(b) = b {
            let links: Header = *self.arena.header(b);
            self.arena.set_header(b, Header { next: links.next, previous: b_previous });
        }
        proof {
            assert(final(self).nodes().dom() =~= old(self).nodes().dom());
        }
    }

    /// Takes node `node` out of the list: its neighbours are linked to each
    /// other, and an end that was `node` moves to the neighbour. The node
    /// keeps its value and its links, so that it fits where it stood.
    pub fn unlink(&mut self, node: NodePtr)
        requires
            old(self).wf(),
            old(self).order().contains(node),
        ensures
            final(self).wf(),
            final(self).order() == old(self).order().remove(index_in(old(self).order(), node)),
            final(self)@ == old(self)@.remove(index_in(old(self).order(), node)),
            same_payloads(final(self).nodes(), old(self).nodes()),
            final(self).nodes()[node].header == old(self).nodes()[node].header,
            final(self).insertable(node),
            slot_for(final(self).order(), final(self).nodes()[node].header) == index_in(
                old(self).order(),
                node,
            ),
            final(self).spec_allocator() == old(self).spec_allocator(),
    {
        let ghost order = self.order@;
        let ghost k = index_in(order, node);
        proof {
            assert(order[k] == node);
            assert(self.nodes().dom().contains(order[k]));
            if k + 1 < order.len() {
                assert(self.nodes().dom().contains(order[k + 1]));
            }
            if k > 0 {
                assert(self.nodes().dom().contains(order[k - 1]));
            }
        }
        let header: Header = *self.arena.header(node);
        self.relink(header.previous, header.next, header.next, header.previous);
        match self.ends {
            Some(ends) => {
                match (header.next, header.previous) {
                    (Some(_), Some(_)) => {},
                    (None, Some(previous)) => {
                        self.ends = Some(Ends { front: ends.front, back: previous });
                    },
                    (Some(next), None) => {
                        self.ends = Some(Ends { front: next, back: ends.back });
                    },
                    (None, None) => {
                        self.ends = None;
                    },
                }
            },
            None => {
                assert(false);
            },
        }
        self.order = Ghost(order.remove(k));
        proof {
            lemma_unlink_linked(old(self).nodes(), self.nodes(), order, k);
            let rest = order.remove(k);
            if k > 0 {
                assert(rest[0] == order[0]);
            } else if rest.len() > 0 {
                assert(rest[0] == order[1]);
            }
            if k < order.len() - 1 {
                assert(rest[rest.len() - 1] == order[order.len() - 1]);
            } else if rest.len() > 0 {
                assert(rest[rest.len() - 1] == order[order.len() - 2]);
            }
        }
    }

    /// Attempts to make a node with links `header` for a value of layout
    /// `value_layout`. The node is of the list and not linked; its value is
    /// not written. On failure the list is as it was.
    pub fn try_allocate_node(
        &mut self,
        header: Header,
        metadata: Option<usize>,
        value_layout: Layout,
    ) -> (r: Result<NodePtr, AllocateError>)
        requires
            old(self).wf(),
            value_layout.valid(),
            fits(old(self).order(), header),
        ensures
            final(self).wf(),
            final(self).order() == old(self).order(),
            final(self)@ == old(self)@,
            match old(self).outcome(metadata.is_some(), value_layout@) {
                Outcome::Overflow => r is Err && r->Err_0.spec_layout().is_none() && *final(self)
                    == *old(self),
                Outcome::Denied(layout) => r is Err && r->Err_0.spec_layout().is_some()
                    && r->Err_0.spec_layout().unwrap()@ == layout && *final(self) == *old(self),
                Outcome::Granted(layout) => r is Ok && !old(self).nodes().dom().contains(r->Ok_0)
                    && final(self).staged(r->Ok_0) &&
                        final(self).nodes() == old(self).nodes().insert(
                    r->Ok_0,
                    NodeView { header, metadata, value_layout, value: None },
                ) && final(self).spec_allocator() == old(self).spec_allocator().after_allocate(
                    layout,
                ),
            },
    {
        let r = NodePtr::try_allocate_with_layout_in(
            header,
            metadata,
            value_layout,
            &mut self.arena,
        );
        proof {
            if r is Ok {
                let p = r->Ok_0;
                if self.order@.contains(p) {
                    let i = choose|i: int| 0 <= i < self.order@.len() && self.order@[i] == p;
                    assert(old(self).nodes().dom().contains(self.order@[i]));
                }
                assert(final(self)@ =~= old(self)@);
            }
        }
        r
    }

    /// Gives an unlinked node back to the allocator. The value in it, if one
    /// was written, goes with it.
    pub fn deallocate(&mut self, node: NodePtr)
        requires
            old(self).wf(),
            old(self).nodes().dom().contains(node),
            !old(self).order().contains(node),
        ensures
            final(self).wf(),
            final(self).order() == old(self).order(),
            final(self)@ == old(self)@,
            final(self).nodes() == old(self).nodes().remove(node),
            final(self).spec_allocator() == old(self).spec_allocator().after_deallocate(
                old(self).arena().node_layout(node),
            ),
    {
        node.deallocate(&mut self.arena);
        proof {
            assert forall|i: int| 0 <= i < self.order@.len() implies self.order@[i] != node by {
                if self.order@[i] == node {
                    assert(self.order@.contains(node));
                }
            }
            assert(final(self)@ =~= old(self)@);
        }
    }

    /// Gets the list's allocator.
    pub fn allocator(&self) -> (r: &A)
        ensures
            *r == self.spec_allocator(),
    {
        self.arena.allocator()
    }

    /// Gets the first node of the list.
    pub fn front_node(&self) -> (r: Option<NodePtr>)
        requires
            self.wf(),
        ensures
            r == node_at(self.order(), 0),
    {
        match self.ends {
            Some(ends) => Some(ends.front),
            None => None,
        }
    }

    /// Gets the last node of the list.
    pub fn back_node(&self) -> (r: Option<NodePtr>)
        requires
            self.wf(),
        ensures
            r == node_at(self.order(), self.order().len() - 1),
    {
        match self.ends {
            Some(ends) => Some(ends.back),
            None => None,
        }
    }

    /// Gets the links of a node of the list.
    pub fn header(&self, node: NodePtr) -> (r: Header)
        requires
            self.nodes().dom().contains(node),
        ensures
            r == self.nodes()[node].header,
    {
        *self.arena.header(node)
    }

    /// Gets the descriptor of a node of the list.
    pub fn metadata(&self, node: NodePtr) -> (r: Option<usize>)
        requires
            self.nodes().dom().contains(node),
        ensures
            r == self.nodes()[node].metadata,
    {
        self.arena.metadata(node)
    }

    /// Gets the layout of the value of a node of the list.
    pub fn value_layout(&self, node: NodePtr) -> (r: Layout)
        requires
            self.nodes().dom().contains(node),
        ensures
            r == self.nodes()[node].value_layout,
    {
        self.arena.value_layout(node)
    }

    /// Gets the value of a node of the list, if it has been written.
    pub fn value(&self, node: NodePtr) -> (r: Option<&U>)
        requires
            self.nodes().dom().contains(node),
        ensures
            r.is_some() == self.nodes()[node].value.is_some(),
            r.is_some() ==> *r.unwrap() == self.nodes()[node].value.unwrap(),
    {
        self.arena.value(node)
    }

    /// Writes the value of an unlinked node and hands back what was there.
    pub fn write(&mut self, node: NodePtr, value: U) -> (r: Option<U>)
        requires
            old(self).wf(),
            old(self).staged(node),
        ensures
            r == old(self).nodes()[node].value,
            final(self).wf(),
            final(self).insertable(node),
            final(self).order() == old(self).order(),
            final(self)@ == old(self)@,
            final(self).nodes() == old(self).nodes().insert(
                node,
                NodeView {
                    header: old(self).nodes()[node].header,
                    metadata: old(self).nodes()[node].metadata,
                    value_layout: old(self).nodes()[node].value_layout,
                    value: Some(value),
                },
            ),
            final(self).spec_allocator() == old(self).spec_allocator(),
    {
        let r = self.arena.write(node, value);
        proof {
            lemma_not_in(self.order@, node);
            assert(final(self)@ =~= old(self)@);
        }
        r
    }

    /// Takes the value out of an unlinked node; the node stays, unwritten.
    pub fn take(&mut self, node: NodePtr) -> (r: Option<U>)
        requires
            old(self).wf(),
            old(self).staged(node),
        ensures
            r == old(self).nodes()[node].value,
            final(self).wf(),
            final(self).staged(node),
            final(self).order() == old(self).order(),
            final(self)@ == old(self)@,
            final(self).nodes() == old(self).nodes().insert(
                node,
                NodeView {
                    header: old(self).nodes()[node].header,
                    metadata: old(self).nodes()[node].metadata,
                    value_layout: old(self).nodes()[node].value_layout,
                    value: None,
                },
            ),
            final(self).spec_allocator() == old(self).spec_allocator(),
    {
        let r = self.arena.take(node);
        proof {
            lemma_not_in(self.order@, node);
            assert(final(self)@ =~= old(self)@);
        }
        r
    }

    /// Gets a reference to the element at the front of the list.
    ///
    /// If the list is empty, this returns `None`.
    pub fn front(&self) -> (r: Option<&U>)
        requires
            self.wf(),
        ensures
            r.is_some() == (self@.len() > 0),
            r.is_some() ==> *r.unwrap() == self@[0],
    {
        match self.ends {
            Some(ends) => {
                assert(ends.front == self.order@[0]);
                self.arena.value(ends.front)
            },
            None => None,
        }
    }

    /// Gets a reference to the element at the back of the list.
    ///
    /// If the list is empty, this returns `None`.
    pub fn back(&self) -> (r: Option<&U>)
        requires
            self.wf(),
        ensures
            r.is_some() == (self@.len() > 0),
            r.is_some() ==> *r.unwrap() == self@.last(),
    {
        match self.ends {
            Some(ends) => {
                assert(ends.back == self.order@[self.order@.len() - 1]);
                self.arena.value(ends.back)
            },
            None => None,
        }
    }

    /// Gets the value of a linked node for writing.
    pub fn value_mut(&mut self, node: NodePtr) -> (r: Option<&mut U>)
        requires
            old(self).wf(),
            old(self).order().contains(node),
        ensures
            r.is_some(),
            *r.unwrap() == old(self)@[index_in(old(self).order(), node)],
            final(self).wf(),
            final(self).order() == old(self).order(),
            final(self)@ =~= old(self)@.update(
                index_in(old(self).order(), node),
                *final(r.unwrap()),
            ),
            final(self).spec_allocator() == old(self).spec_allocator(),
    {
        proof {
            let k = index_in(self.order(), node);
            assert(self.order()[k] == node);
            assert(self.nodes().dom().contains(self.order()[k]));
        }
        self.arena.value_mut(node)
    }

    /// Gets the value of an unlinked node for writing, if it has been
    /// written.
    pub fn staged_value_mut(&mut self, node: NodePtr) -> (r: Option<&mut U>)
        requires
            old(self).wf(),
            old(self).staged(node),
        ensures
            r.is_some() == old(self).nodes()[node].value.is_some(),
            r.is_some() ==> *r.unwrap() == old(self).nodes()[node].value.unwrap(),
            final(self).wf(),
            final(self).staged(node),
            final(self).order() == old(self).order(),
            final(self)@ =~= old(self)@,
            r.is_some() ==> final(self).nodes() =~= old(self).nodes().insert(
                node,
                NodeView {
                    header: old(self).nodes()[node].header,
                    metadata: old(self).nodes()[node].metadata,
                    value_layout: old(self).nodes()[node].value_layout,
                    value: Some(*final(r.unwrap())),
                },
            ),
            r.is_none() ==> final(self).nodes() =~= old(self).nodes(),
            final(self).spec_allocator() == old(self).spec_allocator(),
    {
        proof {
            lemma_not_in(self.order(), node);
        }
        self.arena.value_mut(node)
    }

    /// Gets a mutable reference to the element at the front of the list.
    ///
    /// If the list is empty, this returns `None`.
    pub fn front_mut(&mut self) -> (r: Option<&mut U>)
        requires
            old(self).wf(),
        ensures
            r.is_some() == (old(self)@.len() > 0),
            r.is_some() ==> *r.unwrap() == old(self)@[0],
            final(self).wf(),
            final(self).order() == old(self).order(),
            r.is_some() ==> final(self)@ =~= old(self)@.update(0, *final(r.unwrap())),
            r.is_none() ==> final(self)@ =~= old(self)@,
            final(self).spec_allocator() == old(self).spec_allocator(),
    {
        match self.ends {
            Some(ends) => {
                proof {
                    assert(self.order()[0] == ends.front);
                    lemma_index_in(self.order(), 0);
                }
                self.value_mut(ends.front)
            },
            None => None,
        }
    }

    /// Gets a mutable reference to the element at the back of the list.
    ///
    /// If the list is empty, this returns `None`.
    pub fn back_mut(&mut self) -> (r: Option<&mut U>)
        requires
            old(self).wf(),
        ensures
            r.is_some() == (old(self)@.len() > 0),
            r.is_some() ==> *r.unwrap() == old(self)@.last(),
            final(self).wf(),
            final(self).order() == old(self).order(),
            r.is_some() ==> final(self)@ =~= old(self)@.update(
                old(self)@.len() - 1,
                *final(r.unwrap()),
            ),
            r.is_none() ==> final(self)@ =~= old(self)@,
            final(self).spec_allocator() == old(self).spec_allocator(),
    {
        match self.ends {
            Some(ends) => {
                proof {
                    assert(self.order()[self.order().len() - 1] == ends.back);
                    lemma_index_in(self.order(), self.order().len() - 1);
                }
                self.value_mut(ends.back)
            },
            None => None,
        }
    }
}

impl<U, A: Allocator> DynList<U, A> {
    /// Turns each value of the list into what `f` makes of it. The nodes
    /// keep their names, their order and their layouts.
    pub fn convert<V, F: Fn(U) -> V>(self, f: F) -> (r: DynList<V, A>)
        requires
            self.wf(),
            forall|p: NodePtr|
                self.nodes().dom().contains(p) && (#[trigger] self.nodes()[p]).value is Some
                    ==> f.requires((self.nodes()[p].value->Some_0,)),
        ensures
            r.wf(),
            r.order() == self.order(),
            r.spec_allocator() == self.spec_allocator(),
            r@.len() == self@.len(),
            forall|i: int| 0 <= i < self@.len() ==> f.ensures((self@[i],), #[trigger] r@[i]),
            r.node_layouts_agree(self),
    {
        let DynList { ends, arena, order } = self;
        let arena = arena.convert(f);
        let r = DynList { ends, arena, order };
        proof {
            assert forall|i: int| 0 <= i < r.order().len() implies {
                &&& r.nodes().dom().contains(#[trigger] r.order()[i])
                &&& r.nodes()[r.order()[i]].value.is_some()
                &&& r.nodes()[r.order()[i]].header.next == node_at(r.order(), i + 1)
                &&& r.nodes()[r.order()[i]].header.previous == node_at(r.order(), i - 1)
            } by {
                assert(self.nodes().dom().contains(self.order()[i]));
            }
            assert forall|i: int| 0 <= i < self@.len() implies f.ensures(
                (self@[i],),
                #[trigger] r@[i],
            ) by {
                assert(self.nodes().dom().contains(self.order()[i]));
            }
        }
        r
    }

    /// The nodes of this list are those of `other`, with the same descriptors
    /// and the same layouts.
    pub open spec fn node_layouts_agree<V>(&self, other: DynList<V, A>) -> bool {
        &&& self.nodes().dom() == other.nodes().dom()
        &&& forall|p: NodePtr|
            self.nodes().dom().contains(p) ==> (#[trigger] self.nodes()[p]).metadata
                == other.nodes()[p].metadata && self.nodes()[p].value_layout
                == other.nodes()[p].value_layout
    }
}

impl<U, A: Allocator> DynList<U, A> {
    /// Decomposes the list into its pair of ends, if it is not empty, and
    /// the arena that holds its nodes.
    pub fn into_raw_parts(self) -> (r: (Option<(NodePtr, NodePtr)>, Arena<Header, U, A>))
        requires
            self.wf(),
        ensures
            r.0 == self.spec_ends(),
            r.1 == self.arena(),
            r.1.wf(),
            orders(r.1@, r.0, self.order()),
    {
        let DynList { ends, arena, order } = self;
        let pair = match ends {
            Some(ends) => Some((ends.front, ends.back)),
            None => None,
        };
        (pair, arena)
    }

    /// Creates a list from a pair of ends, if it is not to be empty, and the
    /// arena that holds its nodes.
    ///
    /// The nodes of the arena must be linked in some order between the ends,
    /// as what [`Self::into_raw_parts`] hands out is.
    pub fn from_raw_parts(ends: Option<(NodePtr, NodePtr)>, arena: Arena<Header, U, A>) -> (r: Self)
        requires
            arena.wf(),
            exists|order: Seq<NodePtr>| orders(arena@, ends, order),
        ensures
            r.wf(),
            r.arena() == arena,
            r.spec_ends() == ends,
            orders(arena@, ends, r.order()),
    {
        let ghost order = choose|order: Seq<NodePtr>| orders(arena@, ends, order);
        let ends = match ends {
            Some((front, back)) => Some(Ends { front, back }),
            None => None,
        };
        DynList { ends, arena, order: Ghost(order) }
    }
}

/// A list that is taken apart and put together again is the list it was.
pub proof fn lemma_raw_parts_round_trip<U, A: Allocator>(
    before: DynList<U, A>,
    after: DynList<U, A>,
)
    requires
        before.wf(),
        after.wf(),
        after.arena() == before.arena(),
        after.spec_ends() == before.spec_ends(),
    ensures
        after.order() == before.order(),
        after@ == before@,
{
    lemma_order_unique(before.nodes(), before.spec_ends(), before.order(), after.order());
}

impl<U> DynList<U, Global> {
    /// Creates an empty [`DynList`].
    pub fn new() -> (r: Self)
        ensures
            r.wf(),
            r@ == Seq::<U>::empty(),
            r.order() == Seq::<NodePtr>::empty(),
            r.nodes() == Map::<NodePtr, NodeView<Header, U>>::empty(),
            r.spec_allocator() == Global,
    {
        Self::new_in(Global)
    }
}

impl<U> Default for DynList<U, Global> {
    fn default() -> (r: Self)
        ensures
            r.wf(),
            r@ == Seq::<U>::empty(),
    {
        Self::new()
    }
}

} // verus!
