//! Walking a list from either end.

use crate::allocator::{Allocator, Global};
use crate::cursor::cursor::lemma_step;
use crate::list::{index_in, lemma_index_in, linked, values_of, DynList, Nodes};
use crate::node::NodePtr;
use vstd::prelude::*;

verus! {

/// The nodes of `order` from the node `front` to the node `back`, both
/// included; none where the pair is absent.
pub open spec fn span(order: Seq<NodePtr>, ends: Option<(NodePtr, NodePtr)>) -> Seq<NodePtr> {
    match ends {
        Some((front, back)) => order.subrange(index_in(order, front), index_in(order, back) + 1),
        None => Seq::<NodePtr>::empty(),
    }
}

/// The pair names two nodes of `order`, the first not behind the second.
pub open spec fn spans(order: Seq<NodePtr>, ends: Option<(NodePtr, NodePtr)>) -> bool {
    match ends {
        Some((front, back)) => order.contains(front) && order.contains(back) && index_in(
            order,
            front,
        ) <= index_in(order, back),
        None => true,
    }
}

/// The sequence without its first item; the empty sequence where it has none.
pub open spec fn rest_front<T>(s: Seq<T>) -> Seq<T> {
    if s.len() > 0 {
        s.drop_first()
    } else {
        s
    }
}

/// The sequence without its last item; the empty sequence where it has none.
pub open spec fn rest_back<T>(s: Seq<T>) -> Seq<T> {
    if s.len() > 0 {
        s.drop_last()
    } else {
        s
    }
}

/// A walk over the nodes of a list that have not been visited yet: those
/// from `front` to `back`.
pub struct RawIter {
    /// The first and the last node still to visit; `None` when none is left.
    pub ends: Option<(NodePtr, NodePtr)>,
}

impl RawIter {
    /// A walk over all the nodes of `list`.
    pub fn from_list<U, A: Allocator>(list: &DynList<U, A>) -> (r: Self)
        requires
            list.wf(),
        ensures
            spans(list.order(), r.ends),
            span(list.order(), r.ends) == list.order(),
    {
        proof {
            lemma_step(list.order(), list.nodes(), None);
        }
        let r = match (list.front_node(), list.back_node()) {
            (Some(front), Some(back)) => RawIter { ends: Some((front, back)) },
            _ => RawIter { ends: None },
        };
        proof {
            if list.order().len() > 0 {
                assert(list.order()[0] == r.ends.unwrap().0);
                assert(list.order()[list.order().len() - 1] == r.ends.unwrap().1);
            }
            assert(span(list.order(), r.ends) =~= list.order());
        }
        r
    }

    /// Visits the first node that is left.
    pub fn next<U, A: Allocator>(&mut self, list: &DynList<U, A>) -> (r: Option<NodePtr>)
        requires
            list.wf(),
            spans(list.order(), old(self).ends),
        ensures
            spans(list.order(), final(self).ends),
            r is Some <==> span(list.order(), old(self).ends).len() > 0,
            r is Some ==>
                r->Some_0 == span(list.order(), old(self).ends)[0] && list.order().contains(
                r->Some_0,
            ),
            span(list.order(), final(self).ends) == rest_front(span(list.order(), old(self).ends)),
    {
        let (front, back) = match self.ends {
            Some(ends) => ends,
            None => {
                proof {
                    assert(span(list.order(), final(self).ends) =~= rest_front(
                        span(list.order(), old(self).ends),
                    ));
                }
                return None;
            },
        };
        proof {
            lemma_step(list.order(), list.nodes(), Some(front));
            lemma_step(list.order(), list.nodes(), Some(back));
        }
        if front.same(back) {
            self.ends = None;
        } else {
            match list.header(front).next {
                Some(next) => {
                    self.ends = Some((next, back));
                },
                None => {
                    assert(false);
                },
            }
        }
        proof {
            assert(span(list.order(), final(self).ends) =~= rest_front(
                span(list.order(), old(self).ends),
            ));
        }
        Some(front)
    }

    /// Visits the last node that is left.
    pub fn next_back<U, A: Allocator>(&mut self, list: &DynList<U, A>) -> (r: Option<NodePtr>)
        requires
            list.wf(),
            spans(list.order(), old(self).ends),
        ensures
            spans(list.order(), final(self).ends),
            r is Some <==> span(list.order(), old(self).ends).len() > 0,
            r is Some ==> r->Some_0 == span(list.order(), old(self).ends).last()
                && list.order().contains(r->Some_0),
            span(list.order(), final(self).ends) == rest_back(span(list.order(), old(self).ends)),
    {
        let (front, back) = match self.ends {
            Some(ends) => ends,
            None => {
                proof {
                    assert(span(list.order(), final(self).ends) =~= rest_back(
                        span(list.order(), old(self).ends),
                    ));
                }
                return None;
            },
        };
        proof {
            lemma_step(list.order(), list.nodes(), Some(front));
            lemma_step(list.order(), list.nodes(), Some(back));
        }
        if back.same(front) {
            self.ends = None;
        } else {
            match list.header(back).previous {
                Some(previous) => {
                    self.ends = Some((front, previous));
                },
                None => {
                    assert(false);
                },
            }
        }
        proof {
            assert(span(list.order(), final(self).ends) =~= rest_back(
                span(list.order(), old(self).ends),
            ));
        }
        Some(back)
    }
}

/// The values of the nodes of a span of a list in order: those of the list's
/// values that stand at the places of the span.
pub proof fn lemma_span_values<U>(
    nodes: Nodes<U>,
    order: Seq<NodePtr>,
    ends: Option<(NodePtr, NodePtr)>,
)
    requires
        order.no_duplicates(),
        linked(nodes, order),
        spans(order, ends),
    ensures
        ends is Some ==> {
            let lo = index_in(order, ends->Some_0.0);
            let hi = index_in(order, ends->Some_0.1);
            &&& 0 <= lo <= hi < order.len()
            &&& values_of(nodes, span(order, ends)) == values_of(nodes, order).subrange(lo, hi + 1)
        },
        ends is None ==> values_of(nodes, span(order, ends)) == Seq::<U>::empty(),
{
    if ends is Some {
        lemma_step(order, nodes, Some(ends->Some_0.0));
        lemma_step(order, nodes, Some(ends->Some_0.1));
        let lo = index_in(order, ends->Some_0.0);
        let hi = index_in(order, ends->Some_0.1);
        assert(values_of(nodes, span(order, ends)) =~= values_of(nodes, order).subrange(
            lo,
            hi + 1,
        ));
    } else {
        assert(values_of(nodes, span(order, ends)) =~= Seq::<U>::empty());
    }
}

/// An iterator over references to the values of a list.
pub struct Iter<'a, U, A: Allocator = Global> {
    /// The nodes still to visit.
    pub raw: RawIter,
    /// The list that is walked.
    pub list: &'a DynList<U, A>,
}

impl<'a, U, A: Allocator> View for Iter<'a, U, A> {
    type V = Seq<U>;

    /// The values still to visit, front to back.
    open spec fn view(&self) -> Seq<U> {
        values_of(self.list.nodes(), span(self.list.order(), self.raw.ends))
    }
}

impl<'a, U, A: Allocator> Iter<'a, U, A> {
    /// The list is in order and the iterator is over a span of it.
    pub open spec fn wf(&self) -> bool {
        &&& self.list.wf()
        &&& spans(self.list.order(), self.raw.ends)
    }

    /// An iterator over all the values of `list`.
    pub fn new(list: &'a DynList<U, A>) -> (r: Self)
        requires
            list.wf(),
        ensures
            r.wf(),
            r.list == list,
            r@ == list@,
    {
        Iter { raw: RawIter::from_list(list), list }
    }

    /// The first value that is left, if any.
    pub fn next(&mut self) -> (r: Option<&'a U>)
        requires
            old(self).wf(),
        ensures
            final(self).wf(),
            final(self).list == old(self).list,
            r is Some <==> old(self)@.len() > 0,
            r is Some ==> *r->Some_0 == old(self)@[0],
            final(self)@ == rest_front(old(self)@),
    {
        let r = match self.raw.next(self.list) {
            Some(node) => {
                proof {
                    lemma_step(self.list.order(), self.list.nodes(), Some(node));
                }
                self.list.value(node)
            },
            None => None,
        };
        proof {
            assert(final(self)@ =~= rest_front(old(self)@));
        }
        r
    }

    /// The last value that is left, if any.
    pub fn next_back(&mut self) -> (r: Option<&'a U>)
        requires
            old(self).wf(),
        ensures
            final(self).wf(),
            final(self).list == old(self).list,
            r is Some <==> old(self)@.len() > 0,
            r is Some ==> *r->Some_0 == old(self)@.last(),
            final(self)@ == rest_back(old(self)@),
    {
        let r = match self.raw.next_back(self.list) {
            Some(node) => {
                proof {
                    lemma_step(self.list.order(), self.list.nodes(), Some(node));
                }
                self.list.value(node)
            },
            None => None,
        };
        proof {
            assert(final(self)@ =~= rest_back(old(self)@));
        }
        r
    }
}

/// An iterator that takes the values out of a list.
pub struct IntoIter<T, A: Allocator = Global> {
    /// The values that are left.
    pub list: DynList<T, A>,
}

impl<T, A: Allocator> View for IntoIter<T, A> {
    type V = Seq<T>;

    /// The values that are left, front to back.
    open spec fn view(&self) -> Seq<T> {
        self.list@
    }
}

impl<T, A: Allocator> IntoIter<T, A> {
    /// An iterator that takes the values out of `list`.
    pub fn new(list: DynList<T, A>) -> (r: Self)
        ensures
            r.list == list,
    {
        IntoIter { list }
    }

    /// Gets the list of the values that are left.
    pub fn remainder(&self) -> (r: &DynList<T, A>)
        ensures
            *r == self.list,
    {
        &self.list
    }

    /// Ends the iteration and hands back the list of the values that are left.
    pub fn take_remainder(self) -> (r: DynList<T, A>)
        ensures
            r == self.list,
    {
        self.list
    }

    /// Takes the first value that is left, if any.
    pub fn next(&mut self) -> (r: Option<T>)
        requires
            old(self).list.wf(),
        ensures
            final(self).list.wf(),
            (r, final(self)@) == crate::sized::spec_pop_front(old(self)@),
    {
        self.list.pop_front()
    }

    /// Takes the last value that is left, if any.
    pub fn next_back(&mut self) -> (r: Option<T>)
        requires
            old(self).list.wf(),
        ensures
            final(self).list.wf(),
            (r, final(self)@) == crate::sized::spec_pop_back(old(self)@),
    {
        self.list.pop_back()
    }
}

/// An iterator over mutable references to the values of a list. A reference
/// that it hands out lasts until the iterator is used again.
pub struct IterMut<'a, U, A: Allocator = Global> {
    /// The nodes still to visit.
    pub raw: RawIter,
    /// The list that is walked.
    pub list: &'a mut DynList<U, A>,
}

impl<'a, U, A: Allocator> View for IterMut<'a, U, A> {
    type V = Seq<U>;

    /// The values still to visit, front to back.
    open spec fn view(&self) -> Seq<U> {
        values_of(self.list.nodes(), span(self.list.order(), self.raw.ends))
    }
}

impl<'a, U, A: Allocator> IterMut<'a, U, A> {
    /// The list that is walked, as it stands.
    pub open spec fn list(&self) -> DynList<U, A> {
        *self.list
    }

    /// The list is in order and the iterator is over a span of it.
    pub open spec fn wf(&self) -> bool {
        &&& self.list().wf()
        &&& spans(self.list().order(), self.raw.ends)
    }

    /// The place in the list of the first value still to visit.
    pub open spec fn front_index(&self) -> int {
        index_in(self.list().order(), self.raw.ends->Some_0.0)
    }

    /// The place in the list of the last value still to visit.
    pub open spec fn back_index(&self) -> int {
        index_in(self.list().order(), self.raw.ends->Some_0.1)
    }

    /// An iterator over all the values of `list`.
    pub fn new(list: &'a mut DynList<U, A>) -> (r: Self)
        requires
            old(list).wf(),
        ensures
            r.wf(),
            r.list() == *old(list),
            r@ == old(list)@,
            *final(list) == *final(r.list),
    {
        let raw = RawIter::from_list(&*list);
        IterMut { raw, list }
    }

    /// The first value that is left, if any, for writing.
    pub fn next(&mut self) -> (r: Option<&mut U>)
        requires
            old(self).wf(),
        ensures
            r is Some <==> old(self)@.len() > 0,
            r is Some ==> *r->Some_0 == old(self)@[0],
            final(self).list().wf(),
            final(self).list().order() == old(self).list().order(),
            spans(old(self).list().order(), final(self).raw.ends),
            span(old(self).list().order(), final(self).raw.ends) == rest_front(
                span(old(self).list().order(), old(self).raw.ends),
            ),
            r is Some ==> final(self).list()@ =~= old(self).list()@.update(
                old(self).front_index(),
                *final(r->Some_0),
            ),
            r is None ==> final(self).list()@ =~= old(self).list()@,
            final(self).list().spec_allocator() == old(self).list().spec_allocator(),
            *final(final(self).list) == *final(old(self).list),
    {
        proof {
            lemma_span_values(self.list().nodes(), self.list().order(), self.raw.ends);
        }
        match self.raw.next(&*self.list) {
            Some(node) => self.list.value_mut(node),
            None => None,
        }
    }

    /// The last value that is left, if any, for writing.
    pub fn next_back(&mut self) -> (r: Option<&mut U>)
        requires
            old(self).wf(),
        ensures
            r is Some <==> old(self)@.len() > 0,
            r is Some ==> *r->Some_0 == old(self)@.last(),
            final(self).list().wf(),
            final(self).list().order() == old(self).list().order(),
            spans(old(self).list().order(), final(self).raw.ends),
            span(old(self).list().order(), final(self).raw.ends) == rest_back(
                span(old(self).list().order(), old(self).raw.ends),
            ),
            r is Some ==> final(self).list()@ =~= old(self).list()@.update(
                old(self).back_index(),
                *final(r->Some_0),
            ),
            r is None ==> final(self).list()@ =~= old(self).list()@,
            final(self).list().spec_allocator() == old(self).list().spec_allocator(),
            *final(final(self).list) == *final(old(self).list),
    {
        proof {
            lemma_span_values(self.list().nodes(), self.list().order(), self.raw.ends);
        }
        match self.raw.next_back(&*self.list) {
            Some(node) => self.list.value_mut(node),
            None => None,
        }
    }
}

/// An iterator that takes the values out of a list, each in a box.
pub struct IntoIterBoxed<U, A: Allocator = Global> {
    /// The values that are left.
    pub list: DynList<U, A>,
}

impl<U, A: Allocator> View for IntoIterBoxed<U, A> {
    type V = Seq<U>;

    /// The values that are left, front to back.
    open spec fn view(&self) -> Seq<U> {
        self.list@
    }
}

impl<U, A: Allocator> IntoIterBoxed<U, A> {
    /// An iterator that takes the values out of `list`.
    pub fn new(list: DynList<U, A>) -> (r: Self)
        ensures
            r.list == list,
    {
        IntoIterBoxed { list }
    }

    /// Gets the list of the values that are left.
    pub fn remainder(&self) -> (r: &DynList<U, A>)
        ensures
            *r == self.list,
    {
        &self.list
    }

    /// Ends the iteration and hands back the list of the values that are left.
    pub fn take_remainder(self) -> (r: DynList<U, A>)
        ensures
            r == self.list,
    {
        self.list
    }

    /// Takes the first value that is left, if any, in a box.
    ///
    /// The list's allocator must grant the layout of the value.
    pub fn next(&mut self) -> (r: Option<Box<U>>) where A: Copy
        requires
            old(self).list.wf(),
            old(self)@.len() > 0 ==> old(self).list.spec_allocator().grants(
                old(self).list.nodes()[old(self).list.order()[0]].value_layout@,
            ),
        ensures
            final(self).list.wf(),
            r is Some <==> old(self)@.len() > 0,
            r is Some ==> *r->Some_0 == old(self)@[0],
            final(self)@ == rest_front(old(self)@),
    {
        self.list.pop_front_boxed()
    }

    /// Takes the last value that is left, if any, in a box.
    ///
    /// The list's allocator must grant the layout of the value.
    pub fn next_back(&mut self) -> (r: Option<Box<U>>) where A: Copy
        requires
            old(self).list.wf(),
            old(self)@.len() > 0 ==> old(self).list.spec_allocator().grants(
                old(self).list.nodes()[old(self).list.order().last()].value_layout@,
            ),
        ensures
            final(self).list.wf(),
            r is Some <==> old(self)@.len() > 0,
            r is Some ==> *r->Some_0 == old(self)@.last(),
            final(self)@ == rest_back(old(self)@),
    {
        self.list.pop_back_boxed()
    }
}

impl<U, A: Allocator> DynList<U, A> {
    /// Creates an iterator over references to the items in the list.
    pub fn iter(&self) -> (r: Iter<'_, U, A>)
        requires
            self.wf(),
        ensures
            r.wf(),
            r.list == self,
            r@ == self@,
    {
        Iter::new(self)
    }

    /// Creates an iterator over mutable references to the items in the list.
    pub fn iter_mut(&mut self) -> (r: IterMut<'_, U, A>)
        requires
            old(self).wf(),
        ensures
            r.wf(),
            r.list() == *old(self),
            r@ == old(self)@,
            *final(self) == *final(r.list),
    {
        IterMut::new(self)
    }

    /// Converts the list to an iterator that yields the elements in boxes.
    pub fn into_iter_boxed(self) -> (r: IntoIterBoxed<U, A>)
        ensures
            r.list == self,
    {
        IntoIterBoxed::new(self)
    }

    /// Converts the list to an iterator that takes the values out.
    pub fn into_iter(self) -> (r: IntoIter<U, A>)
        ensures
            r.list == self,
    {
        IntoIter::new(self)
    }
}

} // verus!
