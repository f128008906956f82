//! Copying a list into another allocator.

use crate::allocator::{after_each, first_denied, Allocator};
use crate::array::clone_of;
use crate::cursor::cursor::lemma_step;
use crate::errors::AllocateError;
use crate::iter::{span, spans, RawIter};
use crate::layout::{Layout, LayoutView};
use crate::list::DynList;
use vstd::prelude::*;

verus! {

impl<U, A: Allocator> DynList<U, A> {
    /// The layouts that the list's linked nodes were granted with, front to back.
    pub open spec fn node_layouts(&self) -> Seq<LayoutView> {
        Seq::new(self.order().len(), |i: int| self.arena().node_layout(self.order()[i]))
    }

    /// Attempts to clone the list into another allocator: a node is made in
    /// `allocator` for each value, front to back, with the layout of the
    /// value's node in this list, and holds a clone of the value.
    ///
    /// Fails at the first node that `allocator` declines; what was cloned
    /// until then is dropped.
    pub fn try_clone_in<A2: Allocator>(&self, allocator: A2) -> (r: Result<
        DynList<U, A2>,
        AllocateError,
    >) where U: Clone
        requires
            self.wf(),
        ensures
            match r {
                Ok(copy) => {
                    &&& first_denied(allocator, self.node_layouts()) is None
                    &&& copy.wf()
                    &&& clone_of(self@, copy@)
                    &&& copy.spec_allocator() == after_each(allocator, self.node_layouts())
                },
                Err(error) => {
                    &&& first_denied(allocator, self.node_layouts()) is Some
                    &&& error.spec_layout() is Some
                    &&& error.spec_layout().unwrap()@ == first_denied(
                        allocator,
                        self.node_layouts(),
                    ).unwrap()
                },
            },
    {
        let mut copy: DynList<U, A2> = DynList::new_in(allocator);
        let mut raw = RawIter::from_list(self);
        let ghost layouts = self.node_layouts();
        let ghost mut i: int = 0;
        proof {
            assert(layouts.skip(0) =~= layouts);
            assert(self.order().subrange(0, self.order().len() as int) =~= self.order());
        }
        loop
            invariant
                self.wf(),
                copy.wf(),
                layouts == self.node_layouts(),
                0 <= i <= self.order().len(),
                spans(self.order(), raw.ends),
                span(self.order(), raw.ends) == self.order().subrange(
                    i,
                    self.order().len() as int,
                ),
                copy@.len() == i,
                forall|j: int| 0 <= j < i ==> cloned::<U>(#[trigger] self@[j], copy@[j]),
                first_denied(allocator, layouts) == first_denied(
                    copy.spec_allocator(),
                    layouts.skip(i),
                ),
                after_each(allocator, layouts) == after_each(
                    copy.spec_allocator(),
                    layouts.skip(i),
                ),
            ensures
                i == self.order().len(),
            decreases self.order().len() - i,
        {
            let node = match raw.next(self) {
                Some(node) => node,
                None => {
                    proof {
                        assert(self.order().subrange(i, self.order().len() as int).len()
                            == self.order().len() - i);
                    }
                    break ;
                },
            };
            proof {
                assert(node == self.order()[i]);
                lemma_step(self.order(), self.nodes(), Some(node));
                self.arena().lemma_node_has_layout(node);
                assert(layouts.skip(i)[0] == layouts[i]);
                assert(layouts.skip(i).drop_first() =~= layouts.skip(i + 1));
                assert(self.order().subrange(i, self.order().len() as int).drop_first()
                    =~= self.order().subrange(i + 1, self.order().len() as int));
            }
            let metadata: Option<usize> = self.metadata(node);
            let value_layout: Layout = self.value_layout(node);
            let item: &U = match self.value(node) {
                Some(item) => item,
                None => unreached(),
            };
            let mut staged = match copy.try_allocate_uninit_back(metadata, value_layout) {
                Ok(staged) => staged,
                Err(error) => {
                    return Err(error);
                },
            };
            let value = item.clone();
            staged.write(value);
            staged.insert();
            proof {
                i = i + 1;
            }
        }
        proof {
            assert(layouts.skip(i) =~= Seq::<LayoutView>::empty());
        }
        Ok(copy)
    }

    /// Clones the list into another allocator.
    ///
    /// The allocator must grant a node for each value of the list.
    pub fn clone_in<A2: Allocator>(&self, allocator: A2) -> (copy: DynList<U, A2>) where U: Clone
        requires
            self.wf(),
            first_denied(allocator, self.node_layouts()) is None,
        ensures
            copy.wf(),
            clone_of(self@, copy@),
            copy.spec_allocator() == after_each(allocator, self.node_layouts()),
    {
        AllocateError::unwrap_result(self.try_clone_in(allocator))
    }
}

} // verus!
