//! Pushing a value into a node of a given layout.

use crate::allocator::Allocator;
use crate::errors::AllocateError;
use crate::layout::Layout;
use crate::list::{DynList, Header};
use crate::node::{header_layout, node_layout_spec};
use crate::sized::{after_all, grants_all, spec_push_back, spec_push_front};
use crate::uninit::refused;
use vstd::prelude::*;

verus! {

impl<U, A: Allocator> DynList<U, A> {
    /// Attempts to make a node at the front of the list for a value of
    /// layout `value_layout`, to write `value` into it and to link it in.
    ///
    /// On failure the list is as it was, and the error holds `value`.
    pub fn try_push_value_front(
        &mut self,
        metadata: Option<usize>,
        value_layout: Layout,
        value: U,
    ) -> (r: Result<(), AllocateError<U>>)
        requires
            old(self).wf(),
            value_layout.valid(),
        ensures
            final(self).wf(),
            match r {
                Ok(_) => {
                    let outcome = old(self).outcome(metadata.is_some(), value_layout@);
                    &&& outcome is Granted
                    &&& final(self)@ == spec_push_front(old(self)@, value)
                    &&& final(self).spec_allocator() == old(self).spec_allocator().after_allocate(
                        outcome->Granted_0,
                    )
                },
                Err(error) => {
                    &&& *final(self) == *old(self)
                    &&& error.spec_value() == value
                    &&& refused(
                        old(self).outcome(metadata.is_some(), value_layout@),
                        error.spec_layout(),
                    )
                },
            },
    {
        let mut node = match self.try_allocate_uninit_front(metadata, value_layout) {
            Ok(node) => node,
            Err(error) => {
                return Err(error.with_value(value));
            },
        };
        node.write(value);
        node.insert();
        proof {
            assert(old(self)@.insert(0, value) =~= spec_push_front(old(self)@, value));
        }
        Ok(())
    }

    /// Attempts to make a node at the back of the list for a value of layout
    /// `value_layout`, to write `value` into it and to link it in.
    ///
    /// On failure the list is as it was, and the error holds `value`.
    pub fn try_push_value_back(
        &mut self,
        metadata: Option<usize>,
        value_layout: Layout,
        value: U,
    ) -> (r: Result<(), AllocateError<U>>)
        requires
            old(self).wf(),
            value_layout.valid(),
        ensures
            final(self).wf(),
            match r {
                Ok(_) => {
                    let outcome = old(self).outcome(metadata.is_some(), value_layout@);
                    &&& outcome is Granted
                    &&& final(self)@ == spec_push_back(old(self)@, value)
                    &&& final(self).spec_allocator() == old(self).spec_allocator().after_allocate(
                        outcome->Granted_0,
                    )
                },
                Err(error) => {
                    &&& *final(self) == *old(self)
                    &&& error.spec_value() == value
                    &&& refused(
                        old(self).outcome(metadata.is_some(), value_layout@),
                        error.spec_layout(),
                    )
                },
            },
    {
        let mut node = match self.try_allocate_uninit_back(metadata, value_layout) {
            Ok(node) => node,
            Err(error) => {
                return Err(error.with_value(value));
            },
        };
        node.write(value);
        node.insert();
        proof {
            assert(old(self)@.insert(old(self)@.len() as int, value) =~= spec_push_back(
                old(self)@,
                value,
            ));
        }
        Ok(())
    }

    /// Makes a node at the back of the list for each value of `items`, in
    /// their order, each for a value of layout `value_layout`, and writes the
    /// value into it.
    ///
    /// A layout must exist for such a node, and the allocator must grant one
    /// for each value.
    pub fn extend_values(&mut self, metadata: Option<usize>, value_layout: Layout, items: Vec<U>)
        requires
            old(self).wf(),
            value_layout.valid(),
            items@.len() > 0 ==> !(old(self).outcome(metadata.is_some(), value_layout@)
                is Overflow),
            items@.len() > 0 ==> grants_all(
                old(self).spec_allocator(),
                node_layout_spec(
                    header_layout::<Header>(),
                    metadata.is_some(),
                    value_layout@,
                ).unwrap().layout,
                items@.len(),
            ),
        ensures
            final(self).wf(),
            final(self)@ == old(self)@ + items@,
            items@.len() > 0 ==> final(self).spec_allocator() == after_all(
                old(self).spec_allocator(),
                node_layout_spec(
                    header_layout::<Header>(),
                    metadata.is_some(),
                    value_layout@,
                ).unwrap().layout,
                items@.len(),
            ),
            items@.len() == 0 ==> *final(self) == *old(self),
    {
        let ghost all = items@;
        let count: usize = items.len();
        if count == 0 {
            proof {
                assert(old(self)@ + items@ =~= old(self)@);
            }
            return ;
        }
        let ghost layout = node_layout_spec(
            header_layout::<Header>(),
            metadata.is_some(),
            value_layout@,
        ).unwrap().layout;
        let mut items = items;
        let mut stack: Vec<U> = Vec::with_capacity(count);
        while items.len() > 0
            invariant
                items@.len() + stack@.len() == count,
                count == all.len(),
                forall|j: int| 0 <= j < items@.len() ==> items@[j] == all[j],
                forall|j: int| 0 <= j < stack@.len() ==> stack@[j] == all[count - 1 - j],
            decreases items@.len(),
        {
            match items.pop() {
                Some(item) => {
                    stack.push(item);
                },
                None => {},
            }
        }
        let ghost mut i: int = 0;
        while stack.len() > 0
            invariant
                self.wf(),
                value_layout.valid(),
                0 <= i <= count,
                count == all.len(),
                stack@.len() == count - i,
                forall|j: int| 0 <= j < stack@.len() ==> stack@[j] == all[count - 1 - j],
                self@ == old(self)@ + all.take(i),
                node_layout_spec(
                    header_layout::<Header>(),
                    metadata.is_some(),
                    value_layout@,
                ) is Some,
                layout == node_layout_spec(
                    header_layout::<Header>(),
                    metadata.is_some(),
                    value_layout@,
                ).unwrap().layout,
                grants_all(self.spec_allocator(), layout, (count - i) as nat),
                after_all(old(self).spec_allocator(), layout, count as nat) == after_all(
                    self.spec_allocator(),
                    layout,
                    (count - i) as nat,
                ),
            decreases stack@.len(),
        {
            match stack.pop() {
                Some(item) => {
                    let ghost before = self@;
                    match self.try_push_value_back(metadata, value_layout, item) {
                        Ok(_) => {},
                        Err(_) => unreached(),
                    }
                    proof {
                        assert(item == all[i]);
                        assert(before.push(item) =~= old(self)@ + all.take(i + 1));
                        i = i + 1;
                    }
                },
                None => {},
            }
        }
        proof {
            assert(all.take(count as int) =~= all);
        }
    }
}

} // verus!
