//! The allocator a list asks before it makes a node.

use crate::layout::{Layout, LayoutView};
use vstd::prelude::*;

verus! {

/// The allocator declined a request.
#[derive(Clone, Copy, Debug, PartialEq, Eq, Structural)]
pub struct AllocError;

/// Decides whether a block may be had, and is told when one is given back.
///
/// What an allocator answers depends on nothing but its own state and the
/// layout asked for.
pub trait Allocator: Sized {
    /// Whether the allocator, as it stands, grants a block of this layout.
    spec fn grants(&self, layout: LayoutView) -> bool;

    /// The allocator after it has granted a block of this layout.
    spec fn after_allocate(&self, layout: LayoutView) -> Self;

    /// The allocator after a block of this layout has come back.
    spec fn after_deallocate(&self, layout: LayoutView) -> Self;

    /// Asks for a block. A declined request leaves the allocator as it was.
    fn allocate(&mut self, layout: Layout) -> (r: Result<(), AllocError>)
        requires
            layout.valid(),
        ensures
            r.is_ok() <==> old(self).grants(layout@),
            r.is_ok() ==> *final(self) == old(self).after_allocate(layout@),
            r.is_err() ==> *final(self) == *old(self),
    ;

    /// Gives a block back.
    fn deallocate(&mut self, layout: Layout)
        ensures
            *final(self) == old(self).after_deallocate(layout@),
    ;
}

/// The first of `layouts` that the allocator declines when it is asked for
/// them one after another; `None` where it grants them all.
pub open spec fn first_denied<A: Allocator>(allocator: A, layouts: Seq<LayoutView>) -> Option<
    LayoutView,
>
    decreases layouts.len(),
{
    if layouts.len() == 0 {
        None
    } else if allocator.grants(layouts[0]) {
        first_denied(allocator.after_allocate(layouts[0]), layouts.drop_first())
    } else {
        Some(layouts[0])
    }
}

/// The allocator after it has granted the blocks of `layouts`, one after
/// another.
pub open spec fn after_each<A: Allocator>(allocator: A, layouts: Seq<LayoutView>) -> A
    decreases layouts.len(),
{
    if layouts.len() == 0 {
        allocator
    } else {
        after_each(allocator.after_allocate(layouts[0]), layouts.drop_first())
    }
}

/// The allocator after the blocks of `layouts` have come back, one after
/// another.
pub open spec fn released_each<A: Allocator>(allocator: A, layouts: Seq<LayoutView>) -> A
    decreases layouts.len(),
{
    if layouts.len() == 0 {
        allocator
    } else {
        released_each(allocator.after_deallocate(layouts[0]), layouts.drop_first())
    }
}

/// The allocator that grants every request.
#[derive(Clone, Copy, Debug, PartialEq, Eq, Structural)]
pub struct Global;

impl Allocator for Global {
    open spec fn grants(&self, layout: LayoutView) -> bool {
        true
    }

    open spec fn after_allocate(&self, layout: LayoutView) -> Self {
        *self
    }

    open spec fn after_deallocate(&self, layout: LayoutView) -> Self {
        *self
    }

    fn allocate(&mut self, layout: Layout) -> (r: Result<(), AllocError>) {
        Ok(())
    }

    fn deallocate(&mut self, layout: Layout) {
    }
}

/// An allocator with a fixed number of bytes to give out.
#[derive(Clone, Copy, Debug, PartialEq, Eq, Structural)]
pub struct Budget {
    pub limit: usize,
    pub used: usize,
}

impl Budget {
    /// An allocator that has `limit` bytes and has given out none.
    pub fn new(limit: usize) -> (r: Budget)
        ensures
            r == (Budget { limit, used: 0 }),
    {
        Budget { limit, used: 0 }
    }

    /// The bytes that can still be had.
    pub fn remaining(&self) -> (r: usize)
        ensures
            r == if self.used <= self.limit {
                self.limit - self.used
            } else {
                0
            },
    {
        if self.used <= self.limit {
            self.limit - self.used
        } else {
            0
        }
    }
}

impl Allocator for Budget {
    open spec fn grants(&self, layout: LayoutView) -> bool {
        self.used + layout.size <= self.limit
    }

    open spec fn after_allocate(&self, layout: LayoutView) -> Self {
        Budget { limit: self.limit, used: (self.used + layout.size) as usize }
    }

    open spec fn after_deallocate(&self, layout: LayoutView) -> Self {
        Budget {
            limit: self.limit,
            used: if self.used >= layout.size {
                (self.used - layout.size) as usize
            } else {
                0
            },
        }
    }

    fn allocate(&mut self, layout: Layout) -> (r: Result<(), AllocError>) {
        let size: usize = layout.size();
        if self.used <= self.limit && size <= self.limit - self.used {
            self.used = self.used + size;
            Ok(())
        } else {
            Err(AllocError)
        }
    }

    fn deallocate(&mut self, layout: Layout) {
        let size: usize = layout.size();
        if self.used >= size {
            self.used = self.used - size;
        } else {
            self.used = 0;
        }
    }
}

/// The allocator that grants every request declines none.
pub proof fn lemma_global_grants(layouts: Seq<LayoutView>)
    ensures
        first_denied(Global, layouts).is_none(),
        after_each(Global, layouts) == Global,
    decreases layouts.len(),
{
    if layouts.len() > 0 {
        lemma_global_grants(layouts.drop_first());
    }
}

} // verus!
