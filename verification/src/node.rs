//! Nodes and the arena that holds them.
//!
//! A node is one block: a header, then a descriptor where the value's shape
//! varies, then the value. The arena keeps the nodes of one structure and asks
//! its allocator for each of them. A [`NodePtr`] names a node of an arena.

use crate::allocator::Allocator;
use crate::errors::AllocateError;
use crate::layout::{array_spec, extend_spec, Layout, LayoutError, LayoutView};
use vstd::layout::{align_of, size_of};
use vstd::prelude::*;

verus! {

/// The layout of a header of type `H`.
pub open spec fn header_layout<H>() -> LayoutView {
    LayoutView { size: size_of::<H>() as int, align: align_of::<H>() as int }
}

/// The layout of a node's descriptor: that of a length where the value's
/// shape varies, that of nothing where it does not.
pub open spec fn descriptor_layout(described: bool) -> LayoutView {
    if described {
        LayoutView { size: size_of::<usize>() as int, align: align_of::<usize>() as int }
    } else {
        LayoutView { size: size_of::<()>() as int, align: align_of::<()>() as int }
    }
}

/// The layout of a whole node and the offsets of its parts.
pub struct NodeLayout {
    pub layout: LayoutView,
    pub metadata_offset: int,
    pub value_offset: int,
}

/// The layout of a node with a header of layout `header` and a value of
/// layout `value`: the header, extended by the descriptor, extended by the
/// value. `None` where one of the two steps has no result.
pub open spec fn node_layout_spec(header: LayoutView, described: bool, value: LayoutView) -> Option<
    NodeLayout,
> {
    match extend_spec(header, descriptor_layout(described)) {
        Some((front, metadata_offset)) => match extend_spec(front, value) {
            Some((layout, value_offset)) => Some(
                NodeLayout { layout, metadata_offset, value_offset },
            ),
            None => None,
        },
        None => None,
    }
}

/// How a request for a node ends.
pub enum Outcome {
    /// No layout exists for the node.
    Overflow,
    /// The allocator declines the node's layout.
    Denied(LayoutView),
    /// The allocator grants the node's layout.
    Granted(LayoutView),
}

/// How a request for a node with a header of type `H` ends at `allocator`.
pub open spec fn allocation_outcome<H, A: Allocator>(
    allocator: A,
    described: bool,
    value: LayoutView,
) -> Outcome {
    match node_layout_spec(header_layout::<H>(), described, value) {
        None => Outcome::Overflow,
        Some(node) => if allocator.grants(node.layout) {
            Outcome::Granted(node.layout)
        } else {
            Outcome::Denied(node.layout)
        },
    }
}

/// What a request for a node does to an arena, by how the request ends.
/// Where it is granted, `r` names a new node of the arena, unwritten, with
/// the header, the descriptor and the value layout that were asked for, and
/// the allocator has granted its layout. Where it is not, the arena is as it
/// was and `r` holds the layout that was declined, if one exists.
pub open spec fn allocated_in<H, U, A: Allocator>(
    before: Arena<H, U, A>,
    after: Arena<H, U, A>,
    header: H,
    metadata: Option<usize>,
    value_layout: LayoutView,
    outcome: Outcome,
    r: Result<NodePtr, AllocateError>,
) -> bool {
    match outcome {
        Outcome::Overflow => r is Err && r->Err_0.spec_layout().is_none() && after == before,
        Outcome::Denied(layout) => r is Err && r->Err_0.spec_layout().is_some()
            && r->Err_0.spec_layout().unwrap()@ == layout && after == before,
        Outcome::Granted(layout) => {
            &&& r is Ok
            &&& !before@.dom().contains(r->Ok_0)
            &&& after@.dom() == before@.dom().insert(r->Ok_0)
            &&& forall|p: NodePtr| before@.dom().contains(p) ==> #[trigger] after@[p] == before@[p]
            &&& after@[r->Ok_0].header == header
            &&& after@[r->Ok_0].metadata == metadata
            &&& after@[r->Ok_0].value_layout@ == value_layout
            &&& after@[r->Ok_0].value is None
            &&& after.spec_allocator() == before.spec_allocator().after_allocate(layout)
        },
    }
}

/// Computes the layout of a node with a header of type `H`: the node's
/// layout, the offset of the descriptor and the offset of the value.
pub fn layout_from_value<H>(described: bool, value_layout: Layout) -> (r: Result<
    (Layout, usize, usize),
    LayoutError,
>)
    requires
        value_layout.valid(),
    ensures
        r.is_ok() <==> node_layout_spec(header_layout::<H>(), described, value_layout@).is_some(),
        r.is_ok() ==> r.unwrap().0.valid() && Some(
            NodeLayout {
                layout: r.unwrap().0@,
                metadata_offset: r.unwrap().1 as int,
                value_offset: r.unwrap().2 as int,
            },
        ) == node_layout_spec(header_layout::<H>(), described, value_layout@),
{
    let header: Layout = Layout::new::<H>();
    let descriptor: Layout = if described {
        Layout::new::<usize>()
    } else {
        Layout::new::<()>()
    };
    let (front, metadata_offset) = match header.extend(descriptor) {
        Ok(extended) => extended,
        Err(error) => {
            return Err(error);
        },
    };
    match front.extend(value_layout) {
        Ok((layout, value_offset)) => Ok((layout, metadata_offset, value_offset)),
        Err(error) => Err(error),
    }
}

/// The name of a node in an arena.
#[derive(Clone, Copy, Debug, PartialEq, Eq, Structural)]
pub struct NodePtr {
    mid: usize,
}

/// What an arena holds for one node.
pub struct NodeView<H, U> {
    pub header: H,
    /// The length that the node was made for, where its value's shape varies.
    pub metadata: Option<usize>,
    pub value_layout: Layout,
    /// The value, once it has been written.
    pub value: Option<U>,
}

struct Slot<H, U> {
    live: bool,
    header: H,
    metadata: Option<usize>,
    value_layout: Layout,
    value: Option<U>,
}

/// The slot `after` is the slot `before` with its value, if it holds one,
/// turned into what `f` makes of it.
spec fn converted<H, U, V, F: Fn(U) -> V>(before: Slot<H, U>, after: Slot<H, V>, f: F) -> bool {
    &&& after.live == before.live
    &&& after.header == before.header
    &&& after.metadata == before.metadata
    &&& after.value_layout == before.value_layout
    &&& !before.live ==> after.value is None
    &&& before.live ==> (after.value is Some <==> before.value is Some)
    &&& before.live && before.value is Some ==> f.ensures(
        (before.value->Some_0,),
        after.value->Some_0,
    )
}

/// The nodes of one structure, and the allocator that granted them.
pub struct Arena<H, U, A: Allocator> {
    slots: Vec<Slot<H, U>>,
    free: Vec<usize>,
    allocator: A,
}

impl<H, U, A: Allocator> View for Arena<H, U, A> {
    type V = Map<NodePtr, NodeView<H, U>>;

    closed spec fn view(&self) -> Map<NodePtr, NodeView<H, U>> {
        Map::new(
            |p: NodePtr| p.mid < self.slots.len() && self.slots[p.mid as int].live,
            |p: NodePtr|
                NodeView {
                    header: self.slots[p.mid as int].header,
                    metadata: self.slots[p.mid as int].metadata,
                    value_layout: self.slots[p.mid as int].value_layout,
                    value: self.slots[p.mid as int].value,
                },
        )
    }
}

impl NodePtr {
    /// The address of the node's value: the number that names the node.
    pub closed spec fn spec_value_ptr(self) -> usize {
        self.mid
    }

    /// Two names with the same address are one name.
    pub proof fn lemma_value_ptr_injective(a: NodePtr, b: NodePtr)
        requires
            a.spec_value_ptr() == b.spec_value_ptr(),
        ensures
            a == b,
    {
    }

    /// Gets the address of the node's value.
    #[verifier::when_used_as_spec(spec_value_ptr)]
    pub fn value_ptr(self) -> (r: usize)
        ensures
            r == self.spec_value_ptr(),
    {
        self.mid
    }

    /// Gets a node's name back from the address of its value.
    pub fn from_value_ptr(ptr: usize) -> (r: NodePtr)
        ensures
            r.spec_value_ptr() == ptr,
    {
        NodePtr { mid: ptr }
    }

    /// Whether two names are the same.
    pub fn same(self, other: NodePtr) -> (r: bool)
        ensures
            r == (self == other),
    {
        self.mid == other.mid
    }

    /// Attempts to make a node in `arena` for a value of layout
    /// `value_layout`, with `header` as its header and `metadata` as its
    /// descriptor. The node's value is not written yet.
    ///
    /// Fails where no layout exists for the node, and where the arena's
    /// allocator declines that layout; the arena is then as it was.
    pub fn try_allocate_with_layout_in<H, U, A: Allocator>(
        header: H,
        metadata: Option<usize>,
        value_layout: Layout,
        arena: &mut Arena<H, U, A>,
    ) -> (r: Result<NodePtr, AllocateError>)
        requires
            old(arena).wf(),
            value_layout.valid(),
        ensures
            final(arena).wf(),
            match allocation_outcome::<H, A>(
                old(arena).spec_allocator(),
                metadata.is_some(),
                value_layout@,
            ) {
                Outcome::Overflow => r is Err && r->Err_0.spec_layout().is_none() && *final(arena)
                    == *old(arena),
                Outcome::Denied(layout) => r is Err && r->Err_0.spec_layout().is_some()
                    && r->Err_0.spec_layout().unwrap()@ == layout && *final(arena) == *old(arena),
                Outcome::Granted(layout) => r is Ok && !old(arena)@.dom().contains(r->Ok_0)
                    && final(arena)@ == old(arena)@.insert(
                    r->Ok_0,
                    NodeView { header, metadata, value_layout, value: None },
                ) && final(arena).spec_allocator() == old(arena).spec_allocator().after_allocate(
                    layout,
                ),
            },
    {
        let layout: Layout = match layout_from_value::<H>(metadata.is_some(), value_layout) {
            Ok((layout, _, _)) => layout,
            Err(error) => {
                return Err(AllocateError::new_layout(error));
            },
        };
        match arena.allocator.allocate(layout) {
            Ok(()) => {},
            Err(error) => {
                return Err(AllocateError::new_alloc(error, layout));
            },
        }
        let slot = Slot { live: true, header, metadata, value_layout, value: None };
        let index: usize = match arena.free.pop() {
            Some(index) => {
                arena.slots[index] = slot;
                index
            },
            None => {
                arena.slots.push(slot);
                arena.slots.len() - 1
            },
        };
        let node = NodePtr { mid: index };
        proof {
            assert(final(arena)@ =~= old(arena)@.insert(
                node,
                NodeView { header, metadata, value_layout, value: None },
            ));
        }
        Ok(node)
    }

    /// Makes a node in `arena` for a value of layout `value_layout`, with
    /// `header` as its header and `metadata` as its descriptor.
    ///
    /// A layout must exist for the node, and the allocator must grant it.
    pub fn allocate_with_layout_in<H, U, A: Allocator>(
        header: H,
        metadata: Option<usize>,
        value_layout: Layout,
        arena: &mut Arena<H, U, A>,
    ) -> (r: NodePtr)
        requires
            old(arena).wf(),
            value_layout.valid(),
            allocation_outcome::<H, A>(
                old(arena).spec_allocator(),
                metadata.is_some(),
                value_layout@,
            ) is Granted,
        ensures
            final(arena).wf(),
            !old(arena)@.dom().contains(r),
            final(arena)@ == old(arena)@.insert(
                r,
                NodeView { header, metadata, value_layout, value: None },
            ),
            final(arena).spec_allocator() == old(arena).spec_allocator().after_allocate(
                allocation_outcome::<H, A>(
                    old(arena).spec_allocator(),
                    metadata.is_some(),
                    value_layout@,
                )->Granted_0,
            ),
    {
        AllocateError::unwrap_result(
            NodePtr::try_allocate_with_layout_in(header, metadata, value_layout, arena),
        )
    }

    /// Attempts to make a node in `arena` for a value of type `T`.
    ///
    /// Fails where no layout exists for the node, and where the arena's
    /// allocator declines that layout; the arena is then as it was.
    pub fn try_allocate_sized_in<H, T, A: Allocator>(header: H, arena: &mut Arena<H, T, A>) -> (r:
        Result<NodePtr, AllocateError>)
        requires
            old(arena).wf(),
        ensures
            final(arena).wf(),
            allocated_in(
                *old(arena),
                *final(arena),
                header,
                None,
                LayoutView { size: size_of::<T>() as int, align: align_of::<T>() as int },
                allocation_outcome::<H, A>(
                    old(arena).spec_allocator(),
                    false,
                    LayoutView { size: size_of::<T>() as int, align: align_of::<T>() as int },
                ),
                r,
            ),
    {
        NodePtr::try_allocate_with_layout_in(header, None, Layout::new::<T>(), arena)
    }

    /// Makes a node in `arena` for a value of type `T`.
    ///
    /// A layout must exist for the node, and the allocator must grant it.
    pub fn allocate_sized_in<H, T, A: Allocator>(header: H, arena: &mut Arena<H, T, A>) -> (r:
        NodePtr)
        requires
            old(arena).wf(),
            allocation_outcome::<H, A>(
                old(arena).spec_allocator(),
                false,
                LayoutView { size: size_of::<T>() as int, align: align_of::<T>() as int },
            ) is Granted,
        ensures
            final(arena).wf(),
            allocated_in(
                *old(arena),
                *final(arena),
                header,
                None,
                LayoutView { size: size_of::<T>() as int, align: align_of::<T>() as int },
                allocation_outcome::<H, A>(
                    old(arena).spec_allocator(),
                    false,
                    LayoutView { size: size_of::<T>() as int, align: align_of::<T>() as int },
                ),
                Ok::<NodePtr, AllocateError>(r),
            ),
    {
        AllocateError::unwrap_result(NodePtr::try_allocate_sized_in(header, arena))
    }

    /// Attempts to make a node in `arena` for a value that was of type `T`
    /// before it was brought into the form `U`: the node is laid out for a
    /// `T` and has the size of `T` as its descriptor.
    ///
    /// Fails where no layout exists for the node, and where the arena's
    /// allocator declines that layout; the arena is then as it was.
    pub fn try_allocate_unsize_in<H, T, U, A: Allocator>(
        header: H,
        arena: &mut Arena<H, U, A>,
    ) -> (r: Result<NodePtr, AllocateError>)
        requires
            old(arena).wf(),
        ensures
            final(arena).wf(),
            allocated_in(
                *old(arena),
                *final(arena),
                header,
                Some(size_of::<T>() as usize),
                LayoutView { size: size_of::<T>() as int, align: align_of::<T>() as int },
                allocation_outcome::<H, A>(
                    old(arena).spec_allocator(),
                    true,
                    LayoutView { size: size_of::<T>() as int, align: align_of::<T>() as int },
                ),
                r,
            ),
    {
        NodePtr::try_allocate_with_layout_in(
            header,
            Some(core::mem::size_of::<T>()),
            Layout::new::<T>(),
            arena,
        )
    }

    /// Makes a node in `arena` for a value that was of type `T` before it
    /// was brought into the form `U`.
    ///
    /// A layout must exist for the node, and the allocator must grant it.
    pub fn allocate_unsize_in<H, T, U, A: Allocator>(header: H, arena: &mut Arena<H, U, A>) -> (r:
        NodePtr)
        requires
            old(arena).wf(),
            allocation_outcome::<H, A>(
                old(arena).spec_allocator(),
                true,
                LayoutView { size: size_of::<T>() as int, align: align_of::<T>() as int },
            ) is Granted,
        ensures
            final(arena).wf(),
            allocated_in(
                *old(arena),
                *final(arena),
                header,
                Some(size_of::<T>() as usize),
                LayoutView { size: size_of::<T>() as int, align: align_of::<T>() as int },
                allocation_outcome::<H, A>(
                    old(arena).spec_allocator(),
                    true,
                    LayoutView { size: size_of::<T>() as int, align: align_of::<T>() as int },
                ),
                Ok::<NodePtr, AllocateError>(r),
            ),
    {
        AllocateError::unwrap_result(NodePtr::try_allocate_unsize_in::<H, T, U, A>(header, arena))
    }

    /// Attempts to make a node in `arena` for an array of `length` values of
    /// type `T`, or for a string of `length` bytes where `T` is `u8`.
    ///
    /// Fails where no layout exists for the array or for the node, and where
    /// the arena's allocator declines the node's layout; the arena is then
    /// as it was.
    pub fn try_allocate_array_in<H, T, U, A: Allocator>(
        length: usize,
        header: H,
        arena: &mut Arena<H, U, A>,
    ) -> (r: Result<NodePtr, AllocateError>)
        requires
            old(arena).wf(),
        ensures
            final(arena).wf(),
            match array_spec(size_of::<T>() as int, align_of::<T>() as int, length as int) {
                Some(value) => allocated_in(
                    *old(arena),
                    *final(arena),
                    header,
                    Some(length),
                    value,
                    allocation_outcome::<H, A>(old(arena).spec_allocator(), true, value),
                    r,
                ),
                None => r is Err && r->Err_0.spec_layout().is_none() && *final(arena) == *old(
                    arena,
                ),
            },
    {
        match Layout::array::<T>(length) {
            Ok(layout) => NodePtr::try_allocate_with_layout_in(header, Some(length), layout, arena),
            Err(error) => Err(AllocateError::new_layout(error)),
        }
    }

    /// Makes a node in `arena` for an array of `length` values of type `T`.
    ///
    /// A layout must exist for the array and for the node, and the allocator
    /// must grant the node's layout.
    pub fn allocate_array_in<H, T, U, A: Allocator>(
        length: usize,
        header: H,
        arena: &mut Arena<H, U, A>,
    ) -> (r: NodePtr)
        requires
            old(arena).wf(),
            array_spec(size_of::<T>() as int, align_of::<T>() as int, length as int) is Some,
            allocation_outcome::<H, A>(
                old(arena).spec_allocator(),
                true,
                array_spec(size_of::<T>() as int, align_of::<T>() as int, length as int).unwrap(),
            ) is Granted,
        ensures
            final(arena).wf(),
            allocated_in(
                *old(arena),
                *final(arena),
                header,
                Some(length),
                array_spec(size_of::<T>() as int, align_of::<T>() as int, length as int).unwrap(),
                allocation_outcome::<H, A>(
                    old(arena).spec_allocator(),
                    true,
                    array_spec(
                        size_of::<T>() as int,
                        align_of::<T>() as int,
                        length as int,
                    ).unwrap(),
                ),
                Ok::<NodePtr, AllocateError>(r),
            ),
    {
        AllocateError::unwrap_result(
            NodePtr::try_allocate_array_in::<H, T, U, A>(length, header, arena),
        )
    }

    /// Attempts to make a node in `arena` for a string of `length` bytes.
    ///
    /// Fails where no layout exists for the string or for the node, and where
    /// the arena's allocator declines the node's layout; the arena is then
    /// as it was.
    pub fn try_allocate_string_in<H, A: Allocator>(
        length: usize,
        header: H,
        arena: &mut Arena<H, String, A>,
    ) -> (r: Result<NodePtr, AllocateError>)
        requires
            old(arena).wf(),
        ensures
            final(arena).wf(),
            match array_spec(size_of::<u8>() as int, align_of::<u8>() as int, length as int) {
                Some(value) => allocated_in(
                    *old(arena),
                    *final(arena),
                    header,
                    Some(length),
                    value,
                    allocation_outcome::<H, A>(old(arena).spec_allocator(), true, value),
                    r,
                ),
                None => r is Err && r->Err_0.spec_layout().is_none() && *final(arena) == *old(
                    arena,
                ),
            },
    {
        NodePtr::try_allocate_array_in::<H, u8, String, A>(length, header, arena)
    }

    /// Makes a node in `arena` for a string of `length` bytes.
    ///
    /// A layout must exist for the string and for the node, and the allocator
    /// must grant the node's layout.
    pub fn allocate_string_in<H, A: Allocator>(
        length: usize,
        header: H,
        arena: &mut Arena<H, String, A>,
    ) -> (r: NodePtr)
        requires
            old(arena).wf(),
            array_spec(size_of::<u8>() as int, align_of::<u8>() as int, length as int) is Some,
            allocation_outcome::<H, A>(
                old(arena).spec_allocator(),
                true,
                array_spec(size_of::<u8>() as int, align_of::<u8>() as int, length as int).unwrap(),
            ) is Granted,
        ensures
            final(arena).wf(),
            allocated_in(
                *old(arena),
                *final(arena),
                header,
                Some(length),
                array_spec(size_of::<u8>() as int, align_of::<u8>() as int, length as int).unwrap(),
                allocation_outcome::<H, A>(
                    old(arena).spec_allocator(),
                    true,
                    array_spec(
                        size_of::<u8>() as int,
                        align_of::<u8>() as int,
                        length as int,
                    ).unwrap(),
                ),
                Ok::<NodePtr, AllocateError>(r),
            ),
    {
        AllocateError::unwrap_result(NodePtr::try_allocate_string_in(length, header, arena))
    }

    /// Gives the node back to the arena's allocator. The value in it, if one
    /// was written, goes with it.
    pub fn deallocate<H, U, A: Allocator>(self, arena: &mut Arena<H, U, A>)
        requires
            old(arena).wf(),
            old(arena)@.dom().contains(self),
        ensures
            final(arena).wf(),
            final(arena)@ == old(arena)@.remove(self),
            final(arena).spec_allocator() == old(arena).spec_allocator().after_deallocate(
                old(arena).node_layout(self),
            ),
    {
        let index: usize = self.mid;
        let described: bool = arena.slots[index].metadata.is_some();
        let value_layout: Layout = arena.slots[index].value_layout;
        proof {
            assert(old(arena)@[self].value_layout == value_layout);
        }
        let layout: Layout = match layout_from_value::<H>(described, value_layout) {
            Ok((layout, _, _)) => layout,
            Err(_) => unreached(),
        };
        arena.allocator.deallocate(layout);
        arena.slots[index].live = false;
        arena.slots[index].value = None;
        arena.free.push(index);
        proof {
            assert(final(arena)@ =~= old(arena)@.remove(self));
        }
    }
}

impl<H, U, A: Allocator> Arena<H, U, A> {
    /// The arena's allocator.
    pub closed spec fn spec_allocator(&self) -> A {
        self.allocator
    }

    /// The indices kept for reuse name slots that hold no node, each once.
    pub closed spec fn free_list_inv(&self) -> bool {
        &&& forall|i: int|
            0 <= i < self.free.len() ==> (#[trigger] self.free[i]) < self.slots.len()
                && !self.slots[self.free[i] as int].live
        &&& forall|i: int, j: int|
            0 <= i < j < self.free.len() ==> #[trigger] self.free[i] != #[trigger] self.free[j]
    }

    /// Each node was made with a layout that exists, so that the layout can
    /// be computed again when the node is given back.
    pub closed spec fn slots_valid(&self) -> bool {
        forall|i: int|
            0 <= i < self.slots.len() && (#[trigger] self.slots[i]).live
                ==> self.slots[i].value_layout.valid() && node_layout_spec(
                header_layout::<H>(),
                self.slots[i].metadata.is_some(),
                self.slots[i].value_layout@,
            ).is_some()
    }

    /// The arena is in order.
    pub open spec fn wf(&self) -> bool {
        &&& self.free_list_inv()
        &&& self.slots_valid()
    }

    /// A node of an arena in order has a layout.
    pub proof fn lemma_node_has_layout(&self, p: NodePtr)
        requires
            self.wf(),
            self@.dom().contains(p),
        ensures
            self@[p].value_layout.valid(),
            node_layout_spec(
                header_layout::<H>(),
                self@[p].metadata.is_some(),
                self@[p].value_layout@,
            ).is_some(),
    {
        assert(self.slots[p.mid as int].live);
    }

    /// The layout that node `p` was granted with.
    pub open spec fn node_layout(&self, p: NodePtr) -> LayoutView {
        node_layout_spec(
            header_layout::<H>(),
            self@[p].metadata.is_some(),
            self@[p].value_layout@,
        ).unwrap().layout
    }

    /// Nodes of one arena that are all different are no more than a `usize`
    /// can count.
    pub proof fn lemma_count(&self, names: Seq<NodePtr>)
        requires
            names.no_duplicates(),
            forall|i: int| 0 <= i < names.len() ==> self@.dom().contains(#[trigger] names[i]),
        ensures
            names.len() <= usize::MAX,
    {
        let places = Seq::new(names.len(), |i: int| names[i].mid as int);
        assert(places.no_duplicates());
        places.unique_seq_to_set();
        let bound = self.slots.len() as int;
        vstd::set_lib::lemma_int_range(0, bound);
        assert(places.to_set().subset_of(vstd::set_lib::set_int_range(0, bound))) by {
            assert forall|x: int| places.to_set().contains(x) implies vstd::set_lib::set_int_range(
                0,
                bound,
            ).contains(x) by {
                let i = choose|i: int| 0 <= i < places.len() && places[i] == x;
                assert(self@.dom().contains(names[i]));
            }
        }
        vstd::set_lib::lemma_len_subset(places.to_set(), vstd::set_lib::set_int_range(0, bound));
    }

    /// An arena without nodes.
    pub fn new_in(allocator: A) -> (r: Self)
        ensures
            r.wf(),
            r@ == Map::<NodePtr, NodeView<H, U>>::empty(),
            r.spec_allocator() == allocator,
    {
        let r = Arena { slots: Vec::new(), free: Vec::new(), allocator };
        proof {
            assert(r@ =~= Map::<NodePtr, NodeView<H, U>>::empty());
        }
        r
    }

    /// Turns each written value into what `f` makes of it. The nodes keep
    /// their names, headers, descriptors and layouts, and the allocator is as
    /// it was.
    pub fn convert<V, F: Fn(U) -> V>(self, f: F) -> (r: Arena<H, V, A>)
        requires
            self.wf(),
            forall|p: NodePtr|
                self@.dom().contains(p) && (#[trigger] self@[p]).value is Some ==> f.requires(
                    (self@[p].value->Some_0,),
                ),
        ensures
            r.wf(),
            r@.dom() == self@.dom(),
            forall|p: NodePtr|
                self@.dom().contains(p) ==> {
                    &&& (#[trigger] r@[p]).header == self@[p].header
                    &&& r@[p].metadata == self@[p].metadata
                    &&& r@[p].value_layout == self@[p].value_layout
                    &&& r@[p].value is Some <==> self@[p].value is Some
                    &&& self@[p].value is Some ==> f.ensures(
                        (self@[p].value->Some_0,),
                        r@[p].value->Some_0,
                    )
                },
            r.spec_allocator() == self.spec_allocator(),
    {
        let Arena { slots, free, allocator } = self;
        let ghost before = slots@;
        let count: usize = slots.len();
        let mut slots = slots;
        let mut stack: Vec<Slot<H, V>> = Vec::with_capacity(count);
        proof {
            assert forall|i: int| 0 <= i < before.len() && before[i].live && before[i].value
                is Some implies f.requires((before[i].value->Some_0,)) by {
                let p = NodePtr { mid: i as usize };
                assert(self@.dom().contains(p));
                assert(self@[p].value == before[i].value);
            }
        }
        while slots.len() > 0
            invariant
                slots@.len() + stack@.len() == count,
                count == before.len(),
                forall|i: int| 0 <= i < slots@.len() ==> slots@[i] == before[i],
                forall|i: int|
                    0 <= i < before.len() && before[i].live && before[i].value is Some
                        ==> f.requires((before[i].value->Some_0,)),
                forall|j: int|
                    0 <= j < stack@.len() ==> converted(
                        before[count - 1 - j],
                        #[trigger] stack@[j],
                        f,
                    ),
            decreases slots@.len(),
        {
            match slots.pop() {
                Some(slot) => {
                    proof {
                        assert(slot == before[slots@.len() as int]);
                    }
                    let Slot { live, header, metadata, value_layout, value } = slot;
                    let value: Option<V> = match value {
                        Some(value) => if live {
                            Some(f(value))
                        } else {
                            None
                        },
                        None => None,
                    };
                    stack.push(Slot { live, header, metadata, value_layout, value });
                },
                None => {},
            }
        }
        let mut out: Vec<Slot<H, V>> = Vec::with_capacity(count);
        while stack.len() > 0
            invariant
                out@.len() + stack@.len() == count,
                count == before.len(),
                forall|j: int|
                    0 <= j < stack@.len() ==> converted(
                        before[count - 1 - j],
                        #[trigger] stack@[j],
                        f,
                    ),
                forall|i: int| 0 <= i < out@.len() ==> converted(before[i], #[trigger] out@[i], f),
            decreases stack@.len(),
        {
            match stack.pop() {
                Some(slot) => {
                    out.push(slot);
                },
                None => {},
            }
        }
        let r = Arena { slots: out, free, allocator };
        proof {
            assert(r@.dom() =~= self@.dom());
        }
        r
    }

    /// Gets the arena's allocator.
    pub fn allocator(&self) -> (r: &A)
        ensures
            *r == self.spec_allocator(),
    {
        &self.allocator
    }

    /// Takes the arena apart; its nodes go with it.
    pub fn into_allocator(self) -> (r: A)
        ensures
            r == self.spec_allocator(),
    {
        self.allocator
    }

    /// Whether `p` names a node of this arena.
    pub fn contains(&self, p: NodePtr) -> (r: bool)
        ensures
            r == self@.dom().contains(p),
    {
        p.mid < self.slots.len() && self.slots[p.mid].live
    }

    /// Gets the header of node `p`.
    pub fn header(&self, p: NodePtr) -> (r: &H)
        requires
            self@.dom().contains(p),
        ensures
            *r == self@[p].header,
    {
        &self.slots[p.mid].header
    }

    /// Writes the header of node `p`.
    pub fn set_header(&mut self, p: NodePtr, header: H)
        requires
            old(self).wf(),
            old(self)@.dom().contains(p),
        ensures
            final(self).wf(),
            final(self)@ == old(self)@.insert(
                p,
                NodeView {
                    header,
                    metadata: old(self)@[p].metadata,
                    value_layout: old(self)@[p].value_layout,
                    value: old(self)@[p].value,
                },
            ),
            final(self).spec_allocator() == old(self).spec_allocator(),
    {
        self.slots[p.mid].header = header;
        proof {
            assert(final(self)@ =~= old(self)@.insert(
                p,
                NodeView {
                    header,
                    metadata: old(self)@[p].metadata,
                    value_layout: old(self)@[p].value_layout,
                    value: old(self)@[p].value,
                },
            ));
        }
    }

    /// Gets the descriptor of node `p`.
    pub fn metadata(&self, p: NodePtr) -> (r: Option<usize>)
        requires
            self@.dom().contains(p),
        ensures
            r == self@[p].metadata,
    {
        self.slots[p.mid].metadata
    }

    /// Gets the layout of the value of node `p`.
    pub fn value_layout(&self, p: NodePtr) -> (r: Layout)
        requires
            self@.dom().contains(p),
        ensures
            r == self@[p].value_layout,
    {
        self.slots[p.mid].value_layout
    }

    /// Gets the value of node `p`, if it has been written.
    pub fn value(&self, p: NodePtr) -> (r: Option<&U>)
        requires
            self@.dom().contains(p),
        ensures
            r.is_some() == self@[p].value.is_some(),
            r.is_some() ==> *r.unwrap() == self@[p].value.unwrap(),
    {
        self.slots[p.mid].value.as_ref()
    }

    /// Gets the value of node `p` for writing, if it has been written.
    pub fn value_mut(&mut self, p: NodePtr) -> (r: Option<&mut U>)
        requires
            old(self).wf(),
            old(self)@.dom().contains(p),
        ensures
            r.is_some() == old(self)@[p].value.is_some(),
            r.is_some() ==> *r.unwrap() == old(self)@[p].value.unwrap(),
            final(self).free_list_inv(),
            final(self).slots_valid(),
            final(self).spec_allocator() == old(self).spec_allocator(),
            r.is_some() ==> final(self)@ =~= old(self)@.insert(
                p,
                NodeView {
                    header: old(self)@[p].header,
                    metadata: old(self)@[p].metadata,
                    value_layout: old(self)@[p].value_layout,
                    value: Some(*final(r.unwrap())),
                },
            ),
            r.is_none() ==> final(self)@ =~= old(self)@,
    {
        self.slots[p.mid].value.as_mut()
    }

    /// Writes the value of node `p` and hands back the value that was there.
    pub fn write(&mut self, p: NodePtr, value: U) -> (r: Option<U>)
        requires
            old(self).wf(),
            old(self)@.dom().contains(p),
        ensures
            r == old(self)@[p].value,
            final(self).wf(),
            final(self).spec_allocator() == old(self).spec_allocator(),
            final(self)@ == old(self)@.insert(
                p,
                NodeView {
                    header: old(self)@[p].header,
                    metadata: old(self)@[p].metadata,
                    value_layout: old(self)@[p].value_layout,
                    value: Some(value),
                },
            ),
    {
        let r = self.slots[p.mid].value.take();
        self.slots[p.mid].value = Some(value);
        proof {
            assert(final(self)@ =~= old(self)@.insert(
                p,
                NodeView {
                    header: old(self)@[p].header,
                    metadata: old(self)@[p].metadata,
                    value_layout: old(self)@[p].value_layout,
                    value: Some(value),
                },
            ));
        }
        r
    }

    /// Takes the value out of node `p`; the node stays, unwritten.
    pub fn take(&mut self, p: NodePtr) -> (r: Option<U>)
        requires
            old(self).wf(),
            old(self)@.dom().contains(p),
        ensures
            r == old(self)@[p].value,
            final(self).wf(),
            final(self).spec_allocator() == old(self).spec_allocator(),
            final(self)@ == old(self)@.insert(
                p,
                NodeView {
                    header: old(self)@[p].header,
                    metadata: old(self)@[p].metadata,
                    value_layout: old(self)@[p].value_layout,
                    value: None,
                },
            ),
    {
        let r = self.slots[p.mid].value.take();
        proof {
            assert(final(self)@ =~= old(self)@.insert(
                p,
                NodeView {
                    header: old(self)@[p].header,
                    metadata: old(self)@[p].metadata,
                    value_layout: old(self)@[p].value_layout,
                    value: None,
                },
            ));
        }
        r
    }
}

} // verus!
