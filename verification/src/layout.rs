//! Sizes and alignments of blocks of memory, and the rule by which the parts
//! of a node are laid out one after another.

use vstd::arithmetic::power2::is_pow2;
use vstd::layout::{align_of, layout_for_type_is_valid, size_of, valid_layout};
use vstd::prelude::*;

verus! {

/// `size` and `align` describe a block that can exist: the alignment is a
/// power of two and the size, rounded up to it, does not pass `isize::MAX`.
pub open spec fn valid_size_align(size: int, align: int) -> bool {
    &&& 0 <= size <= usize::MAX
    &&& 0 < align <= usize::MAX
    &&& valid_layout(size as usize, align as usize)
}

/// Bytes to add to `size` to reach the next multiple of `align`.
pub open spec fn padding_for(size: int, align: int) -> int {
    if size % align == 0 {
        0
    } else {
        align - size % align
    }
}

/// The larger of two alignments.
pub open spec fn max_align(a: int, b: int) -> int {
    if a >= b {
        a
    } else {
        b
    }
}

/// Abstract value of a [`Layout`]: its size and its alignment.
pub struct LayoutView {
    pub size: int,
    pub align: int,
}

/// The record made of a block `first` followed by a block `next`, with the
/// padding that aligns `next`: the record's layout and the offset of `next`
/// in it. `None` where no such record can exist.
pub open spec fn extend_spec(first: LayoutView, next: LayoutView) -> Option<(LayoutView, int)> {
    let offset = first.size + padding_for(first.size, next.align);
    let size = offset + next.size;
    let align = max_align(first.align, next.align);
    if valid_size_align(size, align) {
        Some((LayoutView { size, align }, offset))
    } else {
        None
    }
}

/// The layout of `count` blocks of `size` bytes each, aligned to `align`.
/// `None` where the array cannot exist.
pub open spec fn array_spec(size: int, align: int, count: int) -> Option<LayoutView> {
    if valid_size_align(size * count, align) {
        Some(LayoutView { size: size * count, align })
    } else {
        None
    }
}

/// The size and alignment of a block of memory.
#[derive(Clone, Copy, Debug, PartialEq, Eq, Structural)]
pub struct Layout {
    size: usize,
    align: usize,
}

/// A size and an alignment that describe no block: the alignment is no power
/// of two, or the padded size passes `isize::MAX`.
#[derive(Clone, Copy, Debug, PartialEq, Eq, Structural)]
pub struct LayoutError;

impl View for Layout {
    type V = LayoutView;

    closed spec fn view(&self) -> LayoutView {
        LayoutView { size: self.size as int, align: self.align as int }
    }
}

/// Whether `n` is a power of two.
pub fn is_power_of_two(n: usize) -> (r: bool)
    ensures
        r == is_pow2(n as int),
{
    if n == 0 {
        proof {
            reveal(is_pow2);
        }
        return false;
    }
    let mut x: usize = n;
    while x % 2 == 0
        invariant
            0 < x <= n,
            is_pow2(x as int) == is_pow2(n as int),
        decreases x,
    {
        proof {
            reveal(is_pow2);
        }
        x = x / 2;
    }
    proof {
        reveal(is_pow2);
    }
    x == 1
}

impl Layout {
    /// Every layout describes a block that can exist.
    pub open spec fn valid(&self) -> bool {
        valid_size_align(self@.size, self@.align)
    }

    /// Two layouts with the same size and alignment are one layout.
    pub proof fn lemma_view_injective(a: Layout, b: Layout)
        requires
            a@ == b@,
        ensures
            a == b,
    {
    }

    /// The layout of `size` bytes aligned to `align`, if there is one.
    pub fn from_size_align(size: usize, align: usize) -> (r: Result<Layout, LayoutError>)
        ensures
            r.is_ok() <==> valid_size_align(size as int, align as int),
            r.is_ok() ==> r.unwrap()@ == (LayoutView { size: size as int, align: align as int }),
    {
        if !is_power_of_two(align) {
            return Err(LayoutError);
        }
        let most: usize = isize::MAX as usize;
        proof {
            reveal(is_pow2);
            assert(most % align <= most) by (nonlinear_arith)
                requires
                    align > 0,
            ;
        }
        if size > most - most % align {
            return Err(LayoutError);
        }
        Ok(Layout { size, align })
    }

    /// The layout of a value of type `T`.
    pub fn new<T>() -> (r: Layout)
        ensures
            r.valid(),
            r@ == (LayoutView { size: size_of::<T>() as int, align: align_of::<T>() as int }),
    {
        layout_for_type_is_valid::<T>();
        Layout { size: core::mem::size_of::<T>(), align: core::mem::align_of::<T>() }
    }

    /// The layout of `count` values of type `T` in a row.
    pub fn array<T>(count: usize) -> (r: Result<Layout, LayoutError>)
        ensures
            r.is_ok() <==> array_spec(
                size_of::<T>() as int,
                align_of::<T>() as int,
                count as int,
            ).is_some(),
            r.is_ok() ==> Some(r.unwrap()@) == array_spec(
                size_of::<T>() as int,
                align_of::<T>() as int,
                count as int,
            ),
    {
        layout_for_type_is_valid::<T>();
        let size: usize = core::mem::size_of::<T>();
        let align: usize = core::mem::align_of::<T>();
        match size.checked_mul(count) {
            Some(total) => Layout::from_size_align(total, align),
            None => Err(LayoutError),
        }
    }

    /// The size of the block, in bytes.
    pub fn size(&self) -> (r: usize)
        ensures
            r == self@.size,
    {
        self.size
    }

    /// The alignment of the block, in bytes.
    pub fn align(&self) -> (r: usize)
        ensures
            r == self@.align,
    {
        self.align
    }

    /// Bytes to add after this block so that what follows is aligned to `align`.
    pub fn padding_needed_for(&self, align: usize) -> (r: usize)
        requires
            align > 0,
        ensures
            r == padding_for(self@.size, align as int),
            r < align,
    {
        let rest: usize = self.size % align;
        if rest == 0 {
            0
        } else {
            align - rest
        }
    }

    /// The layout of this block followed by `next`, and the offset of `next`
    /// in it. There is padding before `next` where its alignment asks for it,
    /// and none after it.
    pub fn extend(&self, next: Layout) -> (r: Result<(Layout, usize), LayoutError>)
        requires
            self.valid(),
            next.valid(),
        ensures
            r.is_ok() <==> extend_spec(self@, next@).is_some(),
            r.is_ok() ==> Some((r.unwrap().0@, r.unwrap().1 as int)) == extend_spec(self@, next@),
            r.is_ok() ==> r.unwrap().0.valid(),
    {
        let align: usize = if self.align >= next.align {
            self.align
        } else {
            next.align
        };
        let padding: usize = self.padding_needed_for(next.align);
        let offset: usize = match self.size.checked_add(padding) {
            Some(offset) => offset,
            None => {
                return Err(LayoutError);
            },
        };
        let size: usize = match offset.checked_add(next.size) {
            Some(size) => size,
            None => {
                return Err(LayoutError);
            },
        };
        match Layout::from_size_align(size, align) {
            Ok(layout) => Ok((layout, offset)),
            Err(error) => Err(error),
        }
    }
}

} // verus!
