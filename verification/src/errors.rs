//! Why a node could not be made.

use crate::allocator::AllocError;
use crate::layout::{Layout, LayoutError};
use vstd::prelude::*;

verus! {

#[derive(Clone, Debug, PartialEq, Eq)]
enum Internal {
    Layout { error: LayoutError },
    Alloc { source: AllocError, layout: Layout },
}

/// The error of an operation that makes a node: either no layout exists for
/// the node, or the allocator declined the layout. It carries the value that
/// was to be stored, so that a failed insertion loses nothing.
#[derive(Clone, Debug, PartialEq, Eq)]
pub struct AllocateError<Value = ()> {
    internal: Internal,
    value: Value,
}

impl<Value> AllocateError<Value> {
    /// The layout that the allocator declined; `None` where no layout exists
    /// for the node.
    pub closed spec fn spec_layout(&self) -> Option<Layout> {
        match self.internal {
            Internal::Layout { .. } => None,
            Internal::Alloc { layout, .. } => Some(layout),
        }
    }

    /// The value that the error carries.
    pub closed spec fn spec_value(&self) -> Value {
        self.value
    }

    /// An error is what its layout and its value are.
    pub proof fn lemma_extensional(a: Self, b: Self)
        requires
            a.spec_layout() == b.spec_layout(),
            a.spec_value() == b.spec_value(),
        ensures
            a == b,
    {
    }

    /// Gets the value held in the error.
    pub fn into_value(self) -> (r: Value)
        ensures
            r == self.spec_value(),
    {
        self.value
    }

    /// Separates the value from the error.
    pub fn into_parts(self) -> (r: (Value, AllocateError))
        ensures
            r.0 == self.spec_value(),
            r.1.spec_layout() == self.spec_layout(),
    {
        (self.value, AllocateError { internal: self.internal, value: () })
    }

    /// The value of a result that is known to hold one.
    pub fn unwrap_result<T>(result: Result<T, Self>) -> (r: T)
        requires
            result.is_ok(),
        ensures
            result == Ok::<T, Self>(r),
    {
        match result {
            Ok(value) => value,
            Err(_) => unreached(),
        }
    }

    /// Gets the layout that the allocator declined.
    ///
    /// If this returns `None`, no layout exists for the node.
    pub fn layout(&self) -> (r: Option<Layout>)
        ensures
            r == self.spec_layout(),
    {
        match self.internal {
            Internal::Layout { .. } => None,
            Internal::Alloc { layout, .. } => Some(layout),
        }
    }

    /// Replaces the value in the error by what `f` makes of it.
    pub fn map<U, F>(self, f: F) -> (r: AllocateError<U>) where F: FnOnce(Value) -> U
        requires
            f.requires((self.spec_value(),)),
        ensures
            f.ensures((self.spec_value(),), r.spec_value()),
            r.spec_layout() == self.spec_layout(),
    {
        let (value, empty) = self.into_parts();
        empty.with_value(f(value))
    }
}

impl AllocateError {
    /// Places a value into the error.
    pub fn with_value<Value>(self, value: Value) -> (r: AllocateError<Value>)
        ensures
            r.spec_value() == value,
            r.spec_layout() == self.spec_layout(),
    {
        AllocateError { internal: self.internal, value }
    }

    /// The error of a node for which no layout exists.
    pub closed spec fn spec_new_layout(source: LayoutError) -> Self {
        AllocateError { internal: Internal::Layout { error: source }, value: () }
    }

    /// The error of a node for which no layout exists.
    pub fn new_layout(source: LayoutError) -> (r: Self)
        ensures
            r == Self::spec_new_layout(source),
            r.spec_layout().is_none(),
    {
        AllocateError { internal: Internal::Layout { error: source }, value: () }
    }

    /// The error of a node whose layout the allocator declined.
    pub fn new_alloc(source: AllocError, layout: Layout) -> (r: Self)
        ensures
            r.spec_layout() == Some(layout),
    {
        AllocateError { internal: Internal::Alloc { source, layout }, value: () }
    }
}

impl From<LayoutError> for AllocateError {
    fn from(value: LayoutError) -> (r: Self) {
        Self::new_layout(value)
    }
}

impl vstd::std_specs::convert::FromSpecImpl<LayoutError> for AllocateError {
    open spec fn obeys_from_spec() -> bool {
        true
    }

    open spec fn from_spec(value: LayoutError) -> Self {
        AllocateError::spec_new_layout(value)
    }
}

impl<Value> From<AllocateError<Value>> for AllocError {
    fn from(value: AllocateError<Value>) -> (r: Self) {
        AllocError
    }
}

impl<Value> vstd::std_specs::convert::FromSpecImpl<AllocateError<Value>> for AllocError {
    open spec fn obeys_from_spec() -> bool {
        true
    }

    open spec fn from_spec(value: AllocateError<Value>) -> Self {
        AllocError
    }
}

} // verus!
