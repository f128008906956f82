//! A doubly-linked list whose nodes hold values of a size that is only known
//! at run time, each node being one block: a header, a descriptor of the
//! value's shape where the shape varies, and the value.

pub mod allocator;
pub mod array;
pub mod cloning;
pub mod cursor;
pub mod errors;
pub mod handle;
pub mod invariants;
pub mod iter;
pub mod laws;
pub mod layout;
pub mod links;
pub mod list;
pub mod node;
pub mod push;
pub mod sized;
pub mod string;
pub mod uninit;
pub mod unsize;

pub use allocator::{AllocError, Allocator, Budget, Global};
pub use cursor::cursor::Cursor;
pub use cursor::cursor_mut::CursorMut;
pub use errors::AllocateError;
pub use handle::StructureHandle;
pub use iter::{IntoIter, IntoIterBoxed, Iter, IterMut, RawIter};
pub use layout::{Layout, LayoutError};
pub use list::{DynList, Header};
pub use node::{Arena, NodePtr};
pub use uninit::MaybeUninitNode;
