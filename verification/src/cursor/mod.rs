//! Cursors: places in a list from which to read it and to change it.

pub mod array;
pub mod cursor;
pub mod cursor_mut;
pub mod sized;
pub mod string;
