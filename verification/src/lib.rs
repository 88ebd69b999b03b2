//! A shared allocation block that holds a fixed-size header followed by a
//! run of elements, or by text, behind a handle one pointer wide.

pub mod arc;
pub mod header;
pub mod layout;

pub use arc::Arc;
pub use header::{BuildError, HeaderSlice, HeaderSliceWithLength, HeaderWithLength};
pub use layout::{CompositeLayout, LayoutError, TypeLayout};
