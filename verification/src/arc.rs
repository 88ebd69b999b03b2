//! The shared allocation block and the handle that owns it.
//!
//! A block is a strong count followed by a payload. This module creates
//! blocks and reads them. A block starts with one handle and a count of one;
//! the protocol that duplicates and releases handles, and with it every later
//! change of the count, lies outside this crate.

use vstd::prelude::*;

verus! {

/// A shared allocation block: the strong count, then the payload.
///
/// The count is held as a plain word. In a block that handles share it is
/// an atomic word, and [`crate::layout::CompositeLayout`] lays it out as
/// one.
pub struct ArcInner<T> {
    count: usize,
    data: T,
}

/// A handle to a shared allocation block, one pointer wide.
///
/// While a handle exists, the block counts at least one. The payload can be
/// read through the handle and cannot be changed through it.
pub struct Arc<T> {
    p: Box<ArcInner<T>>,
}

impl<T> View for Arc<T> {
    type V = T;

    /// The payload of the block.
    closed spec fn view(&self) -> T {
        self.p.data
    }
}

impl<T> Arc<T> {
    #[verifier::type_invariant]
    closed spec fn counted(self) -> bool {
        self.p.count >= 1
    }

    /// The number of handles that the block counts.
    pub closed spec fn spec_strong_count(&self) -> usize {
        self.p.count
    }

    /// Allocates a block for `data`, sets its count to one and returns the
    /// handle to it.
    pub fn new(data: T) -> (arc: Self)
        ensures
            arc@ == data,
            arc.strong_count() == 1,
    {
        Arc { p: Box::new(ArcInner { count: 1, data }) }
    }

    /// Takes the payload out of the block, which ends with its handle.
    pub fn into_inner(self) -> (data: T)
        ensures
            data == self@,
    {
        let inner = *self.p;
        inner.data
    }

    /// The number of handles that the block counts, which is at least one.
    #[verifier::when_used_as_spec(spec_strong_count)]
    pub fn strong_count(&self) -> (n: usize)
        ensures
            n == self.strong_count(),
            n >= 1,
    {
        proof {
            use_type_invariant(self);
        }
        self.p.count
    }
}

impl<T> core::ops::Deref for Arc<T> {
    type Target = T;

    /// The payload of the block.
    fn deref(&self) -> (payload: &T)
        ensures
            *payload == self@,
    {
        &self.p.data
    }
}

} // verus!
