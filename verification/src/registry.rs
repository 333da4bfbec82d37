//! The process handle registry: the one slot that holds the current bridge
//! process, or nothing.
//!
//! The registry is generic in the handle, so that the caller keeps whatever
//! stands for a running process in it. The caller guards the registry with
//! its own lock; each operation here is one step under that lock.

use vstd::prelude::*;

verus! {

/// The slot for the current bridge process. Its view is the handle that it
/// holds, if any: there is never more than one.
pub struct Registry<H> {
    slot: Option<H>,
}

impl<H> View for Registry<H> {
    type V = Option<H>;

    closed spec fn view(&self) -> Option<H> {
        self.slot
    }
}

impl<H> Registry<H> {
    /// Creates an empty registry.
    pub fn new() -> (r: Registry<H>)
        ensures
            r@ is None,
    {
        Registry { slot: None }
    }

    /// Stores `handle` as the current process and returns the handle that it
    /// replaces, if there was one.
    pub fn install(&mut self, handle: H) -> (replaced: Option<H>)
        ensures
            final(self)@ == Some(handle),
            replaced == old(self)@,
    {
        let mut next: Option<H> = Some(handle);
        core::mem::swap(&mut self.slot, &mut next);
        next
    }

    /// Removes the current handle and returns it, leaving the registry
    /// empty.
    pub fn take(&mut self) -> (taken: Option<H>)
        ensures
            final(self)@ is None,
            taken == old(self)@,
    {
        let mut next: Option<H> = None;
        core::mem::swap(&mut self.slot, &mut next);
        next
    }

    /// Whether a handle is present.
    pub fn is_alive(&self) -> (r: bool)
        ensures
            r == (self@ is Some),
    {
        self.slot.is_some()
    }

    /// The current handle, without removing it.
    pub fn current(&self) -> (r: Option<&H>)
        ensures
            r is Some <==> self@ is Some,
            r matches Some(h) ==> self@ == Some(*h),
    {
        self.slot.as_ref()
    }
}

} // verus!
