//! A wrapper that carries an error value across thread boundaries.

use vstd::prelude::*;

verus! {

/// An error value wrapped for hand-off between threads; the driver callbacks
/// report errors produced on their own threads through this.
#[derive(Debug)]
pub struct SyncError<T>(pub T);

impl<T> SyncError<T> {
    /// Wrap an error value.
    pub fn new(value: T) -> (r: SyncError<T>)
        ensures
            r.0 == value,
    {
        SyncError(value)
    }

    /// The wrapped error value.
    pub fn into_inner(self) -> (r: T)
        ensures
            r == self.0,
    {
        self.0
    }
}

} // verus!
