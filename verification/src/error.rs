//! The ways in which an operation of this library can fail.

use vstd::prelude::*;

verus! {

#[derive(Clone, Copy, Debug, PartialEq, Eq, Structural)]
pub enum FetchError {
    /// The host knows no file under the path: its length query failed.
    NotFound,
    /// A fetch failed, or handed back a buffer that is not the chunk asked for.
    TransferFailure,
    /// The operation would write to, delete from, probe or watch the store, which
    /// is read-only from here.
    Unsupported,
    /// A holder of the registry's lock failed while holding it.
    PoisonedState,
}

} // verus!
