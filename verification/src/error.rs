//! The failures that a sync cycle or a store operation can end in.

use vstd::prelude::*;

verus! {

/// Why a cycle was aborted or a row was skipped.
#[derive(Clone, Copy, Debug, PartialEq, Eq, Structural)]
pub enum SyncError {
    /// The upstream could not be reached at all.
    UpstreamUnavailable,
    /// The upstream answered with a status outside 200..=299.
    UpstreamStatusError { code: u16 },
    /// The upstream answered, but the body does not have the expected shape.
    MalformedResponse,
    /// The store could not be reached.
    StoreUnavailable,
    /// The store refused a single insert or update.
    StoreWriteError,
}

} // verus!
