//! Errors of the backend and its helpers.
use vstd::prelude::*;

verus! {

/// What can go wrong in the backend.
#[derive(Debug, PartialEq, Eq)]
pub enum BackendError {
    /// `initialize` was called on a backend that is no longer uninitialized.
    AlreadyInitialized,
    /// No target process was configured.
    MissingTarget,
    /// `start` was called outside the ready state.
    NotReady,
    /// `stop` or `report` was called outside the running state.
    NotRunning,
    /// The sampler refused to start; the cause as it reported it.
    SamplerStartFailed(String),
}

} // verus!
