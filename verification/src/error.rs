//! Errors of the sink lifecycle.

use vstd::prelude::*;

verus! {

/// Why a shutdown did not end cleanly.
#[derive(Debug, Clone, Copy, PartialEq, Eq, Structural)]
#[non_exhaustive]
pub enum ShutdownError {
    /// The configured `shutdown_timeout` elapsed before all internal tasks
    /// (drain workers and the overload monitor) finished.
    ///
    /// This usually means that a drain is still running and exceeded the budget.
    /// Buffered items may remain undrained.
    TimedOut,
    /// An internal task panicked.
    ///
    /// A panic inside a drain is caught per batch and does not end the worker, so
    /// it does not produce this error; it indicates a panic elsewhere in a worker
    /// or in the overload monitor.
    WorkerPanicked,
}

impl ShutdownError {
    /// The error in words.
    pub fn message(&self) -> (text: &'static str)
        ensures
            text@ == match *self {
                ShutdownError::TimedOut => "sink shutdown timed out before all workers finished"@,
                ShutdownError::WorkerPanicked => "a sink worker panicked during shutdown"@,
            },
    {
        match self {
            ShutdownError::TimedOut => "sink shutdown timed out before all workers finished",
            ShutdownError::WorkerPanicked => "a sink worker panicked during shutdown",
        }
    }
}

} // verus!
