//! Errors of starting the pool of worker threads.
use vstd::prelude::*;

verus! {

/// Why the thread pool could not be started.
#[derive(Debug)]
pub enum WorkerPoolErr {
    ThreadPoolStartError,
    /// Any other failure, described in words.
    Other(String),
}

} // verus!
