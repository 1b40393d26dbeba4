//! Pools that run jobs on other threads.

use crate::error::KvStoreError;
use vstd::prelude::*;

verus! {

/// A pool of threads that jobs are handed to.
///
/// The pools differ in how many threads they keep and in how a job finds
/// its thread; to the one who hands a job in they are all alike.
pub trait ThreadPool {
    /// Makes a pool that is meant to keep `threads` threads.
    fn new(threads: u32) -> (out: Result<Self, KvStoreError>) where Self: Sized;

    /// Hands a job to the pool and returns without waiting for it to run.
    /// The job must be one that can be called.
    fn spawn<F>(&self, job: F) where F: FnOnce() + Send + 'static
        requires
            job.requires(()),
    ;
}

} // verus!
