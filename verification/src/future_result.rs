//! The outcome of a scheduled task.
use crate::error::Result;
use vstd::prelude::*;

verus! {

/// The outcome of a task that was handed over, to be asked for when it is needed.
#[derive(Debug)]
pub struct FutureResult<T> {
    outcome: Result<T>,
}

impl<T> View for FutureResult<T> {
    type V = Result<T>;

    closed spec fn view(&self) -> Result<T> {
        self.outcome
    }
}

impl<T> FutureResult<T> {
    /// A task with the given outcome.
    pub fn new(outcome: Result<T>) -> (future: FutureResult<T>)
        ensures
            future@ == outcome,
    {
        FutureResult { outcome }
    }

    /// Waits for the task, and returns its outcome.
    pub fn wait(self) -> (outcome: Result<T>)
        ensures
            outcome == self@,
    {
        self.outcome
    }
}

} // verus!
