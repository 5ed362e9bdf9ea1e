//! The settings of the queue that hands work to a pool of threads.
use vstd::prelude::*;

verus! {

/// A queue processor that runs its work on `thread_count` threads.
pub struct Processor {
    thread_count: i32,
}

impl View for Processor {
    type V = i32;

    /// The number of threads.
    closed spec fn view(&self) -> i32 {
        self.thread_count
    }
}

impl Processor {
    /// A processor with `thread_count` threads.
    pub fn new(thread_count: i32) -> (res: Processor)
        ensures
            res@ == thread_count,
    {
        Processor { thread_count }
    }

    /// The number of threads the processor runs.
    pub fn thread_count(&self) -> (res: i32)
        ensures
            res == self@,
    {
        self.thread_count
    }
}

} // verus!
