//! The number of search threads (Lazy SMP). Running the threads is left to
//! the caller.

use vstd::prelude::*;

verus! {

/// The remainder of Rust's `%` on integers: it takes the sign of `a`.
pub open spec fn trunc_rem(a: int, b: int) -> int {
    if a >= 0 {
        a % b
    } else {
        -((-a) % b)
    }
}

pub struct ThreadPool {
    pub num_threads: usize,
}

impl ThreadPool {
    /// A pool of `num_threads` threads (at least one).
    pub fn new(num_threads: usize) -> (p: ThreadPool)
        ensures
            p.num_threads == if num_threads < 1 { 1 } else { num_threads },
    {
        ThreadPool { num_threads: if num_threads < 1 { 1 } else { num_threads } }
    }

    /// Sets the number of threads (at least one).
    pub fn resize(&mut self, num_threads: usize)
        ensures
            final(self).num_threads == if num_threads < 1 { 1 } else { num_threads },
    {
        self.num_threads = if num_threads < 1 { 1 } else { num_threads };
    }

    /// The depth helper thread `i` starts from: 1, 2 or 3 by turns (the
    /// index taken as an `i32`, as the thread loop counts).
    pub fn helper_start_depth(i: usize) -> (d: i32)
        ensures
            d == 1 + trunc_rem(i as i32 as int, 3),
    {
        let w = i as i32;
        1 + w % 3
    }
}

} // verus!
