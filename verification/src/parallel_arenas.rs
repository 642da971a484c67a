//! Arena handling for transformations that run on worker threads, each with
//! an allocator of its own, whose results are gathered afterwards.
use vstd::prelude::*;
use oxc_allocator::Allocator;

verus! {

/// The arena allocator of the JavaScript toolchain, carried through opaquely.
#[verifier::external_type_specification]
#[verifier::external_body]
pub struct ExAllocator(Allocator);

/// A fresh, empty arena: calls `oxc_allocator::Allocator::default()`.
/// Nothing is stated of the value, which is only handed on.
#[verifier::external_body]
pub(crate) fn new_allocator() -> Allocator {
    Allocator::default()
}

/// The number of worker threads of the current thread pool:
/// calls `rayon::current_num_threads()`. The number depends on the machine
/// and on how the pool was built; what is stated is that a pool has at least
/// one thread (rayon-core builds `min(n, max_num_threads())` workers, where
/// `n` is a requested count above zero, or else `RAYON_NUM_THREADS` above
/// zero, or else `available_parallelism`, a non-zero count, or 1).
#[verifier::external_body]
pub(crate) fn current_worker_count() -> (r: usize)
    ensures
        r >= 1,
{
    rayon::current_num_threads()
}

/// What a parallel transformation hands back: the result kept in the main
/// arena, how many workers the pool had and how many items were processed.
#[derive(Debug, Clone)]
pub struct ParallelTransformResult<T> {
    pub main_arena_result: T,
    pub worker_count: usize,
    pub items_processed: usize,
}

/// Gathers the per-item results of a parallel run: the first result is the
/// one kept in the main arena. There must be at least one result.
pub fn collect_parallel_result<T>(
    results: Vec<T>,
    worker_count: usize,
    items_processed: usize,
) -> (r: ParallelTransformResult<T>)
    requires
        results.len() > 0,
    ensures
        r.main_arena_result == results[0],
        r.worker_count == worker_count,
        r.items_processed == items_processed,
{
    let mut results = results;
    let first = results.remove(0);
    ParallelTransformResult { main_arena_result: first, worker_count, items_processed }
}

/// Moves the results of the worker arenas into the main arena. The values
/// are handed back as they are, in their order.
pub fn merge_into_main_arena<T: Clone>(
    local_results: Vec<T>,
    _main_arena: &Allocator,
) -> (r: Vec<T>)
    ensures
        r@ == local_results@,
{
    local_results
}

/// A pool that keeps an arena and hands it to each batch of work run through
/// it, so that batches reuse one allocator.
pub struct ArenaPool {
    max_threads: usize,
    arena: Allocator,
}

impl ArenaPool {
    /// The number of threads the pool is sized for.
    pub closed spec fn thread_limit(&self) -> usize {
        self.max_threads
    }

    /// The allocator the pool hands to every batch.
    pub closed spec fn arena(&self) -> &Allocator {
        &self.arena
    }

    /// A pool sized after the current thread pool (see `current_worker_count`):
    /// for at least one thread; the exact number depends on the machine.
    pub fn new() -> (r: Self)
        ensures
            r.thread_limit() >= 1,
    {
        ArenaPool { max_threads: current_worker_count(), arena: new_allocator() }
    }

    /// Runs `f` with the pool's allocator and hands back what it returned;
    /// every call on the same pool passes the same allocator.
    pub fn with_arena<F, R>(&self, f: F) -> (r: R) where F: FnOnce(&Allocator) -> R
        requires
            f.requires((self.arena(),)),
        ensures
            f.ensures((self.arena(),), r),
    {
        f(&self.arena)
    }
}

impl Default for ArenaPool {
    fn default() -> (r: Self)
        ensures
            r.thread_limit() >= 1,
    {
        Self::new()
    }
}

} // verus!
