//! Persistent task scheduler for backward passes.
//!
//! The dual-pass backward decomposes into independently schedulable tasks:
//! query-owner CSR tasks, ordinary KV-owner CSC tasks, hot KV chunks,
//! slab-dC reductions, and hot-partial reductions.  A shared atomic counter
//! hands out work items.
use vstd::prelude::*;

use std::sync::atomic::AtomicU32;
use std::sync::atomic::Ordering;

use crate::config::ExecutionPolicy;

verus! {

/// A unit of backward work.
#[derive(Debug, Clone, Copy, PartialEq, Eq, Structural)]
pub enum TaskKind {
    /// CSR query-owner pass: compute `dQ` for a query / head-group slice.
    QueryDQ,
    /// CSC KV-owner pass: compute `dC` for an ordinary routing block.
    OrdinaryDC,
    /// Hot-block chunk: compute a numbered chunk of a hot routing block's `dC`.
    HotDCChunk,
    /// Reduce hot-block chunk partials into final `dC`.
    HotDCReduce,
    /// Reduce slab-level `dC` partials into global `dC`.
    SlabDCReduce,
}

/// A persistent task queue with atomic counter.
pub struct TaskQueue {
    counter: AtomicU32,
    total: u32,
    policy: ExecutionPolicy,
}

impl TaskQueue {
    /// The number of tasks in the queue.
    pub closed spec fn spec_total(&self) -> u32 {
        self.total
    }

    /// The execution policy the queue was made with.
    pub closed spec fn spec_policy(&self) -> ExecutionPolicy {
        self.policy
    }

    /// Create a new task queue with `total` work items.
    pub fn new(total: u32, policy: ExecutionPolicy) -> (r: Self)
        ensures
            r.spec_total() == total,
            r.spec_policy() == policy,
    {
        Self { counter: AtomicU32::new(0), total, policy }
    }

    /// The task that a drawn ticket stands for: the ticket itself while it
    /// is below `total`, and none once every task has been handed out.
    pub fn task_for_ticket(ticket: u32, total: u32) -> (r: Option<u32>)
        ensures
            r == if ticket < total {
                Some(ticket)
            } else {
                None::<u32>
            },
    {
        if ticket < total {
            Some(ticket)
        } else {
            None
        }
    }

    /// Claim the next task index.  Returns `None` when all tasks are claimed.
    pub fn next(&self) -> (r: Option<u32>)
        ensures
            r matches Some(i) ==> i < self.spec_total(),
    {
        let ticket = self.counter.fetch_add(1, Ordering::Relaxed);
        Self::task_for_ticket(ticket, self.total)
    }

    /// Reset the counter for a new pass.
    pub fn reset(&self) {
        self.counter.store(0, Ordering::Relaxed);
    }

    /// Return the total number of tasks.
    pub fn total(&self) -> (r: u32)
        ensures
            r == self.spec_total(),
    {
        self.total
    }

    /// Return a reference to the execution policy.
    pub fn policy(&self) -> (r: &ExecutionPolicy)
        ensures
            *r == self.spec_policy(),
    {
        &self.policy
    }
}

/// Compute the number of slab-dC reduction tasks.
///
/// Conservative upper bound: every routing block chosen in every slab.
pub fn slab_dc_reduction_count(num_slabs: u32, num_routing_blocks: u32) -> (r: u32)
    requires
        num_slabs * num_routing_blocks <= u32::MAX,
    ensures
        r == num_slabs * num_routing_blocks,
{
    num_slabs * num_routing_blocks
}

} // verus!
