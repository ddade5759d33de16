//! Bookkeeping of the task executor's consumer: how many submitted tasks
//! have not yet delivered their one result.
use vstd::prelude::*;

verus! {

/// The count of tasks submitted and not yet answered.
#[derive(Debug, Clone, Copy, PartialEq, Eq)]
pub struct TaskTracker {
    pub pending: usize,
}

impl TaskTracker {
    /// No task in flight.
    pub fn new() -> (r: TaskTracker)
        ensures
            r.pending == 0,
    {
        TaskTracker { pending: 0 }
    }

    /// A task was submitted.
    pub fn submitted(&mut self)
        requires
            old(self).pending < usize::MAX,
        ensures
            final(self).pending == old(self).pending + 1,
    {
        self.pending = self.pending + 1;
    }

    /// A result arrived: one task fewer is in flight. A result with no task
    /// in flight leaves the count at zero.
    pub fn settled(&mut self)
        ensures
            final(self).pending == if old(self).pending > 0 {
                old(self).pending - 1
            } else {
                0
            },
    {
        if self.pending > 0 {
            self.pending = self.pending - 1;
        }
    }

    /// Whether every submitted task has answered.
    pub fn is_idle(&self) -> (r: bool)
        ensures
            r == (self.pending == 0),
    {
        self.pending == 0
    }
}

/// Since every task delivers exactly one result, settling once per
/// submitted task brings the count back to where it was.
pub proof fn law_one_result_per_task_balances(start: nat, n: nat)
    ensures
        settle_times(start + n, n) == start,
    decreases n,
{
    if n > 0 {
        law_one_result_per_task_balances(start, (n - 1) as nat);
        assert(settle_times(start + n, n) == settle_times((start + n - 1) as nat, (n - 1) as nat));
    }
}

/// The count after `n` results arrive with `pending` tasks in flight.
pub open spec fn settle_times(pending: nat, n: nat) -> nat
    decreases n,
{
    if n == 0 {
        pending
    } else {
        settle_times(if pending > 0 { (pending - 1) as nat } else { 0 }, (n - 1) as nat)
    }
}

} // verus!
