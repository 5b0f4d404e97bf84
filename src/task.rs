//! Task control blocks: lifecycle status, address space, syscall counters
//! and the time a task was first scheduled.
use vstd::prelude::*;

use crate::config::MAX_SYSCALL_NUM;
use crate::page_table::PageTable;

verus! {

/// Lifecycle of a task.
#[derive(Clone, Copy, Debug, PartialEq, Eq, Structural)]
pub enum TaskStatus {
    UnInit,
    Ready,
    Running,
    Exited,
}

/// A counter after one more call: one higher, but never past `u32::MAX`.
pub open spec fn bumped(c: u32) -> u32 {
    if c == u32::MAX {
        c
    } else {
        (c + 1) as u32
    }
}

/// Per-task state.
pub struct TaskControlBlock {
    pub status: TaskStatus,
    pub page_table: PageTable,
    pub syscall_times: [u32; MAX_SYSCALL_NUM],
    /// Monotonic time, in microseconds, when the task first ran.
    pub first_run: Option<usize>,
}

impl TaskControlBlock {
    /// A ready task with an empty address space and zeroed counters.
    pub fn new() -> (r: TaskControlBlock)
        ensures
            r.status == TaskStatus::Ready,
            r.page_table@ == Map::<usize, crate::page_table::PageTableEntry>::empty(),
            forall|i: int| 0 <= i < MAX_SYSCALL_NUM ==> #[trigger] r.syscall_times@[i] == 0,
            r.first_run is None,
    {
        TaskControlBlock {
            status: TaskStatus::Ready,
            page_table: PageTable::new(),
            syscall_times: [0u32; MAX_SYSCALL_NUM],
            first_run: None,
        }
    }

    /// Counts one call of syscall `id`, saturating at `u32::MAX`.
    pub fn count_syscall(&mut self, id: usize)
        requires
            id < MAX_SYSCALL_NUM,
        ensures
            final(self).syscall_times@ == old(self).syscall_times@.update(
                id as int,
                bumped(old(self).syscall_times@[id as int]),
            ),
            final(self).status == old(self).status,
            final(self).page_table@ == old(self).page_table@,
            final(self).first_run == old(self).first_run,
    {
        let c: u32 = self.syscall_times[id];
        self.syscall_times[id] = if c < u32::MAX {
            c + 1
        } else {
            c
        };
    }

    /// Microseconds since the task first ran, at time `now`; zero for a
    /// task that never ran (or a clock reading older than its start).
    pub fn elapsed(&self, now: usize) -> (r: usize)
        ensures
            r == (match self.first_run {
                Some(t) => if now >= t { (now - t) as usize } else { 0usize },
                None => 0usize,
            }),
    {
        match self.first_run {
            Some(t) => if now >= t {
                now - t
            } else {
                0
            },
            None => 0,
        }
    }
}

} // verus!
