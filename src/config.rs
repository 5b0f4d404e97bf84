//! Kernel-wide constants.
use vstd::prelude::*;

verus! {

/// Size of one page and of one physical frame, in bytes.
pub const PAGE_SIZE: usize = 4096;

/// Number of slots in a task's syscall counter table.
pub const MAX_SYSCALL_NUM: usize = 500;

pub const SYSCALL_EXIT: usize = 93;
pub const SYSCALL_YIELD: usize = 124;
pub const SYSCALL_GET_TIME: usize = 169;
pub const SYSCALL_SET_PRIORITY: usize = 140;
pub const SYSCALL_MUNMAP: usize = 215;
pub const SYSCALL_MMAP: usize = 222;
pub const SYSCALL_TASK_INFO: usize = 410;

/// Microseconds in one second.
pub const MICRO_PER_SEC: usize = 1_000_000;

} // verus!
