//! Supervisor-call layer of a small teaching kernel: per-task address spaces,
//! a copy primitive into user memory, and task bookkeeping.
use vstd::prelude::*;

pub mod addr;
pub mod config;
pub mod copy;
pub mod frame;
pub mod kernel;
pub mod lemmas;
pub mod page_table;
pub mod syscall;
pub mod task;

pub use kernel::Kernel;
pub use syscall::{
    sys_exit, sys_get_time, sys_mmap, sys_munmap, sys_set_priority, sys_task_info, sys_yield,
    syscall, TaskInfo, TimeVal,
};
pub use task::TaskStatus;

verus! {

} // verus!
