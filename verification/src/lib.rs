use vstd::prelude::*;

pub mod config;
pub mod timer;
pub mod task;
pub mod order;
pub mod binary_heap;
pub mod stride_order;
pub mod stride_scheduler;
pub mod manager;
pub mod mailbox;
pub mod vfs;
pub mod syscall;
pub mod lifecycle;

verus! {
} // verus!
