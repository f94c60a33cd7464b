//! The states of a task, and what its exit does to it.
use vstd::prelude::*;

verus! {

#[derive(Copy, Clone, PartialEq, Eq, Structural)]
pub enum TaskStatus {
    Ready,
    Running,
    Zombie,
}

/// The exit of a task with `exit_code`: it becomes a zombie that keeps the
/// code for its parent, and its children, in their order, go to the end of
/// `init_children`, the children of the initial process.
pub fn exit_task<C>(
    status: &mut TaskStatus,
    code: &mut i32,
    children: &mut Vec<C>,
    init_children: &mut Vec<C>,
    exit_code: i32,
)
    ensures
        *final(status) == TaskStatus::Zombie,
        *final(code) == exit_code,
        final(children)@ == Seq::<C>::empty(),
        final(init_children)@ == old(init_children)@ + old(children)@,
{
    *status = TaskStatus::Zombie;
    *code = exit_code;
    init_children.append(children);
}

} // verus!
