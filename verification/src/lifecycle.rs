//! The system calls that make or replace a program: `fork`, `exec` and
//! `spawn`. They are re-exported by `syscall::process`.
use vstd::prelude::*;
use vstd::multiset::Multiset;
use crate::manager::TaskManager;
use crate::stride_scheduler::{SchedBlock, BIG_STRIDE};

verus! {

/// A task that fork or spawn made: its pid, the handle that joins the
/// parent's children and the handle that goes to the ready queue.
pub struct NewTask<C> {
    pub pid: usize,
    pub child: C,
    pub queued: C,
}

/// `task` can join the ready queue: its pid is not the parent's and no
/// ready task has it.
pub open spec fn fresh<C>(task: NewTask<C>, current: usize, manager: TaskManager<C>) -> bool {
    task.pid != current && !manager.tasks().contains_key(task.pid)
}

/// What fork or spawn did with the task `o` that was made: nothing and `-1`
/// when none was made or it is not fresh; else it joined `children` and the
/// ready tasks, and its pid is the answer.
pub open spec fn adopted<C>(
    o: Option<NewTask<C>>,
    current: usize,
    pre_children: Seq<C>,
    post_children: Seq<C>,
    pre: TaskManager<C>,
    post_tasks: Map<usize, C>,
    r: isize,
) -> bool {
    match o {
        Some(t) => if fresh(t, current, pre) {
            &&& r == t.pid as isize
            &&& post_children == pre_children.push(t.child)
            &&& post_tasks == pre.tasks().insert(t.pid, t.queued)
        } else {
            &&& r == -1
            &&& post_children == pre_children
            &&& post_tasks == pre.tasks()
        },
        None => {
            &&& r == -1
            &&& post_children == pre_children
            &&& post_tasks == pre.tasks()
        },
    }
}

/// The scheduling blocks after fork or spawn made `o`: a fresh block for a
/// fresh task, else the blocks of `pre` as they were.
pub open spec fn blocks_after<C>(o: Option<NewTask<C>>, current: usize, pre: TaskManager<C>) -> Multiset<
    SchedBlock,
> {
    match o {
        Some(t) => if fresh(t, current, pre) {
            pre.sched().blocks().insert(SchedBlock::with_fields(t.pid, 0, BIG_STRIDE / 16))
        } else {
            pre.sched().blocks()
        },
        None => pre.sched().blocks(),
    }
}

/// A made task whose pid is neither the parent's nor that of a ready task
/// is always adopted, whichever pid is the larger: it joins the children and
/// the ready tasks with a fresh block, and its pid is the answer.
pub proof fn lemma_fresh_task_adopted<C>(
    t: NewTask<C>,
    current: usize,
    pre_children: Seq<C>,
    post_children: Seq<C>,
    pre: TaskManager<C>,
    post_tasks: Map<usize, C>,
    r: isize,
)
    requires
        t.pid != current,
        !pre.tasks().contains_key(t.pid),
        adopted(Some(t), current, pre_children, post_children, pre, post_tasks, r),
    ensures
        r == t.pid as isize,
        post_children == pre_children.push(t.child),
        post_tasks == pre.tasks().insert(t.pid, t.queued),
        blocks_after(Some(t), current, pre) == pre.sched().blocks().insert(
            SchedBlock::with_fields(t.pid, 0, BIG_STRIDE / 16),
        ),
{
}

fn adopt<C>(
    t: NewTask<C>,
    current: usize,
    children: &mut Vec<C>,
    manager: &mut TaskManager<C>,
) -> (r: isize)
    requires
        old(manager).wf(),
        old(manager).sched().queue().len() < usize::MAX / 2,
    ensures
        final(manager).wf(),
        adopted(Some(t), current, old(children)@, final(children)@, *old(manager), final(manager).tasks(), r),
        final(manager).sched().blocks() == blocks_after(Some(t), current, *old(manager)),
{
    if t.pid == current || manager.contains_task(t.pid) {
        return -1;
    }
    let pid = t.pid;
    children.push(t.child);
    manager.add(pid, t.queued, None);
    #[verifier::truncate]
    (pid as isize)
}

/// Forks the current task, whose pid is `current`: `fork` makes the child (a
/// copy of the parent whose own call answers 0) or gives `None` when it could
/// not be made. The child joins `children` and the ready queue, and its pid
/// is the answer; `-1` when no fresh child was made.
pub fn sys_fork<C, F: FnOnce() -> Option<NewTask<C>>>(
    current: usize,
    children: &mut Vec<C>,
    manager: &mut TaskManager<C>,
    fork: F,
) -> (r: isize)
    requires
        old(manager).wf(),
        old(manager).sched().queue().len() < usize::MAX / 2,
        call_requires(fork, ()),
    ensures
        final(manager).wf(),
        exists|o: Option<NewTask<C>>|
            #[trigger] call_ensures(fork, (), o) && adopted(
                o,
                current,
                old(children)@,
                final(children)@,
                *old(manager),
                final(manager).tasks(),
                r,
            ) && final(manager).sched().blocks() == blocks_after(o, current, *old(manager)),
{
    let made = fork();
    match made {
        Some(t) => adopt(t, current, children, manager),
        None => -1,
    }
}

/// Replaces the program of the current task by the app named `path` (`None`
/// when the name could not be read from user memory): `load` finds the app's
/// image and `build` makes an address space from it, which becomes `image`.
/// Returns `0`, or `-1` with `image` unchanged when any step fails. Nothing
/// else of the task changes.
pub fn sys_exec<P, D, I, L: FnOnce(&P) -> Option<D>, B: FnOnce(D) -> Option<I>>(
    path: Option<P>,
    image: &mut I,
    load: L,
    build: B,
) -> (r: isize)
    requires
        forall|p: &P| #[trigger] call_requires(load, (p,)),
        forall|d: D| #[trigger] call_requires(build, (d,)),
    ensures
        r == 0 || r == -1,
        r == -1 ==> *final(image) == *old(image),
        path is None ==> r == -1,
        r == 0 ==> path is Some && exists|d: D|
            #[trigger] call_ensures(load, (&path->0,), Some(d)) && call_ensures(
                build,
                (d,),
                Some(*final(image)),
            ),
        r == -1 && path is Some ==> exists|o: Option<D>|
            #[trigger] call_ensures(load, (&path->0,), o) && (o is None || call_ensures(
                build,
                (o->0,),
                None,
            )),
{
    match path {
        Some(p) => match load(&p) {
            Some(data) => match build(data) {
                Some(new_image) => {
                    *image = new_image;
                    0
                },
                None => -1,
            },
            None => -1,
        },
        None => -1,
    }
}

/// Starts the app named `path` (`None` when the name could not be read from
/// user memory) as a new child of the current task, whose pid is `current`:
/// `spawn` makes the child or gives `None` when there is no such app. The
/// child joins `children` and the ready queue, and its pid is the answer;
/// `-1` when no fresh child was made.
pub fn sys_spawn<P, C, S: FnOnce(&P) -> Option<NewTask<C>>>(
    path: Option<P>,
    current: usize,
    children: &mut Vec<C>,
    manager: &mut TaskManager<C>,
    spawn: S,
) -> (r: isize)
    requires
        old(manager).wf(),
        old(manager).sched().queue().len() < usize::MAX / 2,
        forall|p: &P| #[trigger] call_requires(spawn, (p,)),
    ensures
        final(manager).wf(),
        path is None ==> r == -1 && final(children)@ == old(children)@ && *final(manager)
            == *old(manager),
        path is Some ==> exists|o: Option<NewTask<C>>|
            #[trigger] call_ensures(spawn, (&path->0,), o) && adopted(
                o,
                current,
                old(children)@,
                final(children)@,
                *old(manager),
                final(manager).tasks(),
                r,
            ) && final(manager).sched().blocks() == blocks_after(o, current, *old(manager)),
{
    match path {
        Some(p) => match spawn(&p) {
            Some(t) => adopt(t, current, children, manager),
            None => -1,
        },
        None => -1,
    }
}

} // verus!
