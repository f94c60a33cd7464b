//! Process system calls.
use vstd::prelude::*;
use crate::config::{CLOCK_FREQ, PAGE_SIZE};
use crate::stride_scheduler::{SchedBlock, BIG_STRIDE, MIN_PRIORITY};
use crate::syscall::{
    all_answered, lemma_not_refused, page_floor, pages_answer, query_total, refused, surely, MAP_U,
    MAP_W,
};
use crate::task::TaskStatus;
pub use crate::lifecycle::{sys_exec, sys_fork, sys_spawn, NewTask};
use crate::timer::{time_val_from_clock, TimeVal, USEC_PER_SEC};

verus! {

/// Sets the priority of the current task, whose scheduling block is
/// `sched_block`: `-1` below `MIN_PRIORITY`, else the priority itself.
pub fn sys_set_priority(sched_block: &mut SchedBlock, priority: isize) -> (r: isize)
    ensures
        priority < MIN_PRIORITY ==> r == -1 && *final(sched_block) == *old(sched_block),
        priority >= MIN_PRIORITY ==> {
            &&& r == priority
            &&& final(sched_block).id_value() == old(sched_block).id_value()
            &&& final(sched_block).stride_value() == old(sched_block).stride_value()
            &&& final(sched_block).pass_value() == BIG_STRIDE / (priority as u64)
            &&& final(sched_block).valid()
        },
{
    if priority < MIN_PRIORITY {
        -1
    } else {
        sched_block.set_priority(priority);
        priority
    }
}

/// The size of a `TimeVal` in user memory: two machine words.
pub const TIME_VAL_SIZE: usize = 16;

/// Gets the time of day for the user buffer at `buf`, whose pages must be
/// user-writable; `clock` is the current value of the `time` register.
/// Returns the answer and the value to store at `buf`.
pub fn sys_get_time<M: Fn(usize, u8) -> bool>(buf: usize, clock: usize, is_mapped: &M) -> (r: (
    isize,
    Option<TimeVal>,
))
    requires
        buf + TIME_VAL_SIZE <= usize::MAX,
        query_total(*is_mapped, MAP_U | MAP_W),
    ensures
        r.0 == -1 || r.0 == 0,
        refused(*is_mapped, page_floor(buf as int), buf + TIME_VAL_SIZE, MAP_U | MAP_W) ==> r.0
            == -1,
        r.0 == -1 ==> r.1 is None && !surely(
            *is_mapped,
            page_floor(buf as int),
            buf + TIME_VAL_SIZE,
            MAP_U | MAP_W,
            true,
        ),
        r.0 == 0 ==> {
            &&& all_answered(
                *is_mapped,
                page_floor(buf as int),
                buf + TIME_VAL_SIZE,
                MAP_U | MAP_W,
                true,
            )
            &&& r.1 matches Some(t) && t.sec_value() == clock / CLOCK_FREQ && t.usec_value() == (
            clock % CLOCK_FREQ) / (CLOCK_FREQ / USEC_PER_SEC)
        },
{
    let start = buf / PAGE_SIZE * PAGE_SIZE;
    let end = buf + TIME_VAL_SIZE;
    if !pages_answer(start, end, MAP_U | MAP_W, true, is_mapped) {
        return (-1, None);
    }
    proof {
        lemma_not_refused(*is_mapped, start as int, end as int, MAP_U | MAP_W);
    }
    (0, Some(time_val_from_clock(clock)))
}

/// The pid of the current task.
pub fn sys_getpid(pid: usize) -> (r: isize)
    ensures
        r == pid as isize,
{
    #[verifier::truncate]
    (pid as isize)
}

/// `pid` selects a child with pid `child`: `-1` selects any child.
pub open spec fn selects(pid: isize, child: usize) -> bool {
    pid == -1 || #[verifier::truncate] (pid as usize) == child
}

/// `-1` selects every child; a pid of 0 or more selects exactly the child
/// with that pid.
pub proof fn lemma_selects(pid: isize, child: usize)
    ensures
        pid == -1 ==> selects(pid, child),
        pid >= 0 ==> (selects(pid, child) <==> pid == child),
{
}

/// `i` is the first child that `pid` selects and that is a zombie; each child
/// is given by its pid, its state and its exit code.
pub open spec fn first_zombie(children: Seq<(usize, TaskStatus, i32)>, pid: isize, i: int) -> bool {
    &&& 0 <= i < children.len()
    &&& selects(pid, children[i].0)
    &&& children[i].1 == TaskStatus::Zombie
    &&& forall|j: int|
        0 <= j < i ==> !(selects(pid, #[trigger] children[j].0) && children[j].1
            == TaskStatus::Zombie)
}

/// The zombie that a wait reaps is the earliest selected zombie: every
/// child that `pid` selects and that is a zombie lies at or after it.
pub proof fn lemma_first_zombie_earliest(
    children: Seq<(usize, TaskStatus, i32)>,
    pid: isize,
    i: int,
    j: int,
)
    requires
        first_zombie(children, pid, i),
        0 <= j < children.len(),
        selects(pid, children[j].0),
        children[j].1 == TaskStatus::Zombie,
    ensures
        i <= j,
        selects(pid, children[i].0),
        children[i].1 == TaskStatus::Zombie,
{
    if j < i {
        assert(!(selects(pid, children[j].0) && children[j].1 == TaskStatus::Zombie));
    }
}

/// What a wait answers, by the children alone: `-1` when `pid` selects no
/// child; `-2` when it selects some but none is a zombie, and then nothing
/// is taken; else the pid of the earliest selected zombie, which is taken out
/// with its exit code.
pub proof fn lemma_waited_answers<C>(
    pre: Seq<C>,
    post: Seq<C>,
    states: Seq<(usize, TaskStatus, i32)>,
    pid: isize,
    r: isize,
    taken: Option<(C, i32)>,
    i: int,
)
    requires
        waited(pre, post, states, pid, r, taken),
        pre.len() == states.len(),
    ensures
        (forall|k: int| 0 <= k < states.len() ==> !selects(pid, #[trigger] states[k].0)) ==> r
            == -1 && post == pre && taken is None,
        0 <= i < states.len() && selects(pid, states[i].0) && states[i].1 == TaskStatus::Zombie
            && (forall|k: int|
            0 <= k < i ==> !(selects(pid, #[trigger] states[k].0) && states[k].1
                == TaskStatus::Zombie)) ==> {
            &&& r == states[i].0 as isize
            &&& post == pre.remove(i)
            &&& taken == Some((pre[i], states[i].2))
        },
        (exists|k: int| 0 <= k < states.len() && selects(pid, #[trigger] states[k].0)) && (forall|
            k: int,
        |
            0 <= k < states.len() && selects(pid, #[trigger] states[k].0) ==> states[k].1
                != TaskStatus::Zombie) ==> r == -2 && post == pre && taken is None,
{
    if 0 <= i < states.len() && selects(pid, states[i].0) && states[i].1 == TaskStatus::Zombie
        && (forall|k: int|
        0 <= k < i ==> !(selects(pid, #[trigger] states[k].0) && states[k].1
            == TaskStatus::Zombie)) {
        assert(first_zombie(states, pid, i));
    }
    if (exists|k: int| 0 <= k < states.len() && selects(pid, #[trigger] states[k].0)) && (forall|
        k: int,
    |
        0 <= k < states.len() && selects(pid, #[trigger] states[k].0) ==> states[k].1
            != TaskStatus::Zombie) {
        let k = choose|k: int| 0 <= k < states.len() && selects(pid, #[trigger] states[k].0);
        assert(has_selected(states, pid));
        if exists|z: int| first_zombie(states, pid, z) {
            let z = choose|z: int| first_zombie(states, pid, z);
            assert(selects(pid, states[z].0));
        }
    }
    if forall|k: int| 0 <= k < states.len() ==> !selects(pid, #[trigger] states[k].0) {
        if has_selected(states, pid) {
            let k = choose|k: int| 0 <= k < states.len() && selects(pid, #[trigger] states[k].0);
            assert(!selects(pid, states[k].0));
        }
    }
}

/// Some child is selected by `pid`.
pub open spec fn has_selected(children: Seq<(usize, TaskStatus, i32)>, pid: isize) -> bool {
    exists|i: int| 0 <= i < children.len() && selects(pid, #[trigger] children[i].0)
}

/// What a wait that got past the address check does: `-1` when `pid`
/// selects no child, `-2` when no selected child is a zombie; in both cases
/// nothing is taken. Else the answer is the first selected zombie's pid, and
/// that child is taken out of the list and handed back as `taken`, with the
/// exit code to store for the parent.
pub open spec fn waited<C>(
    pre: Seq<C>,
    post: Seq<C>,
    states: Seq<(usize, TaskStatus, i32)>,
    pid: isize,
    r: isize,
    taken: Option<(C, i32)>,
) -> bool {
    &&& !has_selected(states, pid) ==> r == -1 && post == pre && taken is None
    &&& has_selected(states, pid) && !(exists|i: int| first_zombie(states, pid, i)) ==> r == -2
        && post == pre && taken is None
    &&& forall|i: int|
        #[trigger] first_zombie(states, pid, i) ==> {
            &&& r == states[i].0 as isize
            &&& post == pre.remove(i)
            &&& taken == Some((pre[i], states[i].2))
        }
}

/// Waits for a child of the current task. `children` is the list of its
/// children and `states` gives, in the same order, the pid, state and exit
/// code of each. The page of user address `exit_code_ptr` must be
/// user-writable, else the answer is `-3`. When `pid` (`-1`: any child)
/// selects no child the answer is `-1`, and when no selected child is a zombie
/// it is `-2`. Else the first selected zombie is taken out of `children` and
/// handed back beside the answer, with its exit code, which is to be stored
/// at `exit_code_ptr`; its pid is the answer. Only that case hands back a
/// code to store.
pub fn sys_waitpid<C, M: Fn(usize, u8) -> bool>(
    children: &mut Vec<C>,
    states: &Vec<(usize, TaskStatus, i32)>,
    pid: isize,
    exit_code_ptr: usize,
    is_mapped: &M,
) -> (r: (isize, Option<(C, i32)>))
    requires
        old(children)@.len() == states@.len(),
        exit_code_ptr + 4 <= usize::MAX,
        query_total(*is_mapped, MAP_U | MAP_W),
    ensures
        refused(*is_mapped, exit_code_ptr as int, exit_code_ptr + 4, MAP_U | MAP_W) ==> r.0 == -3
            && r.1 is None && final(children)@ == old(children)@,
        (r.0 == -3 && r.1 is None && final(children)@ == old(children)@ && !surely(
            *is_mapped,
            exit_code_ptr as int,
            exit_code_ptr + 4,
            MAP_U | MAP_W,
            true,
        )) || (all_answered(*is_mapped, exit_code_ptr as int, exit_code_ptr + 4, MAP_U | MAP_W, true)
            && waited(old(children)@, final(children)@, states@, pid, r.0, r.1)),
{
    let start = exit_code_ptr;
    let end = exit_code_ptr + 4;
    if !pages_answer(start, end, MAP_U | MAP_W, true, is_mapped) {
        return (-3, None);
    }
    proof {
        lemma_not_refused(*is_mapped, start as int, end as int, MAP_U | MAP_W);
    }
    let mut found = false;
    let mut i: usize = 0;
    while i < states.len()
        invariant
            i <= states@.len(),
            found <==> exists|j: int| 0 <= j < i && selects(pid, #[trigger] states@[j].0),
        decreases states@.len() - i,
    {
        if pid == -1 || #[verifier::truncate] (pid as usize) == states[i].0 {
            found = true;
            assert(selects(pid, states@[i as int].0));
        }
        i = i + 1;
    }
    if !found {
        return (-1, None);
    }
    let mut k: usize = 0;
    while k < states.len()
        invariant
            k <= states@.len(),
            states@.len() == children@.len(),
            children@ == old(children)@,
            !refused(*is_mapped, exit_code_ptr as int, exit_code_ptr + 4, MAP_U | MAP_W),
            all_answered(*is_mapped, exit_code_ptr as int, exit_code_ptr + 4, MAP_U | MAP_W, true),
            has_selected(states@, pid),
            forall|j: int|
                0 <= j < k ==> !(selects(pid, #[trigger] states@[j].0) && states@[j].1
                    == TaskStatus::Zombie),
        decreases states@.len() - k,
    {
        if (pid == -1 || #[verifier::truncate] (pid as usize) == states[k].0) && states[k].1
            == TaskStatus::Zombie {
            proof {
                assert forall|i: int| #[trigger] first_zombie(states@, pid, i) implies i == k by {
                    if i < k {
                    } else if i > k {
                        assert(!(selects(pid, states@[k as int].0) && states@[k as int].1
                            == TaskStatus::Zombie));
                    }
                }
            }
            let child = children.remove(k);
            let code = states[k].2;
            let r = #[verifier::truncate] (states[k].0 as isize);
            proof {
                assert(first_zombie(states@, pid, k as int));
                assert(waited(old(children)@, children@, states@, pid, r, Some((child, code))));
            }
            return (r, Some((child, code)));
        }
        k = k + 1;
    }
    (-2, None)
}

} // verus!
