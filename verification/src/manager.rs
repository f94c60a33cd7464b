//! The ready tasks, keyed by pid, with the stride scheduler that picks which
//! one runs next.
use vstd::prelude::*;
use vstd::multiset::Multiset;
use std::collections::BTreeMap;
use crate::stride_scheduler::{in_window, SchedBlock, StrideScheduler, BIG_STRIDE};
use crate::stride_order::offset;

verus! {

broadcast use vstd::std_specs::btree::group_btree_axioms, vstd::laws_cmp::group_laws_cmp;

pub struct TaskManager<T> {
    map: BTreeMap<usize, T>,
    scheduler: StrideScheduler,
}

/// Each block of `m` schedules a task of `tasks`, no two blocks schedule the
/// same task, and each task has a block.
pub open spec fn blocks_match_tasks<T>(m: Multiset<SchedBlock>, tasks: Map<usize, T>) -> bool {
    &&& forall|b: SchedBlock| #[trigger] m.contains(b) ==> tasks.contains_key(b.id_value())
    &&& forall|b: SchedBlock| #[trigger] m.count(b) <= 1
    &&& forall|b1: SchedBlock, b2: SchedBlock|
        #![trigger m.contains(b1), m.contains(b2)]
        m.contains(b1) && m.contains(b2) && b1.id_value() == b2.id_value() ==> b1 == b2
    &&& forall|pid: usize|
        #![trigger tasks.contains_key(pid)]
        tasks.contains_key(pid) ==> exists|b: SchedBlock| #[trigger]
            m.contains(b) && b.id_value() == pid
}

impl<T> TaskManager<T> {
    /// The ready tasks, by pid.
    pub closed spec fn tasks(&self) -> Map<usize, T> {
        self.map@
    }

    /// The scheduler that orders the ready tasks.
    pub closed spec fn sched(&self) -> StrideScheduler {
        self.scheduler
    }

    pub open spec fn wf(&self) -> bool {
        &&& self.sched().wf()
        &&& blocks_match_tasks(self.sched().blocks(), self.tasks())
    }

    pub fn new() -> (r: Self)
        ensures
            r.wf(),
            r.sched().ordered(),
            r.tasks() == Map::<usize, T>::empty(),
    {
        broadcast use vstd::seq_lib::group_to_multiset_ensures;

        let r = Self { map: BTreeMap::new(), scheduler: StrideScheduler::new() };
        assert(r.sched().blocks() =~= Multiset::<SchedBlock>::empty());
        r
    }

    /// How many blocks the scheduler holds: one per ready task.
    pub fn len(&self) -> (r: usize)
        ensures
            r == self.sched().queue().len(),
    {
        self.scheduler.len()
    }

    /// Whether task `pid` is ready.
    pub fn contains_task(&self, pid: usize) -> (r: bool)
        ensures
            r == self.tasks().contains_key(pid),
    {
        self.map.contains_key(&pid)
    }

    /// Makes task `pid` ready: its block goes back to the scheduler, or a
    /// fresh block is made for a task that never ran.
    pub fn add(&mut self, pid: usize, task: T, sched_block: Option<SchedBlock>)
        requires
            old(self).wf(),
            !old(self).tasks().contains_key(pid),
            old(self).sched().queue().len() < usize::MAX / 2,
            sched_block matches Some(b) ==> b.id_value() == pid && b.valid(),
        ensures
            final(self).wf(),
            final(self).tasks() == old(self).tasks().insert(pid, task),
            final(self).sched().blocks() == old(self).sched().blocks().insert(
                match sched_block {
                    Some(b) => b,
                    None => SchedBlock::with_fields(pid, 0, BIG_STRIDE / 16),
                },
            ),
            forall|base: u64|
                #![trigger in_window(final(self).sched().blocks(), base)]
                old(self).sched().ordered() && in_window(final(self).sched().blocks(), base)
                    ==> final(self).sched().ordered(),
    {
        broadcast use SchedBlock::lemma_with_fields;

        let ghost old_blocks = self.sched().blocks();
        let ghost old_tasks = self.tasks();
        let ghost nb = match sched_block {
            Some(b) => b,
            None => SchedBlock::with_fields(pid, 0, BIG_STRIDE / 16),
        };
        match sched_block {
            None => self.scheduler.init_sched_block(pid),
            Some(b) => self.scheduler.add_sched_block(b),
        }
        self.map.insert(pid, task);
        proof {
            let m = self.sched().blocks();
            let tk = self.tasks();
            assert(nb.id_value() == pid);
            assert(!old_blocks.contains(nb));
            assert forall|b: SchedBlock| #[trigger] m.contains(b) implies tk.contains_key(
                b.id_value(),
            ) by {
                if b != nb {
                    assert(old_blocks.contains(b));
                }
            }
            assert forall|b: SchedBlock| #[trigger] m.count(b) <= 1 by {
                if b != nb {
                    assert(old_blocks.count(b) <= 1);
                }
            }
            assert forall|b1: SchedBlock, b2: SchedBlock|
                #![trigger m.contains(b1), m.contains(b2)]
                m.contains(b1) && m.contains(b2) && b1.id_value() == b2.id_value() implies b1
                == b2 by {
                if b1 != nb && b2 != nb {
                    assert(old_blocks.contains(b1) && old_blocks.contains(b2));
                } else if b1 != nb {
                    assert(old_blocks.contains(b1));
                } else if b2 != nb {
                    assert(old_blocks.contains(b2));
                }
            }
            assert forall|q: usize| #![trigger tk.contains_key(q)] tk.contains_key(q) implies exists|
                b: SchedBlock,
            | #[trigger] m.contains(b) && b.id_value() == q by {
                if q == pid {
                    assert(m.contains(nb));
                } else {
                    assert(old_tasks.contains_key(q));
                    let w = choose|b: SchedBlock| #[trigger]
                        old_blocks.contains(b) && b.id_value() == q;
                    assert(m.contains(w));
                }
            }
        }
    }

    /// Takes out the task whose block the scheduler picks, with that block
    /// advanced; `None` when no task is ready.
    pub fn fetch(&mut self) -> (r: Option<(T, SchedBlock)>)
        requires
            old(self).wf(),
        ensures
            final(self).wf(),
            r is None <==> old(self).sched().queue().len() == 0,
            r is None ==> final(self).tasks() == old(self).tasks() && final(self).sched().blocks()
                == old(self).sched().blocks(),
            r matches Some((t, b)) ==> {
                let o = old(self).sched().queue()[0];
                &&& b == o.advanced()
                &&& b.valid()
                &&& old(self).tasks().contains_key(o.id_value())
                &&& t == old(self).tasks()[o.id_value()]
                &&& final(self).tasks() == old(self).tasks().remove(o.id_value())
                &&& final(self).sched().blocks() == old(self).sched().blocks().remove(o)
            },
            forall|base: u64|
                #![trigger in_window(old(self).sched().blocks(), base)]
                old(self).sched().ordered() && in_window(old(self).sched().blocks(), base) ==> {
                    &&& final(self).sched().ordered()
                    &&& r matches Some((t, b)) ==> {
                        &&& forall|y: SchedBlock|
                            old(self).sched().blocks().contains(y) ==> offset(
                                old(self).sched().queue()[0].stride_value(),
                                base,
                            ) <= offset(#[trigger] y.stride_value(), base)
                        &&& in_window(
                            final(self).sched().blocks().insert(b),
                            old(self).sched().queue()[0].stride_value(),
                        )
                    }
                },
    {
        broadcast use SchedBlock::lemma_advanced, vstd::seq_lib::group_to_multiset_ensures;

        let ghost old_blocks = self.sched().blocks();
        let ghost old_tasks = self.tasks();
        let ghost q = self.sched().queue();
        let next_block = match self.scheduler.get_next_sched_block() {
            Some(b) => b,
            None => return None,
        };
        let ghost o = q[0];
        proof {
            crate::binary_heap::lemma_item_in_contents(q, 0);
            assert(old_blocks.contains(o));
            SchedBlock::lemma_id_value(next_block);
            assert(old_tasks.contains_key(next_block.id));
        }
        let next_task = match self.map.remove(&next_block.id) {
            Some(t) => t,
            None => {
                proof {
                    assert(false);
                }
                return None;
            },
        };
        proof {
            let m = self.sched().blocks();
            let tk = self.tasks();
            assert forall|b: SchedBlock| #[trigger] m.contains(b) implies tk.contains_key(
                b.id_value(),
            ) by {
                assert(old_blocks.contains(b));
                if b.id_value() == o.id_value() {
                    assert(b == o);
                    assert(old_blocks.count(o) <= 1);
                }
            }
            assert forall|b: SchedBlock| #[trigger] m.count(b) <= 1 by {
                assert(old_blocks.count(b) <= 1);
            }
            assert forall|b1: SchedBlock, b2: SchedBlock|
                #![trigger m.contains(b1), m.contains(b2)]
                m.contains(b1) && m.contains(b2) && b1.id_value() == b2.id_value() implies b1
                == b2 by {
                assert(old_blocks.contains(b1) && old_blocks.contains(b2));
            }
            assert forall|p: usize| #![trigger tk.contains_key(p)] tk.contains_key(p) implies exists|
                b: SchedBlock,
            | #[trigger] m.contains(b) && b.id_value() == p by {
                assert(old_tasks.contains_key(p));
                let w = choose|b: SchedBlock| #[trigger]
                    old_blocks.contains(b) && b.id_value() == p;
                assert(w != o);
                assert(m.contains(w));
            }
        }
        Some((next_task, next_block))
    }
}

} // verus!
