//! Stride scheduling: each block advances its stride by its pass when it is
//! picked, and the block with the least stride is picked next.
use vstd::prelude::*;
use vstd::multiset::Multiset;
use crate::binary_heap::BinaryHeap;
use crate::order::{comparable, follows, precedes, weak_order_on};
use vstd::pervasive::arbitrary;
use crate::stride_order::{
    lemma_before_in_window, lemma_block_order, lemma_weak_order_in_window, offset, stride_before,
};

verus! {

pub const MIN_PRIORITY: isize = 2;

pub const BIG_STRIDE: u64 = 0xffff_ffff_ffff_ffff;

/// `BIG_STRIDE / 2`: two strides at most this far apart compare by their gap.
pub const HALF_STRIDE: u64 = 0x7fff_ffff_ffff_ffff;

pub const INIT_PRIORITY: isize = 16;

#[derive(Copy, Clone)]
/// A stride: how far a block has advanced, counted modulo 2^64.
pub struct Stride(pub u64);

#[derive(Copy, Clone)]
pub struct SchedBlock {
    pub id: usize,
    pub(crate) stride: Stride,
    pub(crate) pass: u64,
}

impl SchedBlock {
    /// The id of the task that the block schedules.
    pub closed spec fn id_value(self) -> usize {
        self.id
    }

    /// The block's stride.
    pub closed spec fn stride_value(self) -> u64 {
        self.stride.0
    }

    /// The block's pass: what its stride advances by each time it is picked.
    pub closed spec fn pass_value(self) -> u64 {
        self.pass
    }

    /// The block with these fields.
    pub closed spec fn with_fields(id: usize, stride: u64, pass: u64) -> SchedBlock {
        SchedBlock { id, stride: Stride(stride), pass }
    }

    /// Every block that the scheduler makes has a pass in `1..=HALF_STRIDE`.
    pub open spec fn valid(self) -> bool {
        0 < self.pass_value() <= HALF_STRIDE
    }

    /// The block after it was picked: its stride advanced by its pass,
    /// wrapping around at `u64::MAX`.
    pub closed spec fn advanced(self) -> SchedBlock {
        SchedBlock::with_fields(
            self.id,
            vstd::wrapping::u64_specs::wrapping_add(self.stride_value(), self.pass_value()),
            self.pass_value(),
        )
    }

    pub broadcast proof fn lemma_with_fields(id: usize, stride: u64, pass: u64)
        ensures
            #[trigger] SchedBlock::with_fields(id, stride, pass).id_value() == id,
            SchedBlock::with_fields(id, stride, pass).stride_value() == stride,
            SchedBlock::with_fields(id, stride, pass).pass_value() == pass,
    {
    }

    pub(crate) proof fn lemma_stride_value(b: SchedBlock)
        ensures
            b.stride_value() == b.stride.0,
    {
    }

    pub(crate) broadcast proof fn lemma_id_value(b: SchedBlock)
        ensures
            #[trigger] b.id_value() == b.id,
    {
    }

    pub broadcast proof fn lemma_advanced(b: SchedBlock)
        ensures
            #[trigger] b.advanced().id_value() == b.id_value(),
            b.advanced().stride_value() == vstd::wrapping::u64_specs::wrapping_add(
                b.stride_value(),
                b.pass_value(),
            ),
            b.advanced().pass_value() == b.pass_value(),
    {
    }

    pub fn stride(&self) -> (r: u64)
        ensures
            r == self.stride_value(),
    {
        self.stride.0
    }

    pub fn pass(&self) -> (r: u64)
        ensures
            r == self.pass_value(),
    {
        self.pass
    }

    /// Sets the pass from the priority: the higher the priority, the smaller
    /// the pass and the more often the block is picked.
    pub fn set_priority(&mut self, priority: isize)
        requires
            priority >= MIN_PRIORITY,
        ensures
            final(self).id_value() == old(self).id_value(),
            final(self).stride_value() == old(self).stride_value(),
            final(self).pass_value() == BIG_STRIDE / (priority as u64),
            final(self).valid(),
    {
        let p = priority as u64;
        assert(BIG_STRIDE / p <= HALF_STRIDE) by (nonlinear_arith)
            requires
                p >= 2,
        ;
        assert(BIG_STRIDE / p > 0) by (nonlinear_arith)
            requires
                p >= 2,
                p <= 0x7fff_ffff_ffff_ffff,
        ;
        self.pass = BIG_STRIDE / p;
    }
}

/// Every block of `m` has its stride at most half the range ahead of `base`.
pub open spec fn in_window(m: Multiset<SchedBlock>, base: u64) -> bool {
    forall|b: SchedBlock| m.contains(b) ==> offset(#[trigger] b.stride_value(), base) <= HALF_STRIDE
}

/// Blocks compare as their strides do.
pub proof fn lemma_block_precedes(a: SchedBlock, b: SchedBlock)
    ensures
        comparable::<SchedBlock>(),
        precedes(a, b) == stride_before(a.stride_value(), b.stride_value()),
        follows(a, b) == stride_before(b.stride_value(), a.stride_value()),
{
    lemma_block_order(a, b);
}

/// Blocks within one window are ordered by a strict weak order.
pub proof fn lemma_window_weak_order(m: Multiset<SchedBlock>, base: u64)
    requires
        in_window(m, base),
    ensures
        weak_order_on(m),
        comparable::<SchedBlock>(),
{
    assert forall|b: SchedBlock| m.contains(b) implies offset(b.stride.0, base) <= HALF_STRIDE by {
        assert(offset(b.stride_value(), base) <= HALF_STRIDE);
    }
    lemma_weak_order_in_window(m, base);
}

pub struct StrideScheduler {
    heap: BinaryHeap<SchedBlock>,
}

impl StrideScheduler {
    /// The blocks in the order that the heap keeps them; the first is picked next.
    pub closed spec fn queue(&self) -> Seq<SchedBlock> {
        self.heap@
    }

    /// The blocks waiting to be picked.
    pub open spec fn blocks(&self) -> Multiset<SchedBlock> {
        self.queue().to_multiset()
    }

    /// The queue has the heap property under the stride order.
    pub closed spec fn ordered(&self) -> bool {
        self.heap.ordered()
    }

    /// The queue is ordered and all its strides lie within half the range
    /// ahead of one base: then the block picked has the least stride.
    pub open spec fn balanced(&self) -> bool {
        &&& self.ordered()
        &&& exists|base: u64| in_window(self.blocks(), base)
    }

    pub open spec fn wf(&self) -> bool {
        &&& self.queue().len() <= usize::MAX / 2
        &&& forall|b: SchedBlock| self.blocks().contains(b) ==> #[trigger] b.valid()
    }

    pub fn new() -> (r: Self)
        ensures
            r.wf(),
            r.ordered(),
            r.balanced(),
            r.queue() == Seq::<SchedBlock>::empty(),
    {
        broadcast use vstd::seq_lib::group_to_multiset_ensures;

        let r = Self { heap: BinaryHeap::new() };
        assert(r.queue().to_multiset().len() == 0);
        assert(in_window(r.blocks(), 0));
        r
    }

    /// How many blocks wait.
    pub fn len(&self) -> (r: usize)
        ensures
            r == self.queue().len(),
    {
        self.heap.len()
    }

    /// Queues a fresh block for task `id`: stride 0 and the pass of the
    /// initial priority.
    pub fn init_sched_block(&mut self, id: usize)
        requires
            old(self).wf(),
            old(self).queue().len() < usize::MAX / 2,
        ensures
            final(self).wf(),
            final(self).blocks() == old(self).blocks().insert(
                SchedBlock::with_fields(id, 0, BIG_STRIDE / 16),
            ),
            forall|base: u64|
                #![trigger in_window(final(self).blocks(), base)]
                old(self).ordered() && in_window(final(self).blocks(), base) ==> final(self).ordered(),
    {
        let block = SchedBlock { id, stride: Stride(0), pass: BIG_STRIDE / INIT_PRIORITY as u64 };
        assert(block.valid());
        self.add_sched_block(block);
    }

    /// Queues a block that was picked before.
    pub fn add_sched_block(&mut self, block: SchedBlock)
        requires
            old(self).wf(),
            old(self).queue().len() < usize::MAX / 2,
            block.valid(),
        ensures
            final(self).wf(),
            final(self).blocks() == old(self).blocks().insert(block),
            forall|base: u64|
                #![trigger in_window(final(self).blocks(), base)]
                old(self).ordered() && in_window(final(self).blocks(), base) ==> final(self).ordered(),
            old(self).balanced() && (exists|base: u64| in_window(final(self).blocks(), base))
                ==> final(self).balanced(),
    {
        broadcast use vstd::seq_lib::group_to_multiset_ensures;

        self.heap.insert(block);
        proof {
            assert forall|b: SchedBlock| self.blocks().contains(b) implies #[trigger] b.valid() by {
                if b != block {
                    assert(old(self).blocks().contains(b));
                }
            }
            assert forall|base: u64|
                #![trigger in_window(self.blocks(), base)]
                old(self).ordered() && in_window(self.blocks(), base) implies self.ordered() by {
                lemma_window_weak_order(self.blocks(), base);
            }
            if old(self).balanced() && (exists|base: u64| in_window(self.blocks(), base)) {
                let base = choose|base: u64| in_window(self.blocks(), base);
                assert(in_window(self.blocks(), base));
            }
        }
    }

    /// Takes out the block that is first in stride order and advances its
    /// stride by its pass; `None` when no block waits.
    pub fn get_next_sched_block(&mut self) -> (r: Option<SchedBlock>)
        requires
            old(self).wf(),
        ensures
            final(self).wf(),
            r is None <==> old(self).queue().len() == 0,
            r is None ==> final(self).blocks() == old(self).blocks(),
            r matches Some(b) ==> {
                &&& b == old(self).queue()[0].advanced()
                &&& b.valid()
                &&& final(self).blocks() == old(self).blocks().remove(old(self).queue()[0])
            },
            forall|base: u64|
                #![trigger in_window(old(self).blocks(), base)]
                old(self).ordered() && in_window(old(self).blocks(), base) ==> {
                    &&& final(self).ordered()
                    &&& r matches Some(b) ==> {
                        &&& forall|y: SchedBlock|
                            old(self).blocks().contains(y) ==> offset(
                                old(self).queue()[0].stride_value(),
                                base,
                            ) <= offset(#[trigger] y.stride_value(), base)
                        &&& in_window(
                            final(self).blocks().insert(b),
                            old(self).queue()[0].stride_value(),
                        )
                    }
                },
            old(self).balanced() ==> final(self).balanced(),
            old(self).balanced() && r is Some ==> in_window(
                final(self).blocks().insert(r->0),
                old(self).queue()[0].stride_value(),
            ),
    {
        broadcast use vstd::seq_lib::group_to_multiset_ensures;
        broadcast use SchedBlock::lemma_with_fields;

        let ghost old_blocks = self.blocks();
        let ghost q = self.queue();
        let popped = self.heap.pop_min();
        proof {
            assert forall|b: SchedBlock| self.blocks().contains(b) implies #[trigger] b.valid() by {
                assert(old_blocks.contains(b));
            }
            assert forall|base: u64|
                #![trigger in_window(old_blocks, base)]
                old(self).ordered() && in_window(old_blocks, base) implies self.ordered() by {
                lemma_window_weak_order(old_blocks, base);
            }
            if old(self).balanced() {
                let base = choose|base: u64| in_window(old_blocks, base);
                assert(in_window(old_blocks, base));
                assert forall|b: SchedBlock| self.blocks().contains(b) implies offset(
                    #[trigger] b.stride_value(),
                    base,
                ) <= HALF_STRIDE by {
                    assert(old_blocks.contains(b));
                }
                assert(in_window(self.blocks(), base));
            }
        }
        match popped {
            Some(block) => {
                let mut block = block;
                let ghost o = block;
                proof {
                    crate::binary_heap::lemma_item_in_contents(q, 0);
                    assert(o.valid());
                }
                block.stride.0 = block.stride.0.wrapping_add(block.pass);
                proof {
                    assert(block == o.advanced());
                    self.lemma_pick_window(q, o, block);
                    if old(self).balanced() {
                        let base = choose|base: u64| in_window(old_blocks, base);
                        assert(in_window(q.to_multiset(), base));
                        assert(in_window(self.blocks().insert(block), o.stride_value()));
                    }
                }
                Some(block)
            },
            None => None,
        }
    }

    proof fn lemma_pick_window(&self, q: Seq<SchedBlock>, o: SchedBlock, b: SchedBlock)
        requires
            q.len() > 0,
            o == q[0],
            o.valid(),
            b == o.advanced(),
            self.blocks() == q.to_multiset().remove(o),
        ensures
            forall|base: u64|
                #![trigger in_window(q.to_multiset(), base)]
                crate::binary_heap::is_heap(q) && in_window(q.to_multiset(), base) ==> {
                    &&& forall|y: SchedBlock|
                        q.to_multiset().contains(y) ==> offset(o.stride_value(), base) <= offset(
                            #[trigger] y.stride_value(),
                            base,
                        )
                    &&& in_window(self.blocks().insert(b), o.stride_value())
                },
    {
        broadcast use SchedBlock::lemma_with_fields;

        assert forall|base: u64|
            #![trigger in_window(q.to_multiset(), base)]
            crate::binary_heap::is_heap(q) && in_window(q.to_multiset(), base) implies {
            &&& forall|y: SchedBlock|
                q.to_multiset().contains(y) ==> offset(o.stride_value(), base) <= offset(
                    #[trigger] y.stride_value(),
                    base,
                )
            &&& in_window(self.blocks().insert(b), o.stride_value())
        } by {
            let m = q.to_multiset();
            lemma_window_weak_order(m, base);
            crate::binary_heap::lemma_item_in_contents(q, 0);
            assert(m.contains(o));
            assert(offset(o.stride_value(), base) <= HALF_STRIDE);
            assert forall|y: SchedBlock| m.contains(y) implies offset(o.stride_value(), base)
                <= offset(#[trigger] y.stride_value(), base) by {
                crate::binary_heap::lemma_contents_root_first(q, y);
                lemma_block_order(y, o);
                lemma_before_in_window(y.stride_value(), o.stride_value(), base);
            }
            assert forall|z: SchedBlock| self.blocks().insert(b).contains(z) implies offset(
                #[trigger] z.stride_value(),
                o.stride_value(),
            ) <= HALF_STRIDE by {
                if z != b {
                    assert(m.contains(z));
                }
            }
        }
    }
}

} // verus!
