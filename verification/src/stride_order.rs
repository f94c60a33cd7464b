//! How strides and scheduling blocks compare: the stride that is ahead by at
//! most half of the stride range is the greater one, so that the order
//! survives the wrap-around of `u64`.
use vstd::prelude::*;
use core::cmp::Ordering;
use vstd::std_specs::cmp::PartialOrdSpec;
use vstd::wrapping::u64_specs::{wrapping_add, wrapping_sub};
use vstd::multiset::Multiset;
use crate::order::{comparable, follows, not_after, precedes, weak_order_on};
use crate::stride_scheduler::{SchedBlock, Stride, HALF_STRIDE};

verus! {

/// Stride `a` comes before stride `b`: `b` is ahead of `a` by at most half of
/// the range, counting around the wrap of `u64`.
pub open spec fn stride_before(a: u64, b: u64) -> bool {
    if a < b {
        b - a <= HALF_STRIDE
    } else if a > b {
        a - b > HALF_STRIDE
    } else {
        false
    }
}

/// Of two different strides, exactly one comes before the other; a stride
/// never comes before itself.
pub proof fn lemma_stride_before_total(a: u64, b: u64)
    ensures
        !(stride_before(a, b) && stride_before(b, a)),
        a != b ==> stride_before(a, b) || stride_before(b, a),
        !stride_before(a, a),
{
}

/// The ordering with `Less` and `Greater` exchanged.
pub open spec fn reversed(o: Option<Ordering>) -> Option<Ordering> {
    match o {
        Some(Ordering::Less) => Some(Ordering::Greater),
        Some(Ordering::Greater) => Some(Ordering::Less),
        _ => o,
    }
}

/// Two different strides always compare, and comparing them the other way
/// round gives the reverse answer; a stride does not compare with itself.
pub proof fn lemma_stride_reverse(a: u64, b: u64)
    ensures
        a != b ==> Stride(a).partial_cmp_spec(&Stride(b)) is Some,
        Stride(a).partial_cmp_spec(&Stride(b)) == reversed(Stride(b).partial_cmp_spec(&Stride(a))),
        Stride(a).partial_cmp_spec(&Stride(a)) is None,
{
    lemma_stride_before_total(a, b);
}

/// Unless the gap from `a` to `b` is exactly half of 2^64, `a` comes before
/// `b` exactly when `b` is ahead of `a` by 1 to `HALF_STRIDE`, counting
/// around the wrap.
pub proof fn lemma_before_by_gap(a: u64, b: u64)
    requires
        wrapping_sub(b, a) != 0x8000_0000_0000_0000u64,
    ensures
        stride_before(a, b) <==> 1 <= wrapping_sub(b, a) <= HALF_STRIDE,
{
}

/// Adding the same amount to two strides, with wrap-around, keeps their
/// order, unless they are exactly half of 2^64 apart.
pub proof fn lemma_stride_shift(a: u64, b: u64, k: u64)
    requires
        wrapping_sub(b, a) != 0x8000_0000_0000_0000u64,
    ensures
        Stride(wrapping_add(a, k)).partial_cmp_spec(&Stride(wrapping_add(b, k))) == Stride(
            a,
        ).partial_cmp_spec(&Stride(b)),
{
    let a2 = wrapping_add(a, k);
    let b2 = wrapping_add(b, k);
    assert(wrapping_sub(b2, a2) == wrapping_sub(b, a));
    assert(wrapping_sub(a2, b2) == wrapping_sub(a, b));
    lemma_before_by_gap(a, b);
    lemma_before_by_gap(a2, b2);
    if wrapping_sub(a, b) != 0x8000_0000_0000_0000u64 {
        lemma_before_by_gap(b, a);
        lemma_before_by_gap(b2, a2);
    }
}

/// The distance from `base` to `x` is `x.wrapping_sub(base)`.
pub proof fn lemma_offset_wrapping_sub(x: u64, base: u64)
    ensures
        offset(x, base) == wrapping_sub(x, base) as int,
{
}

/// Strides are never equal for the scheduler: `==` is always false.
impl PartialEq for Stride {
    fn eq(&self, _other: &Self) -> (r: bool) {
        false
    }
}

impl vstd::std_specs::cmp::PartialEqSpecImpl for Stride {
    open spec fn obeys_eq_spec() -> bool {
        true
    }

    open spec fn eq_spec(&self, other: &Stride) -> bool {
        false
    }
}

impl PartialOrd for Stride {
    fn partial_cmp(&self, other: &Self) -> (r: Option<Ordering>) {
        // A gap of more than half the range means that the smaller number has
        // wrapped around and is in fact the greater stride.
        if self.0 < other.0 {
            if other.0 - self.0 <= HALF_STRIDE {
                Some(Ordering::Less)
            } else {
                Some(Ordering::Greater)
            }
        } else if self.0 > other.0 {
            if self.0 - other.0 <= HALF_STRIDE {
                Some(Ordering::Greater)
            } else {
                Some(Ordering::Less)
            }
        } else {
            None
        }
    }
}

impl vstd::std_specs::cmp::PartialOrdSpecImpl for Stride {
    open spec fn obeys_partial_cmp_spec() -> bool {
        true
    }

    open spec fn partial_cmp_spec(&self, other: &Stride) -> Option<Ordering> {
        if stride_before(self.0, other.0) {
            Some(Ordering::Less)
        } else if stride_before(other.0, self.0) {
            Some(Ordering::Greater)
        } else {
            None
        }
    }
}

impl PartialEq for SchedBlock {
    fn eq(&self, _other: &Self) -> (r: bool) {
        false
    }
}

impl vstd::std_specs::cmp::PartialEqSpecImpl for SchedBlock {
    open spec fn obeys_eq_spec() -> bool {
        true
    }

    open spec fn eq_spec(&self, other: &SchedBlock) -> bool {
        false
    }
}

/// Blocks compare by their strides alone.
impl PartialOrd for SchedBlock {
    fn partial_cmp(&self, other: &Self) -> (r: Option<Ordering>) {
        self.stride.partial_cmp(&other.stride)
    }
}

impl vstd::std_specs::cmp::PartialOrdSpecImpl for SchedBlock {
    open spec fn obeys_partial_cmp_spec() -> bool {
        true
    }

    closed spec fn partial_cmp_spec(&self, other: &SchedBlock) -> Option<Ordering> {
        if stride_before(self.stride.0, other.stride.0) {
            Some(Ordering::Less)
        } else if stride_before(other.stride.0, self.stride.0) {
            Some(Ordering::Greater)
        } else {
            None
        }
    }
}

/// Two blocks compare as their strides do.
pub proof fn lemma_block_compare(a: SchedBlock, b: SchedBlock)
    ensures
        a.partial_cmp_spec(&b) == Stride(a.stride_value()).partial_cmp_spec(&Stride(b.stride_value())),
{
    SchedBlock::lemma_stride_value(a);
    SchedBlock::lemma_stride_value(b);
}

/// How far stride `x` is ahead of `base`, counting around the wrap of `u64`.
pub open spec fn offset(x: u64, base: u64) -> int {
    if x >= base {
        x - base
    } else {
        x - base + 0x1_0000_0000_0000_0000
    }
}

/// Two strides that are both within half the range ahead of `base` compare
/// as their distances from `base` do.
pub proof fn lemma_before_in_window(x: u64, y: u64, base: u64)
    requires
        offset(x, base) <= HALF_STRIDE,
        offset(y, base) <= HALF_STRIDE,
    ensures
        stride_before(x, y) <==> offset(x, base) < offset(y, base),
{
}

pub(crate) proof fn lemma_block_order(a: SchedBlock, b: SchedBlock)
    ensures
        comparable::<SchedBlock>(),
        precedes(a, b) == stride_before(a.stride.0, b.stride.0),
        follows(a, b) == stride_before(b.stride.0, a.stride.0),
{
}

/// Blocks whose strides all lie within half the range ahead of one base are
/// ordered by a strict weak order.
pub(crate) proof fn lemma_weak_order_in_window(m: Multiset<SchedBlock>, base: u64)
    requires
        forall|b: SchedBlock| m.contains(b) ==> offset(b.stride.0, base) <= HALF_STRIDE,
    ensures
        weak_order_on(m),
{
    assert forall|a: SchedBlock, b: SchedBlock| m.contains(a) && m.contains(b) implies (follows(
        a,
        b,
    ) <==> precedes(b, a)) by {
        lemma_block_order(a, b);
        lemma_block_order(b, a);
    }
    assert forall|a: SchedBlock, b: SchedBlock| m.contains(a) && m.contains(b) implies !(precedes(
        a,
        b,
    ) && precedes(b, a)) by {
        lemma_block_order(a, b);
        lemma_block_order(b, a);
        lemma_before_in_window(a.stride.0, b.stride.0, base);
        lemma_before_in_window(b.stride.0, a.stride.0, base);
    }
    assert forall|a: SchedBlock, b: SchedBlock, c: SchedBlock|
        m.contains(a) && m.contains(b) && m.contains(c) && not_after(a, b) && not_after(
            b,
            c,
        ) implies not_after(a, c) by {
        lemma_block_order(b, a);
        lemma_block_order(c, b);
        lemma_block_order(c, a);
        lemma_before_in_window(b.stride.0, a.stride.0, base);
        lemma_before_in_window(c.stride.0, b.stride.0, base);
        lemma_before_in_window(c.stride.0, a.stride.0, base);
    }
}

} // verus!
