use std::cmp::Ordering;
use os_core::binary_heap::{lchild, parent, rchild, BinaryHeap};
use os_core::manager::TaskManager;
use os_core::stride_scheduler::{Stride, StrideScheduler, BIG_STRIDE, HALF_STRIDE, MIN_PRIORITY};

#[test]
fn heap_index_arithmetic() {
    assert_eq!(parent(1), 0);
    assert_eq!(parent(2), 0);
    assert_eq!(parent(5), 2);
    assert_eq!(parent(6), 2);
    assert_eq!(lchild(0), 1);
    assert_eq!(rchild(0), 2);
    assert_eq!(lchild(3), 7);
    assert_eq!(rchild(3), 8);
}

#[test]
fn heap_pop_on_empty_is_none() {
    let mut h: BinaryHeap<u64> = BinaryHeap::new();
    assert_eq!(h.pop_min(), None);
}

#[test]
fn heap_pops_in_ascending_order() {
    let mut h: BinaryHeap<u64> = BinaryHeap::new();
    for x in [5u64, 3, 8, 1, 9, 2, 7, 4, 6, 0] {
        h.insert(x);
    }
    let mut out = Vec::new();
    while let Some(x) = h.pop_min() {
        out.push(x);
    }
    assert_eq!(out, vec![0, 1, 2, 3, 4, 5, 6, 7, 8, 9]);
}

#[test]
fn heap_keeps_duplicates() {
    let mut h: BinaryHeap<u64> = BinaryHeap::new();
    for x in [4u64, 4, 1, 4, 1] {
        h.insert(x);
    }
    let mut out = Vec::new();
    while let Some(x) = h.pop_min() {
        out.push(x);
    }
    assert_eq!(out, vec![1, 1, 4, 4, 4]);
}

#[test]
fn heap_insert_then_pop_gives_back_the_item() {
    let mut h: BinaryHeap<i32> = BinaryHeap::new();
    h.insert(-7);
    assert_eq!(h.pop_min(), Some(-7));
    assert_eq!(h.pop_min(), None);
}

#[test]
fn heap_interleaved_inserts_and_pops() {
    let mut h: BinaryHeap<u64> = BinaryHeap::new();
    h.insert(10);
    h.insert(20);
    assert_eq!(h.pop_min(), Some(10));
    h.insert(5);
    h.insert(30);
    assert_eq!(h.pop_min(), Some(5));
    assert_eq!(h.pop_min(), Some(20));
    h.insert(1);
    assert_eq!(h.pop_min(), Some(1));
    assert_eq!(h.pop_min(), Some(30));
    assert_eq!(h.pop_min(), None);
}

#[test]
fn scheduler_empty_gives_none() {
    let mut s = StrideScheduler::new();
    assert!(s.get_next_sched_block().is_none());
}

#[test]
fn fresh_block_has_initial_pass_and_advances_once() {
    let mut s = StrideScheduler::new();
    s.init_sched_block(7);
    let b = s.get_next_sched_block().unwrap();
    assert_eq!(b.id, 7);
    assert_eq!(b.pass(), BIG_STRIDE / 16);
    assert_eq!(b.stride(), BIG_STRIDE / 16);
    assert!(s.get_next_sched_block().is_none());
}

#[test]
fn set_priority_sets_pass() {
    let mut s = StrideScheduler::new();
    s.init_sched_block(1);
    let mut b = s.get_next_sched_block().unwrap();
    b.set_priority(MIN_PRIORITY);
    assert_eq!(b.pass(), HALF_STRIDE);
    b.set_priority(4);
    assert_eq!(b.pass(), BIG_STRIDE / 4);
    assert_eq!(b.id, 1);
    assert_eq!(b.stride(), BIG_STRIDE / 16);
}

#[test]
fn least_stride_is_picked_first() {
    let mut s = StrideScheduler::new();
    s.init_sched_block(1);
    s.init_sched_block(2);
    let a = s.get_next_sched_block().unwrap();
    // Task `a` has advanced; the other one, still at stride 0, goes next.
    s.add_sched_block(a);
    let b = s.get_next_sched_block().unwrap();
    assert_ne!(a.id, b.id);
    assert_eq!(b.stride(), BIG_STRIDE / 16);
}

#[test]
fn higher_priority_runs_more_often() {
    let mut s = StrideScheduler::new();
    s.init_sched_block(1);
    s.init_sched_block(2);
    let mut a = s.get_next_sched_block().unwrap();
    let mut b = s.get_next_sched_block().unwrap();
    // Give one task priority 2 and the other priority 8: passes H and H/4.
    let (slow, fast) = if a.id == 1 { (&mut a, &mut b) } else { (&mut b, &mut a) };
    slow.set_priority(2);
    fast.set_priority(8);
    s.add_sched_block(a);
    s.add_sched_block(b);
    let mut runs = [0usize; 3];
    for _ in 0..50 {
        let x = s.get_next_sched_block().unwrap();
        runs[x.id] += 1;
        s.add_sched_block(x);
    }
    assert!(runs[2] > 3 * runs[1]);
}

#[test]
fn equal_priorities_alternate_across_wraparound() {
    let mut s = StrideScheduler::new();
    s.init_sched_block(1);
    s.init_sched_block(2);
    let mut a = s.get_next_sched_block().unwrap();
    let mut b = s.get_next_sched_block().unwrap();
    a.set_priority(2);
    b.set_priority(2);
    s.add_sched_block(a);
    s.add_sched_block(b);
    // Each pick adds about half the range, so strides wrap every other pick.
    let mut last = usize::MAX;
    let mut wrapped = false;
    for _ in 0..12 {
        let x = s.get_next_sched_block().unwrap();
        assert_ne!(x.id, last);
        if x.stride() < x.pass() {
            wrapped = true;
        }
        last = x.id;
        s.add_sched_block(x);
    }
    assert!(wrapped);
}

#[test]
fn manager_fetch_on_empty_is_none() {
    let mut m: TaskManager<&str> = TaskManager::new();
    assert!(m.fetch().is_none());
}

#[test]
fn manager_returns_each_task_with_its_block() {
    let mut m: TaskManager<&str> = TaskManager::new();
    m.add(3, "three", None);
    let (t, b) = m.fetch().unwrap();
    assert_eq!(t, "three");
    assert_eq!(b.id, 3);
    assert_eq!(b.stride(), BIG_STRIDE / 16);
    assert!(m.fetch().is_none());
    m.add(3, t, Some(b));
    let (t2, b2) = m.fetch().unwrap();
    assert_eq!(t2, "three");
    assert_eq!(b2.stride(), 2 * (BIG_STRIDE / 16));
}

#[test]
fn manager_new_tasks_run_before_advanced_ones() {
    let mut m: TaskManager<u32> = TaskManager::new();
    m.add(1, 100, None);
    let (t, b) = m.fetch().unwrap();
    assert_eq!(t, 100);
    m.add(1, t, Some(b));
    m.add(2, 200, None);
    let (t, _) = m.fetch().unwrap();
    assert_eq!(t, 200);
    let (t, _) = m.fetch().unwrap();
    assert_eq!(t, 100);
    assert!(m.fetch().is_none());
}

#[test]
fn stride_order_survives_overflow() {
    assert!(Stride(10) < Stride(20));
    assert!(Stride(u64::MAX - 5) < Stride(4));
    assert!(Stride(4) > Stride(u64::MAX - 5));
    let (a, b, k) = (100u64, 300u64, u64::MAX - 150);
    assert_eq!(
        Stride(a.wrapping_add(k)).partial_cmp(&Stride(b.wrapping_add(k))),
        Stride(a).partial_cmp(&Stride(b))
    );
    assert_eq!(Stride(a).partial_cmp(&Stride(b)), Some(Ordering::Less));
    assert_eq!(
        Stride(b).partial_cmp(&Stride(a)),
        Stride(a).partial_cmp(&Stride(b)).map(|o| o.reverse())
    );
}
