//! A binary min-heap kept in a vector, ordered by the `PartialOrd` impl of
//! its items.
use vstd::prelude::*;
use vstd::multiset::Multiset;
use crate::order::{comparable, follows, is_greater, is_less, lemma_follows_converse, lemma_not_after_trans, lemma_precedes_not_after, not_after, precedes, weak_order_on};

verus! {

broadcast use vstd::seq_lib::group_to_multiset_ensures;

pub struct BinaryHeap<T: PartialOrd + Copy> {
    data: Vec<T>,
}

/// Index of the parent of slot `i` (for `i > 0`).
pub open spec fn parent_of(i: int) -> int {
    (i - 1) / 2
}

/// Every item other than the root is not before its parent.
pub open spec fn is_heap<T: PartialOrd>(s: Seq<T>) -> bool {
    forall|i: int| 0 < i < s.len() ==> not_after(s[parent_of(i)], #[trigger] s[i])
}

/// The heap property on every edge but the one from slot `hole` up to its parent.
pub open spec fn heap_except_up<T: PartialOrd>(s: Seq<T>, hole: int) -> bool {
    forall|i: int| 0 < i < s.len() && i != hole ==> not_after(s[parent_of(i)], #[trigger] s[i])
}

/// The heap property on every edge but those from slot `hole` down to its children.
pub open spec fn heap_except_down<T: PartialOrd>(s: Seq<T>, hole: int) -> bool {
    forall|i: int|
        0 < i < s.len() && parent_of(i) != hole ==> not_after(s[parent_of(i)], #[trigger] s[i])
}

/// The parent of `hole` (if any) is not after the children of `hole`.
pub open spec fn bridged<T: PartialOrd>(s: Seq<T>, hole: int) -> bool {
    hole > 0 ==> forall|i: int|
        0 < i < s.len() && parent_of(i) == hole ==> not_after(s[parent_of(hole)], #[trigger] s[i])
}

/// `s` with the items at `i` and `j` exchanged.
pub open spec fn swapped<T>(s: Seq<T>, i: int, j: int) -> Seq<T> {
    s.update(i, s[j]).update(j, s[i])
}

pub proof fn lemma_item_in_contents<T>(s: Seq<T>, i: int)
    requires
        0 <= i < s.len(),
    ensures
        s.to_multiset().contains(s[i]),
{
    assert(s.contains(s[i]));
    assert(s.to_multiset().count(s[i]) > 0);
}

pub proof fn lemma_swapped_contents<T>(s: Seq<T>, i: int, j: int)
    requires
        0 <= i < s.len(),
        0 <= j < s.len(),
    ensures
        swapped(s, i, j).to_multiset() == s.to_multiset(),
        swapped(s, i, j).len() == s.len(),
{
    let s1 = s.update(i, s[j]);
    assert(s1.to_multiset() == s.to_multiset().insert(s[j]).remove(s[i]));
    assert(s1[j] == if i == j { s[j] } else { s[j] });
    assert(s1.update(j, s[i]).to_multiset() == s1.to_multiset().insert(s[i]).remove(s1[j]));
    lemma_item_in_contents(s, j);
    assert(s.to_multiset().insert(s[j]).remove(s[i]).insert(s[i]).remove(s[j]) =~= s.to_multiset());
}

/// `x` is what a pop takes out of `before`, leaving `after`: an item that
/// `before` holds and that is not after any item of `before`.
pub open spec fn pop_step<T: PartialOrd>(before: Multiset<T>, x: T, after: Multiset<T>) -> bool {
    &&& before.contains(x)
    &&& after == before.remove(x)
    &&& forall|z: T| before.contains(z) ==> #[trigger] not_after(x, z)
}

/// What a run of pops gives: `ys[k]` is taken out of `ms[k]`, leaving `ms[k + 1]`.
pub open spec fn pop_run<T: PartialOrd>(ms: Seq<Multiset<T>>, ys: Seq<T>) -> bool {
    &&& ms.len() == ys.len() + 1
    &&& forall|k: int| 0 <= k < ys.len() ==> #[trigger] pop_step(ms[k], ys[k], ms[k + 1])
}

/// Successive pops come out in order, each not after any later one, and
/// together with what is left they are exactly what the heap held.
pub proof fn lemma_pops_sorted<T: PartialOrd>(ms: Seq<Multiset<T>>, ys: Seq<T>)
    requires
        pop_run(ms, ys),
    ensures
        forall|i: int, j: int| 0 <= i <= j < ys.len() ==> #[trigger] not_after(ys[i], ys[j]),
        ys.to_multiset().add(ms[ys.len() as int]) == ms[0],
        ms[ys.len() as int].len() == 0 ==> ys.to_multiset() == ms[0],
    decreases ys.len(),
{
    broadcast use vstd::multiset::group_multiset_properties;

    let n = ys.len() as int;
    if n == 0 {
        assert(ys.to_multiset() =~= Multiset::<T>::empty());
        assert(ys.to_multiset().add(ms[0]) =~= ms[0]);
    } else {
        let ms0 = ms.drop_last();
        let ys0 = ys.drop_last();
        assert forall|k: int| 0 <= k < ys0.len() implies #[trigger] pop_step(ms0[k], ys0[k], ms0[k + 1]) by {
            assert(pop_step(ms[k], ys[k], ms[k + 1]));
        }
        lemma_pops_sorted(ms0, ys0);
        assert(pop_step(ms[n - 1], ys[n - 1], ms[n]));
        // Later multisets are contained in earlier ones.
        assert forall|i: int, j: int, z: T| 0 <= i <= j <= n && #[trigger] ms[j].contains(z) implies #[trigger] ms[i].contains(z) by {
            lemma_run_shrinks(ms, ys, i, j, z);
        }
        assert forall|i: int, j: int| 0 <= i <= j < n implies #[trigger] not_after(ys[i], ys[j]) by {
            assert(pop_step(ms[i], ys[i], ms[i + 1]));
            assert(pop_step(ms[j], ys[j], ms[j + 1]));
            assert(ms[j].contains(ys[j]));
            assert(ms[i].contains(ys[j]));
        }
        assert(ys0.push(ys[n - 1]) == ys);
        assert(ys.to_multiset() == ys0.to_multiset().insert(ys[n - 1]));
        assert(ms[n - 1] == ms[n].insert(ys[n - 1]));
        assert(ys.to_multiset().add(ms[n]) =~= ys0.to_multiset().add(ms[n - 1]));
        if ms[n].len() == 0 {
            assert(ms[n] =~= Multiset::<T>::empty());
            assert(ys.to_multiset() =~= ys.to_multiset().add(ms[n]));
        }
    }
}

/// Popping a heap of unsigned integers until it is empty gives back exactly
/// the integers that it held, in nondecreasing order.
pub proof fn lemma_u64_drain(ms: Seq<Multiset<u64>>, ys: Seq<u64>)
    requires
        pop_run(ms, ys),
        ms[ys.len() as int].len() == 0,
    ensures
        forall|i: int, j: int| 0 <= i <= j < ys.len() ==> ys[i] <= ys[j],
        ys.to_multiset() == ms[0],
{
    lemma_pops_sorted(ms, ys);
    crate::order::lemma_u64_weak_order(ms[0]);
    assert forall|i: int, j: int| 0 <= i <= j < ys.len() implies ys[i] <= ys[j] by {
        assert(not_after(ys[i], ys[j]));
        assert(!precedes(ys[j], ys[i]));
    }
}

proof fn lemma_run_shrinks<T: PartialOrd>(ms: Seq<Multiset<T>>, ys: Seq<T>, i: int, j: int, z: T)
    requires
        pop_run(ms, ys),
        0 <= i <= j < ms.len(),
        ms[j].contains(z),
    ensures
        ms[i].contains(z),
    decreases j - i,
{
    broadcast use vstd::multiset::group_multiset_properties;

    if i < j {
        let k = j - 1;
        assert(pop_step(ms[k], ys[k], ms[k + 1]));
        assert(ms[j - 1].contains(z));
        lemma_run_shrinks(ms, ys, i, j - 1, z);
    }
}

/// A weak order on a multiset is one on every part of it.
pub proof fn lemma_weak_order_sub<T: PartialOrd>(m: Multiset<T>, part: Multiset<T>)
    requires
        weak_order_on(m),
        forall|x: T| part.contains(x) ==> m.contains(x),
    ensures
        weak_order_on(part),
{
    assert forall|a: T, b: T| part.contains(a) && part.contains(b) implies (crate::order::follows(a, b)
        <==> precedes(b, a)) by {
        lemma_follows_converse(m, a, b);
    }
    assert forall|a: T, b: T| part.contains(a) && part.contains(b) implies !(precedes(a, b)
        && precedes(b, a)) by {
        assert(m.contains(a) && m.contains(b));
        assert(!(precedes(a, b) && precedes(b, a)));
    }
    assert forall|a: T, b: T, c: T|
        part.contains(a) && part.contains(b) && part.contains(c) && not_after(a, b) && not_after(
            b,
            c,
        ) implies not_after(a, c) by {
        lemma_not_after_trans(m, a, b, c);
    }
}

/// In a heap, the root is not after any item.
pub proof fn lemma_root_first<T: PartialOrd>(s: Seq<T>, k: int)
    requires
        weak_order_on(s.to_multiset()),
        is_heap(s),
        0 <= k < s.len(),
    ensures
        not_after(s[0], s[k]),
    decreases k,
{
    let m = s.to_multiset();
    lemma_item_in_contents(s, 0);
    if k == 0 {
        assert(!(precedes(s[0], s[0]) && precedes(s[0], s[0])));
    } else {
        let p = parent_of(k);
        lemma_root_first(s, p);
        assert(not_after(s[p], s[k]));
        lemma_item_in_contents(s, p);
        lemma_item_in_contents(s, k);
        lemma_not_after_trans(m, s[0], s[p], s[k]);
    }
}

/// In a heap, the root is not after any item that the heap holds.
pub proof fn lemma_contents_root_first<T: PartialOrd>(s: Seq<T>, y: T)
    requires
        weak_order_on(s.to_multiset()),
        is_heap(s),
        s.to_multiset().contains(y),
    ensures
        not_after(s[0], y),
{
    assert(s.to_multiset().count(y) > 0);
    assert(s.contains(y));
    let k = choose|k: int| 0 <= k < s.len() && s[k] == y;
    lemma_root_first(s, k);
}

pub fn parent(idx: usize) -> (r: usize)
    requires
        idx > 0,
    ensures
        r == parent_of(idx as int),
{
    (idx - 1) / 2
}

pub fn lchild(idx: usize) -> (r: usize)
    requires
        2 * idx + 1 <= usize::MAX,
    ensures
        r == 2 * idx + 1,
{
    2 * idx + 1
}

pub fn rchild(idx: usize) -> (r: usize)
    requires
        2 * idx + 2 <= usize::MAX,
    ensures
        r == 2 * idx + 2,
{
    2 * idx + 2
}

impl<T: PartialOrd + Copy> View for BinaryHeap<T> {
    type V = Seq<T>;

    /// The items, slot by slot; slot 0 is the root.
    closed spec fn view(&self) -> Seq<T> {
        self.data@
    }
}

impl<T: PartialOrd + Copy> BinaryHeap<T> {
    /// The items that the heap holds, without their arrangement.
    pub open spec fn contents(&self) -> Multiset<T> {
        self@.to_multiset()
    }

    /// The heap property holds of the arrangement.
    pub open spec fn ordered(&self) -> bool {
        is_heap(self@)
    }

    fn swap(&mut self, i: usize, j: usize)
        requires
            i < old(self)@.len(),
            j < old(self)@.len(),
        ensures
            final(self)@ == swapped(old(self)@, i as int, j as int),
    {
        let temp = self.data[i];
        let other = self.data[j];
        self.data.set(i, other);
        self.data.set(j, temp);
    }

    pub fn new() -> (r: Self)
        ensures
            r@ == Seq::<T>::empty(),
            r.ordered(),
    {
        Self { data: Vec::new() }
    }

    /// Adds `ele`, then moves it up while it is less than its parent.
    /// How many items the heap holds.
    pub fn len(&self) -> (r: usize)
        ensures
            r == self@.len(),
    {
        self.data.len()
    }

    pub fn insert(&mut self, ele: T)
        requires
            old(self)@.len() < usize::MAX,
        ensures
            final(self)@.len() == old(self)@.len() + 1,
            final(self).contents() == old(self).contents().insert(ele),
            comparable::<T>() && weak_order_on(final(self).contents()) && old(self).ordered()
                ==> final(self).ordered(),
    {
        let mut cur = self.data.len();
        self.data.push(ele);
        let ghost m = self.data@.to_multiset();
        let ghost good = comparable::<T>() && weak_order_on(m) && is_heap(old(self)@);
        proof {
            if good {
                assert forall|i: int| 0 < i < self.data@.len() && i != cur implies not_after(
                    self.data@[parent_of(i)],
                    #[trigger] self.data@[i],
                ) by {
                    assert(self.data@[i] == old(self)@[i]);
                    assert(self.data@[parent_of(i)] == old(self)@[parent_of(i)]);
                }
                assert forall|i: int|
                    0 < i < self.data@.len() && parent_of(i) == cur implies not_after(
                    self.data@[parent_of(cur as int)],
                    #[trigger] self.data@[i],
                ) by {
                    assert(false);
                }
            }
        }
        while cur > 0
            invariant
                0 <= cur < self.data@.len(),
                self.data@.len() == old(self).data@.len() + 1,
                self.data@.to_multiset() == m,
                m == old(self)@.to_multiset().insert(ele),
                self.data@[cur as int] == ele,
                good == (comparable::<T>() && weak_order_on(m) && is_heap(old(self)@)),
                good ==> heap_except_up(self.data@, cur as int),
                good ==> bridged(self.data@, cur as int),
            ensures
                self.data@.len() == old(self).data@.len() + 1,
                self.data@.to_multiset() == m,
                good ==> is_heap(self.data@),
            decreases cur,
        {
            let p = parent(cur);
            if is_less(&self.data[cur], &self.data[p]) {
                let ghost s = self.data@;
                self.swap(cur, p);
                proof {
                    lemma_swapped_contents(s, cur as int, p as int);
                    if good {
                        self.lemma_sift_up_step(s, cur as int, p as int, m);
                    }
                }
                cur = p;
            } else {
                proof {
                    if good {
                        let s = self.data@;
                        assert forall|i: int| 0 < i < s.len() implies not_after(
                            s[parent_of(i)],
                            #[trigger] s[i],
                        ) by {
                            if i == cur {
                                lemma_item_in_contents(s, i);
                                lemma_item_in_contents(s, parent_of(i));
                                lemma_follows_converse(m, s[i], s[parent_of(i)]);
                            }
                        }
                    }
                }
                break ;
            }
        }
    }

    /// Removes and returns the root; the last item takes its place and moves
    /// down, each time swapping with its lesser child, while it is greater
    /// than that child.
    pub fn pop_min(&mut self) -> (r: Option<T>)
        requires
            old(self)@.len() <= usize::MAX / 2,
        ensures
            old(self)@.len() == 0 ==> r is None && final(self)@ == old(self)@,
            old(self)@.len() > 0 ==> {
                &&& r == Some(old(self)@[0])
                &&& final(self)@.len() == old(self)@.len() - 1
                &&& final(self).contents() == old(self).contents().remove(old(self)@[0])
            },
            comparable::<T>() && weak_order_on(old(self).contents()) && old(self).ordered() ==> {
                &&& final(self).ordered()
                &&& weak_order_on(final(self).contents())
                &&& r matches Some(x) ==> pop_step(old(self).contents(), x, final(self).contents())
            },
    {
        if self.data.len() == 0 {
            return None;
        }
        let ghost o = self.data@;
        let ghost m = o.to_multiset();
        let ghost good = comparable::<T>() && weak_order_on(m) && is_heap(o);
        let result = self.data[0];
        let tail_index = self.data.len() - 1;
        let tail = self.data[tail_index];
        self.data.set(0, tail);
        self.data.pop();
        proof {
            self.lemma_after_take_root(o, m, good);
            if good {
                assert forall|y: T| m.contains(y) implies #[trigger] not_after(result, y) by {
                    assert(o.to_multiset().count(y) > 0);
                    assert(o.contains(y));
                    let k = choose|k: int| 0 <= k < o.len() && o[k] == y;
                    lemma_root_first(o, k);
                }
            }
        }
        if self.data.len() > 0 {
            let ghost m2 = self.data@.to_multiset();
            let mut cur: usize = 0;
            loop
                invariant
                    cur < self.data@.len(),
                    self.data@.len() == o.len() - 1,
                    o.len() <= usize::MAX / 2,
                    self.data@.to_multiset() == m2,
                    m2 == m.remove(o[0]),
                    good == (comparable::<T>() && weak_order_on(m) && is_heap(o)),
                    good ==> heap_except_down(self.data@, cur as int),
                    good ==> bridged(self.data@, cur as int),
                ensures
                    self.data@.len() == o.len() - 1,
                    self.data@.to_multiset() == m2,
                    good ==> is_heap(self.data@),
                decreases self.data@.len() - cur,
            {
                let mut next = cur;
                let l = lchild(cur);
                let r = rchild(cur);
                let size = self.data.len();
                if l < size && r < size {
                    next = if is_greater(&self.data[l], &self.data[r]) {
                        r
                    } else {
                        l
                    };
                } else if l < size {
                    next = l;
                }
                proof {
                    if good {
                        self.lemma_lesser_child(cur as int, next as int, m);
                    }
                }
                if next != cur && is_greater(&self.data[cur], &self.data[next]) {
                    let ghost s = self.data@;
                    self.swap(cur, next);
                    proof {
                        lemma_swapped_contents(s, cur as int, next as int);
                        if good {
                            self.lemma_sift_down_step(s, cur as int, next as int, m);
                        }
                    }
                    cur = next;
                    continue ;
                }
                proof {
                    if good {
                        self.lemma_sift_down_stop(cur as int, next as int, m);
                    }
                }
                break ;
            }
        }
        proof {
            if good {
                lemma_item_in_contents(o, 0);
                lemma_weak_order_sub(m, self.data@.to_multiset());
            }
        }
        Some(result)
    }

    proof fn lemma_after_take_root(&self, o: Seq<T>, m: Multiset<T>, good: bool)
        requires
            o.len() > 0,
            m == o.to_multiset(),
            self@ == o.update(0, o[o.len() - 1]).drop_last(),
            good ==> weak_order_on(m) && is_heap(o),
        ensures
            self@.to_multiset() == m.remove(o[0]),
            good ==> heap_except_down(self@, 0),
            good ==> bridged(self@, 0),
    {
        broadcast use vstd::multiset::group_multiset_properties;

        let n = o.len();
        let u = o.update(0, o[n - 1]);
        assert(u.to_multiset() == m.insert(o[n - 1]).remove(o[0]));
        assert(u.drop_last() == u.remove(n - 1));
        assert(u.remove(n - 1).to_multiset() == u.to_multiset().remove(u[n - 1]));
        if n == 1 {
            assert(u[0] == o[0]);
            assert(m.insert(o[0]).remove(o[0]).remove(o[0]) =~= m.remove(o[0]));
        } else {
            assert(u[n - 1] == o[n - 1]);
            lemma_item_in_contents(o, 0);
            assert(m.insert(o[n - 1]).remove(o[0]).remove(o[n - 1]) =~= m.remove(o[0]));
        }
        if good {
            let s = self@;
            assert forall|i: int| 0 < i < s.len() && parent_of(i) != 0 implies not_after(
                s[parent_of(i)],
                #[trigger] s[i],
            ) by {
                assert(s[i] == o[i]);
                assert(s[parent_of(i)] == o[parent_of(i)]);
            }
        }
    }

    /// The child that sifting down picks is not after its sibling.
    proof fn lemma_lesser_child(&self, cur: int, next: int, m: Multiset<T>)
        requires
            0 <= cur < self@.len(),
            weak_order_on(m),
            forall|x: T| self.contents().contains(x) ==> m.contains(x),
            next == cur || next == 2 * cur + 1 || next == 2 * cur + 2,
            0 <= next < self@.len(),
            next == cur <==> 2 * cur + 1 >= self@.len(),
            2 * cur + 2 < self@.len() ==> (next == 2 * cur + 2 <==> follows(
                self@[2 * cur + 1],
                self@[2 * cur + 2],
            )),
        ensures
            forall|i: int|
                0 < i < self@.len() && parent_of(i) == cur ==> #[trigger] not_after(
                    self@[next],
                    self@[i],
                ),
    {
        let s = self@;
        assert forall|i: int| 0 < i < s.len() && parent_of(i) == cur implies #[trigger] not_after(
            s[next],
            s[i],
        ) by {
            lemma_item_in_contents(s, i);
            lemma_item_in_contents(s, next);
            if i == next {
                assert(!(precedes(s[i], s[i]) && precedes(s[i], s[i])));
            } else if i == 2 * cur + 1 {
                assert(next == 2 * cur + 2);
                assert(follows(s[i], s[next]));
                lemma_follows_converse(m, s[i], s[next]);
                lemma_precedes_not_after(m, s[next], s[i]);
            } else {
                assert(i == 2 * cur + 2);
                assert(next == 2 * cur + 1);
                assert(!follows(s[next], s[i]));
                lemma_follows_converse(m, s[next], s[i]);
            }
        }
    }

    proof fn lemma_sift_down_step(&self, s: Seq<T>, cur: int, next: int, m: Multiset<T>)
        requires
            0 <= cur < next < s.len(),
            parent_of(next) == cur,
            self@ == swapped(s, cur, next),
            weak_order_on(m),
            forall|x: T| s.to_multiset().contains(x) ==> m.contains(x),
            heap_except_down(s, cur),
            bridged(s, cur),
            follows(s[cur], s[next]),
            forall|i: int|
                0 < i < s.len() && parent_of(i) == cur ==> #[trigger] not_after(s[next], s[i]),
        ensures
            heap_except_down(self@, next),
            bridged(self@, next),
    {
        let n = self@;
        let v = s[cur];
        let x = s[next];
        lemma_item_in_contents(s, cur);
        lemma_item_in_contents(s, next);
        lemma_follows_converse(m, v, x);
        lemma_precedes_not_after(m, x, v);
        assert forall|i: int| 0 < i < n.len() && parent_of(i) != next implies not_after(
            n[parent_of(i)],
            #[trigger] n[i],
        ) by {
            let q = parent_of(i);
            if i == next {
            } else if q == cur {
                assert(not_after(s[next], s[i]));
            } else if i == cur {
                assert(not_after(s[parent_of(cur)], s[next]));
            } else {
                assert(n[i] == s[i]);
                assert(n[q] == s[q]);
            }
        }
        assert forall|i: int| 0 < i < n.len() && parent_of(i) == next implies not_after(
            n[parent_of(next)],
            #[trigger] n[i],
        ) by {
            assert(i != cur && i != next);
            assert(not_after(s[next], s[i]));
        }
    }

    proof fn lemma_sift_down_stop(&self, cur: int, next: int, m: Multiset<T>)
        requires
            0 <= cur < self@.len(),
            weak_order_on(m),
            forall|x: T| self.contents().contains(x) ==> m.contains(x),
            heap_except_down(self@, cur),
            next == cur || parent_of(next) == cur,
            next == cur <==> 2 * cur + 1 >= self@.len(),
            0 <= next < self@.len(),
            next != cur ==> !follows(self@[cur], self@[next]),
            forall|i: int|
                0 < i < self@.len() && parent_of(i) == cur ==> #[trigger] not_after(
                    self@[next],
                    self@[i],
                ),
        ensures
            is_heap(self@),
    {
        let s = self@;
        lemma_item_in_contents(s, cur);
        lemma_item_in_contents(s, next);
        lemma_follows_converse(m, s[cur], s[next]);
        assert forall|i: int| 0 < i < s.len() implies not_after(s[parent_of(i)], #[trigger] s[i]) by {
            if parent_of(i) == cur {
                assert(i >= 2 * cur + 1);
                assert(next != cur);
                assert(not_after(s[next], s[i]));
                lemma_item_in_contents(s, i);
                lemma_not_after_trans(m, s[cur], s[next], s[i]);
            }
        }
    }

    proof fn lemma_sift_up_step(&self, s: Seq<T>, cur: int, p: int, m: Multiset<T>)
        requires
            0 < cur < s.len(),
            p == parent_of(cur),
            self@ == swapped(s, cur, p),
            s.to_multiset() == m,
            weak_order_on(m),
            heap_except_up(s, cur),
            bridged(s, cur),
            precedes(s[cur], s[p]),
        ensures
            heap_except_up(self@, p),
            bridged(self@, p),
    {
        let n = self@;
        let x = s[cur];
        let y = s[p];
        lemma_item_in_contents(s, cur);
        lemma_item_in_contents(s, p);
        lemma_precedes_not_after(m, x, y);
        assert forall|i: int| 0 < i < n.len() && i != p implies not_after(
            n[parent_of(i)],
            #[trigger] n[i],
        ) by {
            let q = parent_of(i);
            if i == cur {
            } else if q == cur {
                assert(not_after(s[parent_of(cur)], s[i]));
            } else if q == p {
                assert(not_after(s[p], s[i]));
                lemma_item_in_contents(s, i);
                lemma_not_after_trans(m, x, y, s[i]);
            } else {
                assert(n[i] == s[i]);
                assert(n[q] == s[q]);
            }
        }
        assert forall|i: int| p > 0 && 0 < i < n.len() && parent_of(i) == p implies not_after(
            n[parent_of(p)],
            #[trigger] n[i],
        ) by {
            let g = parent_of(p);
            assert(not_after(s[g], s[p]));
            if i != cur {
                assert(not_after(s[p], s[i]));
                lemma_item_in_contents(s, g);
                lemma_item_in_contents(s, i);
                lemma_not_after_trans(m, s[g], y, s[i]);
            }
        }
    }
}

} // verus!
