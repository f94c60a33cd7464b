//! The order that a `PartialOrd` impl induces, as the heap and the
//! scheduler read it: `precedes(a, b)` is `a < b`, `follows(a, b)` is `a > b`.
use vstd::prelude::*;
use vstd::std_specs::cmp::PartialOrdSpec;
use core::cmp::Ordering;
use vstd::multiset::Multiset;

verus! {

/// The `PartialOrd` impl of `T` computes what its specification says.
pub open spec fn comparable<T: PartialOrd>() -> bool {
    T::obeys_partial_cmp_spec()
}

/// `a.partial_cmp(&b) == Some(Less)`.
pub open spec fn precedes<T: PartialOrd>(a: T, b: T) -> bool {
    a.partial_cmp_spec(&b) == Some(Ordering::Less)
}

/// `a.partial_cmp(&b) == Some(Greater)`.
pub open spec fn follows<T: PartialOrd>(a: T, b: T) -> bool {
    a.partial_cmp_spec(&b) == Some(Ordering::Greater)
}

/// `a` is not after `b`: `b` does not precede `a`.
pub open spec fn not_after<T: PartialOrd>(a: T, b: T) -> bool {
    !precedes(b, a)
}

/// On the values that `m` holds, `precedes` is a strict weak order and
/// `follows` is its converse: `not_after` is then a total preorder.
pub open spec fn weak_order_on<T: PartialOrd>(m: Multiset<T>) -> bool {
    &&& forall|a: T, b: T|
        #![trigger follows(a, b)]
        m.contains(a) && m.contains(b) ==> (follows(a, b) <==> precedes(b, a))
    &&& forall|a: T, b: T|
        #![trigger precedes(a, b), precedes(b, a)]
        m.contains(a) && m.contains(b) ==> !(precedes(a, b) && precedes(b, a))
    &&& forall|a: T, b: T, c: T|
        #![trigger not_after(a, b), not_after(b, c), not_after(a, c)]
        m.contains(a) && m.contains(b) && m.contains(c) && not_after(a, b) && not_after(b, c)
            ==> not_after(a, c)
}

pub proof fn lemma_not_after_trans<T: PartialOrd>(m: Multiset<T>, a: T, b: T, c: T)
    requires
        weak_order_on(m),
        m.contains(a),
        m.contains(b),
        m.contains(c),
        not_after(a, b),
        not_after(b, c),
    ensures
        not_after(a, c),
{
}

pub proof fn lemma_precedes_not_after<T: PartialOrd>(m: Multiset<T>, a: T, b: T)
    requires
        weak_order_on(m),
        m.contains(a),
        m.contains(b),
        precedes(a, b),
    ensures
        not_after(a, b),
{
    assert(!(precedes(a, b) && precedes(b, a)));
}

pub proof fn lemma_follows_converse<T: PartialOrd>(m: Multiset<T>, a: T, b: T)
    requires
        weak_order_on(m),
        m.contains(a),
        m.contains(b),
    ensures
        follows(a, b) <==> precedes(b, a),
{
    assert(follows(a, b) <==> precedes(b, a));
}

/// Unsigned integers compare by value: any multiset of them is weakly ordered.
pub proof fn lemma_u64_weak_order(m: Multiset<u64>)
    ensures
        comparable::<u64>(),
        weak_order_on(m),
        forall|a: u64, b: u64| #[trigger] precedes(a, b) <==> a < b,
{
}

/// `a < b`, by one call of `partial_cmp`.
pub fn is_less<T: PartialOrd>(a: &T, b: &T) -> (r: bool)
    ensures
        comparable::<T>() ==> (r <==> precedes(*a, *b)),
{
    match a.partial_cmp(b) {
        Some(Ordering::Less) => true,
        _ => false,
    }
}

/// `a > b`, by one call of `partial_cmp`.
pub fn is_greater<T: PartialOrd>(a: &T, b: &T) -> (r: bool)
    ensures
        comparable::<T>() ==> (r <==> follows(*a, *b)),
{
    match a.partial_cmp(b) {
        Some(Ordering::Greater) => true,
        _ => false,
    }
}

} // verus!
