//! System calls: what each one checks, decides and answers. Page-table
//! queries reach them as closures; where a call goes on to act on the
//! kernel's own objects (files, user memory, the page table), it hands back
//! what is to be done, and hands back nothing to do when it refuses.
use vstd::prelude::*;
use crate::config::PAGE_SIZE;

pub mod fs;
pub mod memory;
pub mod process;

verus! {

/// Page permission bits, as the page table stores them.
pub const MAP_R: u8 = 0x2;

pub const MAP_W: u8 = 0x4;

pub const MAP_X: u8 = 0x8;

pub const MAP_U: u8 = 0x10;

/// `r` is the final answer `code`: the call was refused or is done, and
/// nothing is left to carry out.
pub open spec fn answers<T>(r: Result<T, isize>, code: int) -> bool {
    match r {
        Err(e) => e == code,
        Ok(_) => false,
    }
}

/// The start of the page that holds address `a`.
pub open spec fn page_floor(a: int) -> int {
    a / 4096 * 4096
}

/// A scan of `[start, end)` asks about page address `p`: the addresses
/// `start`, `start + PAGE_SIZE`, ... below `end`.
pub open spec fn visits(start: int, end: int, p: int) -> bool {
    start <= p < end && (p - start) % 4096 == 0
}

/// Each address that a scan of `[start, end)` visits can get no answer
/// but `expect` from `query`.
pub open spec fn surely<M: Fn(usize, u8) -> bool>(
    query: M,
    start: int,
    end: int,
    perm: u8,
    expect: bool,
) -> bool {
    forall|p: usize, b: bool|
        visits(start, end, p as int) && #[trigger] call_ensures(query, (p, perm), b) ==> b == expect
}

/// Every address that a scan of `[start, end)` visits got the answer `expect`.
pub open spec fn all_answered<M: Fn(usize, u8) -> bool>(
    query: M,
    start: int,
    end: int,
    perm: u8,
    expect: bool,
) -> bool {
    forall|p: usize|
        visits(start, end, p as int) ==> #[trigger] call_ensures(query, (p, perm), expect)
}

/// Some address that a scan of `[start, end)` visits can only be answered
/// `false`: its page lacks the permission `perm`.
pub open spec fn refused<M: Fn(usize, u8) -> bool>(query: M, start: int, end: int, perm: u8) -> bool {
    exists|p: usize|
        visits(start, end, p as int) && forall|b: bool| #[trigger]
            call_ensures(query, (p, perm), b) ==> !b
}

/// A scan whose every address got the answer `true` met no refused page.
pub proof fn lemma_not_refused<M: Fn(usize, u8) -> bool>(query: M, start: int, end: int, perm: u8)
    requires
        all_answered(query, start, end, perm, true),
    ensures
        !refused(query, start, end, perm),
{
    if refused(query, start, end, perm) {
        let p = choose|p: usize|
            visits(start, end, p as int) && forall|b: bool| #[trigger]
                call_ensures(query, (p, perm), b) ==> !b;
        assert(call_ensures(query, (p, perm), true));
    }
}

/// The page of every address in `[lo, hi)` is one that a scan from the page
/// of `lo` up to `hi` visits.
pub proof fn lemma_scan_covers(lo: int, hi: int, a: int)
    requires
        0 <= lo <= a < hi,
    ensures
        visits(page_floor(lo), hi, page_floor(a)),
{
    assert(page_floor(lo) <= page_floor(a)) by (nonlinear_arith)
        requires
            lo <= a,
            0 <= lo,
    ;
    assert(page_floor(a) <= a) by (nonlinear_arith)
        requires
            0 <= a,
    ;
    assert((page_floor(a) - page_floor(lo)) % 4096 == 0) by (nonlinear_arith)
        requires
            0 <= lo,
            0 <= a,
    ;
}

/// A buffer `[buf, buf + len)` one of whose bytes lies in a page that lacks
/// `perm` is refused by the scan from the page of `buf` up to `buf + len`.
pub proof fn lemma_byte_refused<M: Fn(usize, u8) -> bool>(
    query: M,
    buf: usize,
    len: usize,
    a: usize,
    perm: u8,
)
    requires
        buf <= a < buf + len,
        forall|b: bool| #[trigger] call_ensures(query, ((a / 4096 * 4096) as usize, perm), b) ==> !b,
    ensures
        refused(query, page_floor(buf as int), buf + len, perm),
{
    lemma_scan_covers(buf as int, buf + len, a as int);
    let p = (a / 4096 * 4096) as usize;
    assert(p as int == page_floor(a as int));
    assert(visits(page_floor(buf as int), buf + len, p as int));
}

pub open spec fn query_total<M: Fn(usize, u8) -> bool>(query: M, perm: u8) -> bool {
    forall|p: usize| #[trigger] call_requires(query, (p, perm))
}

/// Asks `query` about each page address from `start` up to `end`, one page
/// apart, and stops at the first answer that is not `expect`. Returns whether
/// every answer was `expect`.
pub fn pages_answer<M: Fn(usize, u8) -> bool>(
    start: usize,
    end: usize,
    perm: u8,
    expect: bool,
    query: &M,
) -> (r: bool)
    requires
        query_total(*query, perm),
    ensures
        r ==> all_answered(*query, start as int, end as int, perm, expect),
        !r ==> exists|p: usize, b: bool|
            visits(start as int, end as int, p as int) && b != expect && #[trigger] call_ensures(
                *query,
                (p, perm),
                b,
            ),
{
    let mut cur = start;
    while cur < end
        invariant
            start <= cur,
            (cur - start) % 4096 == 0,
            query_total(*query, perm),
            forall|p: usize|
                visits(start as int, cur as int, p as int) ==> #[trigger] call_ensures(
                    *query,
                    (p, perm),
                    expect,
                ),
        ensures
            all_answered(*query, start as int, end as int, perm, expect),
        decreases end + PAGE_SIZE - cur,
    {
        let answer = query(cur, perm);
        if answer != expect {
            return false;
        }
        if cur > usize::MAX - PAGE_SIZE {
            assert forall|p: usize| visits(start as int, end as int, p as int) implies #[trigger] call_ensures(
                *query,
                (p, perm),
                expect,
            ) by {
                if p > cur {
                    assert(p - cur >= 4096);
                }
            }
            break ;
        }
        cur = cur + PAGE_SIZE;
    }
    true
}

} // verus!
