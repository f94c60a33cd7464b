//! Memory system calls.
use vstd::prelude::*;
use crate::config::PAGE_SIZE;
use crate::syscall::{all_answered, answers, pages_answer, query_total, surely, visits, MAP_R, MAP_U, MAP_W, MAP_X};

verus! {

/// The permission that `prot` asks for: user access, and read, write and
/// execute as its bits 0, 1 and 2 say.
pub open spec fn mmap_permission(prot: usize) -> u8 {
    let p = MAP_U;
    let p = if prot & 1 != 0 {
        p | MAP_R
    } else {
        p
    };
    let p = if prot & 2 != 0 {
        p | MAP_W
    } else {
        p
    };
    if prot & 4 != 0 {
        p | MAP_X
    } else {
        p
    }
}

/// `prot` is valid exactly when it is one of 1 to 7.
pub proof fn lemma_prot_valid(prot: usize)
    ensures
        prot_valid(prot) <==> 1 <= prot <= 7,
{
    assert(prot_valid(prot) <==> 1 <= prot <= 7) by (bit_vector);
}

/// The size answered for `len` bytes is the least multiple of the page size
/// that is at least `len`.
pub proof fn lemma_page_round_up(len: nat)
    ensures
        page_round_up(len as int) % 4096 == 0,
        len <= page_round_up(len as int) < len + 4096,
{
    let q = (len + 4095) / 4096;
    assert(q * 4096 <= len + 4095 < q * 4096 + 4096) by (nonlinear_arith)
        requires
            q == (len + 4095) / 4096,
    ;
    assert((q * 4096) % 4096 == 0) by (nonlinear_arith);
}

/// The permission granted for `prot`: always user access, and read, write
/// and execute each exactly when its own bit of `prot` (0, 1 and 2) is set;
/// no other bit.
pub proof fn lemma_mmap_permission_bits(prot: usize)
    ensures
        mmap_permission(prot) & MAP_U == MAP_U,
        (mmap_permission(prot) & MAP_R == MAP_R) <==> (prot & 1 != 0),
        (mmap_permission(prot) & MAP_W == MAP_W) <==> (prot & 2 != 0),
        (mmap_permission(prot) & MAP_X == MAP_X) <==> (prot & 4 != 0),
        mmap_permission(prot) & !(MAP_U | MAP_R | MAP_W | MAP_X) == 0,
{
    assert(mmap_permission(prot) & 0x10u8 == 0x10u8) by (bit_vector);
    assert((mmap_permission(prot) & 0x2u8 == 0x2u8) <==> (prot & 1 != 0)) by (bit_vector);
    assert((mmap_permission(prot) & 0x4u8 == 0x4u8) <==> (prot & 2 != 0)) by (bit_vector);
    assert((mmap_permission(prot) & 0x8u8 == 0x8u8) <==> (prot & 4 != 0)) by (bit_vector);
    assert(mmap_permission(prot) & !(0x10u8 | 0x2u8 | 0x4u8 | 0x8u8) == 0) by (bit_vector);
}

/// `prot` asks for some of read, write and execute, and for nothing else.
pub open spec fn prot_valid(prot: usize) -> bool {
    prot & !7usize == 0 && prot & 7usize != 0
}

/// `len` rounded up to whole pages.
pub open spec fn page_round_up(len: int) -> int {
    (len + 4095) / 4096 * 4096
}

/// Some page that a scan of `[start, end)` visits can only be answered as
/// mapped.
pub open spec fn already_mapped<M: Fn(usize, u8) -> bool>(query: M, start: int, end: int) -> bool {
    exists|p: usize|
        visits(start, end, p as int) && forall|b: bool| #[trigger] call_ensures(query, (p, 0u8), b) ==> b
}

/// A scan whose every page was answered as unmapped met no mapped page.
pub proof fn lemma_none_mapped<M: Fn(usize, u8) -> bool>(query: M, start: int, end: int)
    requires
        all_answered(query, start, end, 0, false),
    ensures
        !already_mapped(query, start, end),
{
    if already_mapped(query, start, end) {
        let p = choose|p: usize|
            visits(start, end, p as int) && forall|b: bool| #[trigger] call_ensures(query, (p, 0u8), b) ==> b;
        assert(call_ensures(query, (p, 0u8), false));
    }
}

/// A mapping that `sys_mmap` granted: the range `[start, end)` with the
/// permission bits `perm`, and `size`, the answer once it is mapped.
pub struct MapArea {
    pub start: usize,
    pub end: usize,
    pub perm: u8,
    pub size: isize,
}

/// Decides a request to map `[start, start + len)` into the current address
/// space with the permission that `prot` asks for. `start` must be
/// page-aligned, `prot` valid and no page of the range mapped yet; else the
/// answer is `Err(-1)` and nothing is to be mapped. `Ok` gives the area to
/// map; `mmap_done` then gives the answer.
pub fn sys_mmap<M: Fn(usize, u8) -> bool>(
    start: usize,
    len: usize,
    prot: usize,
    is_mapped: &M,
) -> (r: Result<MapArea, isize>)
    requires
        start % 4096 == 0 && prot_valid(prot) ==> start + len + 4095 <= usize::MAX,
        query_total(*is_mapped, 0),
    ensures
        start % 4096 != 0 ==> answers(r, -1),
        !prot_valid(prot) ==> answers(r, -1),
        r is Err ==> answers(r, -1),
        start % 4096 == 0 && prot_valid(prot) && already_mapped(*is_mapped, start as int, start + len)
            ==> r is Err,
        r matches Ok(area) ==> {
            &&& start % 4096 == 0
            &&& prot_valid(prot)
            &&& all_answered(*is_mapped, start as int, start + len, 0, false)
            &&& area.start == start
            &&& area.end == start + len
            &&& area.perm == mmap_permission(prot)
            &&& area.size == page_round_up(len as int) as isize
        },
        start % 4096 == 0 && prot_valid(prot) && surely(
            *is_mapped,
            start as int,
            start + len,
            0,
            false,
        ) ==> r is Ok,
{
    if start % PAGE_SIZE != 0 {
        return Err(-1);
    }
    if (prot & !7usize) != 0 || (prot & 7usize) == 0 {
        return Err(-1);
    }
    let end = start + len;
    if !pages_answer(start, end, 0, false, is_mapped) {
        return Err(-1);
    }
    proof {
        lemma_none_mapped(*is_mapped, start as int, end as int);
    }
    let mut permission = MAP_U;
    if (prot & 0x1) != 0 {
        permission = permission | MAP_R;
    }
    if (prot & 0x2) != 0 {
        permission = permission | MAP_W;
    }
    if (prot & 0x4) != 0 {
        permission = permission | MAP_X;
    }
    let size = (len + (PAGE_SIZE - 1)) / PAGE_SIZE * PAGE_SIZE;
    Ok(MapArea { start, end, perm: permission, size: size as isize })
}

/// The answer to a granted mapping: its size when `mapped`, else `-1`.
pub fn mmap_done(area: &MapArea, mapped: bool) -> (r: isize)
    ensures
        r == if mapped {
            area.size
        } else {
            -1isize
        },
{
    if mapped {
        area.size
    } else {
        -1
    }
}

} // verus!
