//! Work budgets for mesh generation and the active-chunk cap.

use vstd::prelude::*;
use crate::cell::CellKey;

verus! {

/// `a * b`, or `usize::MAX` when the product overflows.
pub open spec fn sat_mul(a: usize, b: usize) -> int {
    if a * b > usize::MAX { usize::MAX as int } else { a * b }
}

/// `a + b`, or `usize::MAX` when the sum overflows.
pub open spec fn sat_add(a: usize, b: usize) -> int {
    if a + b > usize::MAX { usize::MAX as int } else { a + b }
}

fn saturating_mul(a: usize, b: usize) -> (r: usize)
    ensures
        r == sat_mul(a, b),
{
    match a.checked_mul(b) {
        Some(p) => p,
        None => usize::MAX,
    }
}

/// Mesh jobs that may start now: the free slots under `max_inflight`
/// (zero when already at or over it).
pub fn mesh_dispatch_slots(max_inflight: usize, inflight: usize) -> (slots: usize)
    ensures
        slots == if inflight >= max_inflight { 0 } else { max_inflight - inflight },
{
    max_inflight.saturating_sub(inflight)
}

/// Whether the four meshes of a split may be queued: always when the split
/// is needed for the camera focus, otherwise only while outstanding work
/// plus the four new meshes stays within twice the in-flight limit
/// (saturating arithmetic).
pub fn can_admit_split_meshes(required_for_focus: bool, outstanding_meshes: usize, max_inflight: usize) -> (b: bool)
    ensures
        b == (required_for_focus || sat_add(outstanding_meshes, 4) <= sat_mul(max_inflight, 2)),
{
    required_for_focus || outstanding_meshes.saturating_add(4) <= saturating_mul(max_inflight, 2)
}

/// Whether `active_chunks` reaches `percent` percent of `cap` (saturating
/// arithmetic).
pub fn near_cap(active_chunks: usize, cap: usize, percent: usize) -> (b: bool)
    ensures
        b == (sat_mul(active_chunks, 100) >= sat_mul(cap, percent)),
{
    saturating_mul(active_chunks, 100) >= saturating_mul(cap, percent)
}

/// Whether the meshes attached across render-origin generations stay within
/// the bound of one rebuild of the peak active set per origin state:
/// `attaches <= peak_active_chunks * (origin_shifts + 1)` (saturating).
pub fn cross_generation_work_is_bounded(attaches: usize, origin_shifts: u64, peak_active_chunks: usize) -> (b: bool)
    ensures
        b == (attaches <= sat_mul(
            peak_active_chunks,
            (if origin_shifts == u64::MAX { u64::MAX } else { (origin_shifts + 1) as u64 }) as usize,
        )),
{
    let generations = origin_shifts.saturating_add(1) as usize;
    attaches <= saturating_mul(peak_active_chunks, generations)
}

/// The queued mesh requests (entity, cell) whose entity still holds that
/// cell (`live` lists each chunk entity with its cell), in order; the
/// others are stale and dropped.
pub open spec fn spec_live_requests(requests: Seq<(u64, CellKey)>, live: Seq<(u64, CellKey)>) -> Seq<(u64, CellKey)>
    decreases requests.len(),
{
    if requests.len() == 0 {
        Seq::empty()
    } else {
        let before = spec_live_requests(requests.drop_last(), live);
        if live.contains(requests.last()) { before.push(requests.last()) } else { before }
    }
}

/// The live mesh requests (see `spec_live_requests`).
pub fn live_mesh_requests(requests: &[(u64, CellKey)], live: &[(u64, CellKey)]) -> (kept: Vec<(u64, CellKey)>)
    ensures
        kept@ == spec_live_requests(requests@, live@),
{
    let mut kept: Vec<(u64, CellKey)> = Vec::new();
    let mut k: usize = 0;
    while k < requests.len()
        invariant
            k <= requests@.len(),
            kept@ == spec_live_requests(requests@.subrange(0, k as int), live@),
        decreases requests@.len() - k,
    {
        let r = requests[k];
        let mut found = false;
        let mut m: usize = 0;
        while m < live.len()
            invariant
                m <= live@.len(),
                found == exists|x: int| 0 <= x < m && live@[x] == r,
            decreases live@.len() - m,
        {
            let l = live[m];
            if l.0 == r.0 && l.1 == r.1 {
                found = true;
            }
            m = m + 1;
        }
        if found {
            kept.push(r);
        }
        assert(requests@.subrange(0, k + 1).drop_last() =~= requests@.subrange(0, k as int));
        k = k + 1;
    }
    assert(requests@.subrange(0, requests@.len() as int) =~= requests@);
    kept
}

/// Splits the live requests, already in priority order, into those started
/// now (the first `slots`) and those queued again (the rest, in order).
pub fn split_mesh_dispatch(requests: &[(u64, CellKey)], slots: usize) -> (r: (Vec<(u64, CellKey)>, Vec<(u64, CellKey)>))
    ensures
        r.0@ == requests@.take(if slots < requests@.len() { slots as int } else { requests@.len() as int }),
        r.1@ == requests@.skip(if slots < requests@.len() { slots as int } else { requests@.len() as int }),
{
    let cut = if slots < requests.len() { slots } else { requests.len() };
    let mut now: Vec<(u64, CellKey)> = Vec::new();
    let mut later: Vec<(u64, CellKey)> = Vec::new();
    let mut k: usize = 0;
    while k < requests.len()
        invariant
            k <= requests@.len(),
            cut <= requests@.len(),
            now@ == requests@.take(if k < cut { k as int } else { cut as int }),
            later@ == (if k <= cut { Seq::<(u64, CellKey)>::empty() } else { requests@.subrange(cut as int, k as int) }),
        decreases requests@.len() - k,
    {
        if k < cut {
            now.push(requests[k]);
        } else {
            later.push(requests[k]);
        }
        k = k + 1;
        assert(now@ =~= requests@.take(if k < cut { k as int } else { cut as int }));
        assert(later@ =~= (if k <= cut { Seq::<(u64, CellKey)>::empty() } else { requests@.subrange(cut as int, k as int) }));
    }
    assert(later@ =~= requests@.skip(cut as int));
    (now, later)
}

} // verus!
