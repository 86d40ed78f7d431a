//! Rebuilding chunk meshes after new terrain-field data arrives: chunks
//! touched by an arrival are rebuilt at once unless their entity already
//! has a mesh in flight, in which case they wait in a queue that is drained
//! a bounded number of entries per frame.

use vstd::prelude::*;
use std::collections::VecDeque;
use crate::cell::CellKey;

verus! {

/// Queue entries drained per frame.
pub const LEARNED_FIELD_REBUILD_BUDGET: usize = 8;

/// Whether entity `id` has a mesh in flight: it was busy when the frame
/// began or it was given a rebuild earlier in this frame.
pub open spec fn mesh_in_flight(id: u64, busy: Seq<u64>, rebuilt: Seq<(u64, CellKey)>) -> bool {
    busy.contains(id) || exists|k: int| 0 <= k < rebuilt.len() && (#[trigger] rebuilt[k]).0 == id
}

/// Whether some queued entry is for `key`.
pub open spec fn queued_for(queue: Seq<(u64, CellKey)>, key: CellKey) -> bool {
    exists|k: int| 0 <= k < queue.len() && (#[trigger] queue[k]).1 == key
}

/// One chunk touched by an arrival. `live` lists each chunk entity with the
/// cell it holds now: an entry whose entity no longer holds that cell is
/// dropped; one whose entity has a mesh in flight is queued (unless its
/// cell already is); otherwise it is rebuilt now.
pub open spec fn touch_step(
    queue: Seq<(u64, CellKey)>,
    rebuilt: Seq<(u64, CellKey)>,
    e: (u64, CellKey),
    live: Seq<(u64, CellKey)>,
    busy: Seq<u64>,
) -> (Seq<(u64, CellKey)>, Seq<(u64, CellKey)>) {
    if !live.contains(e) {
        (queue, rebuilt)
    } else if mesh_in_flight(e.0, busy, rebuilt) {
        if queued_for(queue, e.1) { (queue, rebuilt) } else { (queue.push(e), rebuilt) }
    } else {
        (queue, rebuilt.push(e))
    }
}

/// Queue and rebuilds after the first `n` touched chunks.
pub open spec fn after_touches(
    queue: Seq<(u64, CellKey)>,
    touched: Seq<(u64, CellKey)>,
    live: Seq<(u64, CellKey)>,
    busy: Seq<u64>,
    n: nat,
) -> (Seq<(u64, CellKey)>, Seq<(u64, CellKey)>)
    decreases n,
{
    if n == 0 {
        (queue, Seq::empty())
    } else {
        let (q, r) = after_touches(queue, touched, live, busy, (n - 1) as nat);
        touch_step(q, r, touched[n - 1], live, busy)
    }
}

/// One queued entry, taken from the front: dropped when its entity no
/// longer holds its cell, moved to the back while its entity has a mesh in
/// flight, rebuilt otherwise.
pub open spec fn drain_step(
    queue: Seq<(u64, CellKey)>,
    rebuilt: Seq<(u64, CellKey)>,
    live: Seq<(u64, CellKey)>,
    busy: Seq<u64>,
) -> (Seq<(u64, CellKey)>, Seq<(u64, CellKey)>) {
    if queue.len() == 0 {
        (queue, rebuilt)
    } else {
        let e = queue[0];
        let rest = queue.subrange(1, queue.len() as int);
        if !live.contains(e) {
            (rest, rebuilt)
        } else if mesh_in_flight(e.0, busy, rebuilt) {
            (rest.push(e), rebuilt)
        } else {
            (rest, rebuilt.push(e))
        }
    }
}

/// Queue and rebuilds after `n` drain steps.
pub open spec fn after_drain(
    queue: Seq<(u64, CellKey)>,
    rebuilt: Seq<(u64, CellKey)>,
    live: Seq<(u64, CellKey)>,
    busy: Seq<u64>,
    n: nat,
) -> (Seq<(u64, CellKey)>, Seq<(u64, CellKey)>)
    decreases n,
{
    if n == 0 {
        (queue, rebuilt)
    } else {
        let (q, r) = after_drain(queue, rebuilt, live, busy, (n - 1) as nat);
        drain_step(q, r, live, busy)
    }
}

/// A frame of field refreshes: the touched chunks in order, then
/// `min(queue length, budget)` drain steps on the queue as it stands after
/// them. Gives the final queue and the chunks to rebuild now, in order.
pub open spec fn spec_refresh_field_chunks(
    queue: Seq<(u64, CellKey)>,
    touched: Seq<(u64, CellKey)>,
    live: Seq<(u64, CellKey)>,
    busy: Seq<u64>,
    budget: usize,
) -> (Seq<(u64, CellKey)>, Seq<(u64, CellKey)>) {
    let (q, r) = after_touches(queue, touched, live, busy, touched.len());
    let attempts = if q.len() < budget { q.len() } else { budget as nat };
    after_drain(q, r, live, busy, attempts)
}

/// Whether `e` is one of `entries`.
fn contains_entry(entries: &[(u64, CellKey)], e: (u64, CellKey)) -> (b: bool)
    ensures
        b == entries@.contains(e),
{
    let mut m: usize = 0;
    while m < entries.len()
        invariant
            m <= entries@.len(),
            forall|x: int| 0 <= x < m ==> entries@[x] != e,
        decreases entries@.len() - m,
    {
        let x = entries[m];
        if x.0 == e.0 && x.1 == e.1 {
            return true;
        }
        m = m + 1;
    }
    false
}

/// Whether `id` has a mesh in flight (see `mesh_in_flight`).
fn in_flight(id: u64, busy: &[u64], rebuilt: &Vec<(u64, CellKey)>) -> (b: bool)
    ensures
        b == mesh_in_flight(id, busy@, rebuilt@),
{
    let mut m: usize = 0;
    while m < busy.len()
        invariant
            m <= busy@.len(),
            forall|x: int| 0 <= x < m ==> busy@[x] != id,
        decreases busy@.len() - m,
    {
        if busy[m] == id {
            assert(busy@[m as int] == id);
            return true;
        }
        m = m + 1;
    }
    let mut k: usize = 0;
    while k < rebuilt.len()
        invariant
            k <= rebuilt@.len(),
            !busy@.contains(id),
            forall|x: int| 0 <= x < k ==> (#[trigger] rebuilt@[x]).0 != id,
        decreases rebuilt@.len() - k,
    {
        if rebuilt[k].0 == id {
            return true;
        }
        k = k + 1;
    }
    false
}

/// Whether some entry of `queue` is for `key`.
fn is_queued(queue: &VecDeque<(u64, CellKey)>, key: CellKey) -> (b: bool)
    ensures
        b == queued_for(queue@, key),
{
    let mut k: usize = 0;
    while k < queue.len()
        invariant
            k <= queue@.len(),
            forall|x: int| 0 <= x < k ==> (#[trigger] queue@[x]).1 != key,
        decreases queue@.len() - k,
    {
        if queue[k].1 == key {
            return true;
        }
        k = k + 1;
    }
    false
}

/// A frame of field refreshes (see `spec_refresh_field_chunks`): `touched`
/// lists the chunks (entity, cell) that the arrived data covers, `live`
/// each chunk entity with the cell it holds, `busy` the entities with a
/// mesh queued or running. Updates the waiting queue and returns the chunks
/// to rebuild now; no entity is given two rebuilds in one frame.
pub fn refresh_field_chunks(
    queue: &mut VecDeque<(u64, CellKey)>,
    touched: &[(u64, CellKey)],
    live: &[(u64, CellKey)],
    busy: &[u64],
    budget: usize,
) -> (rebuild: Vec<(u64, CellKey)>)
    requires
        old(queue)@.len() + touched@.len() <= usize::MAX,
    ensures
        (final(queue)@, rebuild@) == spec_refresh_field_chunks(old(queue)@, touched@, live@, busy@, budget),
        forall|a: int, b: int| 0 <= a < b < rebuild@.len() ==> rebuild@[a].0 != rebuild@[b].0,
{
    let ghost q0 = queue@;
    let mut rebuild: Vec<(u64, CellKey)> = Vec::new();
    let mut t: usize = 0;
    while t < touched.len()
        invariant
            t <= touched@.len(),
            q0.len() + touched@.len() <= usize::MAX,
            queue@.len() <= q0.len() + t,
            (queue@, rebuild@) == after_touches(q0, touched@, live@, busy@, t as nat),
            forall|a: int, b: int| 0 <= a < b < rebuild@.len() ==> rebuild@[a].0 != rebuild@[b].0,
        decreases touched@.len() - t,
    {
        let e = touched[t];
        if contains_entry(live, e) {
            if in_flight(e.0, busy, &rebuild) {
                if !is_queued(queue, e.1) {
                    queue.push_back(e);
                }
            } else {
                rebuild.push(e);
            }
        }
        t = t + 1;
    }
    let ghost q1 = queue@;
    let ghost r1 = rebuild@;
    let attempts = if queue.len() < budget { queue.len() } else { budget };
    let mut n: usize = 0;
    while n < attempts
        invariant
            n <= attempts,
            (queue@, rebuild@) == after_drain(q1, r1, live@, busy@, n as nat),
            forall|a: int, b: int| 0 <= a < b < rebuild@.len() ==> rebuild@[a].0 != rebuild@[b].0,
        decreases attempts - n,
    {
        match queue.pop_front() {
            Some(e) => {
                if contains_entry(live, e) {
                    if in_flight(e.0, busy, &rebuild) {
                        queue.push_back(e);
                    } else {
                        rebuild.push(e);
                    }
                }
            },
            None => {},
        }
        n = n + 1;
    }
    rebuild
}

/// Without an arrival source the whole terrain is refreshed when the
/// field's revision changes: on a new `revision` the queue is replaced by
/// every live chunk (`live`, in order) and the revision is remembered;
/// otherwise nothing changes.
pub fn requeue_on_revision(
    seen_revision: &mut u64,
    revision: u64,
    queue: &mut VecDeque<(u64, CellKey)>,
    live: &[(u64, CellKey)],
)
    ensures
        *final(seen_revision) == revision,
        *old(seen_revision) != revision ==> final(queue)@ == live@,
        *old(seen_revision) == revision ==> final(queue)@ == old(queue)@,
{
    if *seen_revision != revision {
        *seen_revision = revision;
        queue.clear();
        let mut k: usize = 0;
        while k < live.len()
            invariant
                k <= live@.len(),
                queue@ == live@.subrange(0, k as int),
            decreases live@.len() - k,
        {
            queue.push_back(live[k]);
            k = k + 1;
            assert(queue@ =~= live@.subrange(0, k as int));
        }
        assert(live@.subrange(0, live@.len() as int) =~= live@);
    }
}

} // verus!
