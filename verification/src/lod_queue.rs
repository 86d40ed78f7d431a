//! One frame of the LOD queue: which of the pending splits and merges are
//! carried out under the per-frame budget, in order, as the quadtree changes
//! under them. Spawning entities and meshes is the caller's; this module
//! decides, on cell keys and entity ids.

use vstd::prelude::*;
use crate::cell::CellKey;
use crate::quadtree::{
    balancing_split_for, children_of, contains_key, has_conflicting_merge, is_child_of_retained_split,
    lemma_cell_can_split, lemma_coarser_neighbor_is_active_and_coarser, parent_of, side_at, spec_balancing_split,
    spec_children, spec_coarser_neighbor, spec_is_ancestor, spec_parent, ActiveChunks,
};
use crate::scheduling::{can_admit_split_meshes, sat_mul};
use crate::culling::is_minimum_coverage_chunk;

verus! {

/// The quadtree while a queue step runs: the active chunks with their
/// entities (a cell created during the step carries entity 0 until the
/// caller spawns it), the cells created during the step, the split parents
/// waiting on a retained handoff, and the splits and merges carried out.
pub struct QueueState {
    pub active: Map<CellKey, u64>,
    pub fresh: Seq<CellKey>,
    pub retained: Seq<CellKey>,
    pub splits: Seq<CellKey>,
    pub merges: Seq<CellKey>,
}

/// The chunk that a requested split actually splits: the coarser neighbour
/// that must split first to keep the tree balanced, else the cell itself.
pub open spec fn split_target(requested: CellKey, active: Map<CellKey, u64>) -> CellKey {
    match spec_balancing_split(requested, active) {
        Some(k) => k,
        None => requested,
    }
}

/// A chunk may be split only once its entity exists, is not in a LOD
/// transition (`busy`) and already has a mesh (`meshed`).
pub open spec fn ready_to_split(st: QueueState, key: CellKey, busy: Seq<u64>, meshed: Seq<u64>) -> bool {
    &&& !st.fresh.contains(key)
    &&& !busy.contains(st.active[key])
    &&& meshed.contains(st.active[key])
}

/// One requested split: within the budget, with room for four more meshes
/// (or needed for the camera focus), on an active chunk that is not the
/// child of a pending handoff and is ready. The chunk is replaced by its
/// four children and becomes a retained parent.
pub open spec fn split_step(
    st: QueueState,
    requested: CellKey,
    focus: bool,
    outstanding_meshes: usize,
    max_inflight: usize,
    budget: usize,
    busy: Seq<u64>,
    meshed: Seq<u64>,
) -> QueueState {
    let key = split_target(requested, st.active);
    let out = outstanding_meshes + 4 * st.splits.len();
    let c = spec_children(key);
    if st.splits.len() >= budget
        || !(focus || out + 4 <= sat_mul(max_inflight, 2))
        || !st.active.contains_key(key)
        || (spec_parent(key) matches Some(p) && st.retained.contains(p))
        || !ready_to_split(st, key, busy, meshed)
    {
        st
    } else {
        QueueState {
            active: st.active.remove(key).insert(c[0], 0).insert(c[1], 0).insert(c[2], 0).insert(c[3], 0),
            fresh: st.fresh.push(c[0]).push(c[1]).push(c[2]).push(c[3]),
            retained: st.retained.push(key),
            splits: st.splits.push(key),
            merges: st.merges,
        }
    }
}

/// The state after the first `n` requested splits.
pub open spec fn after_splits(
    st: QueueState,
    pending: Seq<CellKey>,
    focus: Seq<bool>,
    n: nat,
    outstanding_meshes: usize,
    max_inflight: usize,
    budget: usize,
    busy: Seq<u64>,
    meshed: Seq<u64>,
) -> QueueState
    decreases n,
{
    if n == 0 {
        st
    } else {
        split_step(
            after_splits(st, pending, focus, (n - 1) as nat, outstanding_meshes, max_inflight, budget, busy, meshed),
            pending[n - 1],
            focus[n - 1],
            outstanding_meshes,
            max_inflight,
            budget,
            busy,
            meshed,
        )
    }
}

/// Whether merging `parent` conflicts with a merge already made: one is a
/// strict ancestor of the other.
pub open spec fn conflicts_with_merges(parent: CellKey, merged: Seq<CellKey>) -> bool {
    exists|m: int| 0 <= m < merged.len() && (spec_is_ancestor(#[trigger] merged[m], parent)
        || spec_is_ancestor(parent, merged[m]))
}

/// A child that already existed and is in a LOD transition.
pub open spec fn child_busy(st: QueueState, child: CellKey, busy: Seq<u64>) -> bool {
    !st.fresh.contains(child) && busy.contains(st.active[child])
}

/// One requested merge of `parent`'s children: within the budget, not
/// nested in a merge already made, not a parent still waiting on its split
/// handoff, with all four children active and none in a transition. The
/// children are replaced by a new parent chunk.
pub open spec fn merge_step(st: QueueState, parent: CellKey, budget: usize, busy: Seq<u64>) -> QueueState {
    let c = spec_children(parent);
    if st.merges.len() >= budget
        || conflicts_with_merges(parent, st.merges)
        || st.retained.contains(parent)
        || !(st.active.contains_key(c[0]) && st.active.contains_key(c[1])
            && st.active.contains_key(c[2]) && st.active.contains_key(c[3]))
        || child_busy(st, c[0], busy) || child_busy(st, c[1], busy)
        || child_busy(st, c[2], busy) || child_busy(st, c[3], busy)
    {
        st
    } else {
        QueueState {
            active: st.active.remove(c[0]).remove(c[1]).remove(c[2]).remove(c[3]).insert(parent, 0),
            fresh: st.fresh.push(parent),
            retained: st.retained,
            splits: st.splits,
            merges: st.merges.push(parent),
        }
    }
}

/// The state after the first `n` requested merges.
pub open spec fn after_merges(st: QueueState, pending: Seq<CellKey>, n: nat, budget: usize, busy: Seq<u64>) -> QueueState
    decreases n,
{
    if n == 0 {
        st
    } else {
        merge_step(after_merges(st, pending, (n - 1) as nat, budget, busy), pending[n - 1], budget, busy)
    }
}

/// A whole queue step: the requested splits in order, then the requested
/// merges in order, starting from the active chunks and the retained split
/// parents.
pub open spec fn spec_lod_queue_step(
    active: Map<CellKey, u64>,
    retained: Seq<CellKey>,
    pending_splits: Seq<CellKey>,
    focus: Seq<bool>,
    pending_merges: Seq<CellKey>,
    busy: Seq<u64>,
    meshed: Seq<u64>,
    outstanding_meshes: usize,
    max_inflight: usize,
    budget: usize,
) -> QueueState {
    let start = QueueState {
        active,
        fresh: Seq::empty(),
        retained,
        splits: Seq::empty(),
        merges: Seq::empty(),
    };
    let split = after_splits(
        start,
        pending_splits,
        focus,
        pending_splits.len(),
        outstanding_meshes,
        max_inflight,
        budget,
        busy,
        meshed,
    );
    after_merges(split, pending_merges, pending_merges.len(), budget, busy)
}

/// What a queue step carries out: the chunks split (each replaced by its
/// four children and kept as a retained parent) and the parents merged
/// (each replacing its four children), both in order.
pub struct LodQueuePlan {
    pub splits: Vec<CellKey>,
    pub merges: Vec<CellKey>,
}

/// Whether `id` is one of `ids`.
fn contains_entity(ids: &[u64], id: u64) -> (b: bool)
    ensures
        b == ids@.contains(id),
{
    let mut m: usize = 0;
    while m < ids.len()
        invariant
            m <= ids@.len(),
            forall|x: int| 0 <= x < m ==> ids@[x] != id,
        decreases ids@.len() - m,
    {
        if ids[m] == id {
            return true;
        }
        m = m + 1;
    }
    false
}

/// The keys of `keys` in a vector of their own.
fn copy_keys(keys: &[CellKey]) -> (v: Vec<CellKey>)
    ensures
        v@ == keys@,
{
    let mut v: Vec<CellKey> = Vec::new();
    let mut m: usize = 0;
    while m < keys.len()
        invariant
            m <= keys@.len(),
            v@ == keys@.subrange(0, m as int),
        decreases keys@.len() - m,
    {
        v.push(keys[m]);
        m = m + 1;
        assert(v@ =~= keys@.subrange(0, m as int));
    }
    assert(keys@.subrange(0, keys@.len() as int) =~= keys@);
    v
}

/// Whether an active `child` already existed and is in a LOD transition.
fn is_busy_child(sim: &ActiveChunks, fresh: &[CellKey], busy: &[u64], child: CellKey) -> (b: bool)
    ensures
        sim@.contains_key(child) ==> b == (!fresh@.contains(child) && busy@.contains(sim@[child])),
{
    if contains_key(fresh, child) {
        return false;
    }
    match sim.get(&child) {
        Some(entity) => contains_entity(busy, entity),
        None => false,
    }
}

/// One frame of the LOD queue. `active` holds the live chunks with their
/// entities, `retained_splits` the split parents still waiting on their
/// children's meshes, `focus[k]` whether `pending_splits[k]` contains the
/// camera direction, `busy` the entities in a LOD transition and `meshed`
/// those that have a mesh; `outstanding_meshes` counts the mesh jobs
/// already queued or running. Splits are tried in order, each on the
/// balancing target of the requested cell, then merges in order, each
/// within `budget` per frame (see `spec_lod_queue_step`).
pub fn plan_lod_queue(
    active: &ActiveChunks,
    retained_splits: &[CellKey],
    pending_splits: &[CellKey],
    focus: &[bool],
    pending_merges: &[CellKey],
    busy: &[u64],
    meshed: &[u64],
    outstanding_meshes: usize,
    max_inflight: usize,
    budget: usize,
) -> (plan: LodQueuePlan)
    requires
        focus@.len() == pending_splits@.len(),
        forall|k: int| 0 <= k < pending_splits@.len() ==> (#[trigger] pending_splits@[k]).wf(),
        forall|k: int| 0 <= k < pending_merges@.len() ==> (#[trigger] pending_merges@[k]).wf(),
        outstanding_meshes + 4 * pending_splits@.len() <= usize::MAX,
    ensures
        plan.splits@ == spec_lod_queue_step(active@, retained_splits@, pending_splits@, focus@, pending_merges@,
            busy@, meshed@, outstanding_meshes, max_inflight, budget).splits,
        plan.merges@ == spec_lod_queue_step(active@, retained_splits@, pending_splits@, focus@, pending_merges@,
            busy@, meshed@, outstanding_meshes, max_inflight, budget).merges,
        plan.splits@.len() <= budget,
        plan.merges@.len() <= budget,
{
    let mut sim = active.duplicate();
    let mut fresh: Vec<CellKey> = Vec::new();
    let mut retained = copy_keys(retained_splits);
    let mut splits: Vec<CellKey> = Vec::new();
    let mut merges: Vec<CellKey> = Vec::new();
    let ghost start = QueueState {
        active: active@,
        fresh: Seq::empty(),
        retained: retained_splits@,
        splits: Seq::empty(),
        merges: Seq::empty(),
    };
    let mut i: usize = 0;
    while i < pending_splits.len()
        invariant
            i <= pending_splits@.len(),
            focus@.len() == pending_splits@.len(),
            forall|k: int| 0 <= k < pending_splits@.len() ==> (#[trigger] pending_splits@[k]).wf(),
            outstanding_meshes + 4 * pending_splits@.len() <= usize::MAX,
            splits@.len() <= i,
            splits@.len() <= budget,
            merges@.len() == 0,
            (QueueState { active: sim@, fresh: fresh@, retained: retained@, splits: splits@, merges: merges@ })
                == after_splits(start, pending_splits@, focus@, i as nat, outstanding_meshes, max_inflight, budget,
                    busy@, meshed@),
        decreases pending_splits@.len() - i,
    {
        let requested = pending_splits[i];
        assert(requested.wf());
        if splits.len() < budget {
            let target = balancing_split_for(requested, &sim);
            let key = match target {
                Some(k) => k,
                None => requested,
            };
            proof {
                if target is Some {
                    let w = choose|w: int| 0 <= w < 4 && #[trigger] spec_coarser_neighbor(requested, requested.lod, side_at(w), sim@) == target;
                    lemma_coarser_neighbor_is_active_and_coarser(requested, requested.lod, side_at(w), sim@);
                }
            }
            let out = outstanding_meshes + 4 * splits.len();
            if can_admit_split_meshes(focus[i], out, max_inflight) && sim.contains(&key)
                && !is_child_of_retained_split(key, retained.as_slice()) {
                match sim.get(&key) {
                    Some(entity) => {
                        if !contains_key(fresh.as_slice(), key) && !contains_entity(busy, entity)
                            && contains_entity(meshed, entity) {
                            proof {
                                lemma_cell_can_split(key);
                            }
                            let c = children_of(key);
                            let _ = sim.remove(&key);
                            sim.insert(c[0], 0);
                            sim.insert(c[1], 0);
                            sim.insert(c[2], 0);
                            sim.insert(c[3], 0);
                            fresh.push(c[0]);
                            fresh.push(c[1]);
                            fresh.push(c[2]);
                            fresh.push(c[3]);
                            retained.push(key);
                            splits.push(key);
                        }
                    },
                    None => {},
                }
            }
        }
        i = i + 1;
    }
    let ghost mid = QueueState { active: sim@, fresh: fresh@, retained: retained@, splits: splits@, merges: merges@ };
    let mut m: usize = 0;
    while m < pending_merges.len()
        invariant
            m <= pending_merges@.len(),
            forall|k: int| 0 <= k < pending_merges@.len() ==> (#[trigger] pending_merges@[k]).wf(),
            splits@.len() <= budget,
            merges@.len() <= budget,
            (QueueState { active: sim@, fresh: fresh@, retained: retained@, splits: splits@, merges: merges@ })
                == after_merges(mid, pending_merges@, m as nat, budget, busy@),
        decreases pending_merges@.len() - m,
    {
        let parent = pending_merges[m];
        assert(parent.wf());
        if merges.len() < budget && !has_conflicting_merge(parent, merges.as_slice())
            && !contains_key(retained.as_slice(), parent) {
            proof {
                lemma_cell_can_split(parent);
            }
            let c = children_of(parent);
            if sim.contains(&c[0]) && sim.contains(&c[1]) && sim.contains(&c[2]) && sim.contains(&c[3]) {
                let b0 = is_busy_child(&sim, fresh.as_slice(), busy, c[0]);
                let b1 = is_busy_child(&sim, fresh.as_slice(), busy, c[1]);
                let b2 = is_busy_child(&sim, fresh.as_slice(), busy, c[2]);
                let b3 = is_busy_child(&sim, fresh.as_slice(), busy, c[3]);
                if !b0 && !b1 && !b2 && !b3 {
                    let _ = sim.remove(&c[0]);
                    let _ = sim.remove(&c[1]);
                    let _ = sim.remove(&c[2]);
                    let _ = sim.remove(&c[3]);
                    sim.insert(parent, 0);
                    fresh.push(parent);
                    merges.push(parent);
                }
            }
        }
        m = m + 1;
    }
    LodQueuePlan { splits, merges }
}

/// Every split made during the split phase becomes a retained parent, and
/// the split phase makes no merge.
proof fn lemma_splits_are_retained(
    st: QueueState,
    pending: Seq<CellKey>,
    focus: Seq<bool>,
    n: nat,
    outstanding_meshes: usize,
    max_inflight: usize,
    budget: usize,
    busy: Seq<u64>,
    meshed: Seq<u64>,
)
    requires
        forall|x: CellKey| st.splits.contains(x) ==> st.retained.contains(x),
    ensures
        ({
            let r = after_splits(st, pending, focus, n, outstanding_meshes, max_inflight, budget, busy, meshed);
            &&& forall|x: CellKey| r.splits.contains(x) ==> r.retained.contains(x)
            &&& r.merges == st.merges
        }),
    decreases n,
{
    if n > 0 {
        let m = (n - 1) as nat;
        lemma_splits_are_retained(st, pending, focus, m, outstanding_meshes, max_inflight, budget, busy, meshed);
        let p = after_splits(st, pending, focus, m, outstanding_meshes, max_inflight, budget, busy, meshed);
        let r = after_splits(st, pending, focus, n, outstanding_meshes, max_inflight, budget, busy, meshed);
        assert forall|x: CellKey| r.splits.contains(x) implies r.retained.contains(x) by {
            if r.splits != p.splits {
                let key = split_target(pending[m as int], p.active);
                assert(r.splits == p.splits.push(key));
                assert(r.retained == p.retained.push(key));
                if x == key {
                    assert(r.retained[r.retained.len() - 1] == key);
                } else {
                    let w = choose|w: int| 0 <= w < r.splits.len() && r.splits[w] == x;
                    assert(w < p.splits.len());
                    assert(p.splits[w] == x);
                    assert(p.retained.contains(x));
                    let v = choose|v: int| 0 <= v < p.retained.len() && p.retained[v] == x;
                    assert(r.retained[v] == x);
                }
            }
        }
    }
}

/// The merge phase keeps the retained parents and the splits, and never
/// merges a retained parent.
proof fn lemma_merges_avoid_retained(st: QueueState, pending: Seq<CellKey>, n: nat, budget: usize, busy: Seq<u64>)
    requires
        forall|x: CellKey| st.merges.contains(x) ==> !st.retained.contains(x),
    ensures
        ({
            let r = after_merges(st, pending, n, budget, busy);
            &&& r.retained == st.retained
            &&& r.splits == st.splits
            &&& forall|x: CellKey| r.merges.contains(x) ==> !r.retained.contains(x)
        }),
    decreases n,
{
    if n > 0 {
        let m = (n - 1) as nat;
        lemma_merges_avoid_retained(st, pending, m, budget, busy);
        let p = after_merges(st, pending, m, budget, busy);
        let r = after_merges(st, pending, n, budget, busy);
        assert forall|x: CellKey| r.merges.contains(x) implies !r.retained.contains(x) by {
            if r.merges != p.merges {
                assert(r.merges == p.merges.push(pending[m as int]));
                if x != pending[m as int] {
                    let w = choose|w: int| 0 <= w < r.merges.len() && r.merges[w] == x;
                    assert(p.merges[w] == x);
                }
            }
        }
    }
}

/// A chunk split in a queue step is not merged back in the same step: the
/// split leaves it waiting on its children's handoff, which blocks the
/// merge.
pub proof fn lemma_split_chunks_are_not_merged_back(
    active: Map<CellKey, u64>,
    retained: Seq<CellKey>,
    pending_splits: Seq<CellKey>,
    focus: Seq<bool>,
    pending_merges: Seq<CellKey>,
    busy: Seq<u64>,
    meshed: Seq<u64>,
    outstanding_meshes: usize,
    max_inflight: usize,
    budget: usize,
)
    ensures
        ({
            let st = spec_lod_queue_step(active, retained, pending_splits, focus, pending_merges, busy, meshed,
                outstanding_meshes, max_inflight, budget);
            forall|x: CellKey| st.splits.contains(x) ==> !st.merges.contains(x)
        }),
{
    let start = QueueState { active, fresh: Seq::empty(), retained, splits: Seq::empty(), merges: Seq::empty() };
    lemma_splits_are_retained(start, pending_splits, focus, pending_splits.len(), outstanding_meshes, max_inflight,
        budget, busy, meshed);
    let mid = after_splits(start, pending_splits, focus, pending_splits.len(), outstanding_meshes, max_inflight,
        budget, busy, meshed);
    assert(mid.merges == Seq::<CellKey>::empty());
    lemma_merges_avoid_retained(mid, pending_merges, pending_merges.len(), budget, busy);
}

/// The split requests of a LOD update, in the order of `keys`: the chunks
/// above the deepest level `max_depth` that the camera tests ask to split
/// (`wants_split`), except those whose parent is waiting on a retained
/// merge.
pub open spec fn spec_split_candidates(
    keys: Seq<CellKey>,
    wants_split: Seq<bool>,
    max_depth: u8,
    retained_merges: Seq<CellKey>,
) -> Seq<CellKey>
    decreases keys.len(),
{
    if keys.len() == 0 {
        Seq::empty()
    } else {
        let before = spec_split_candidates(keys.drop_last(), wants_split.drop_last(), max_depth, retained_merges);
        let key = keys.last();
        if wants_split.last() && key.lod < max_depth
            && !(spec_parent(key) matches Some(p) && retained_merges.contains(p)) {
            before.push(key)
        } else {
            before
        }
    }
}

/// The split requests of a LOD update (see `spec_split_candidates`).
pub fn split_candidates(keys: &[CellKey], wants_split: &[bool], max_depth: u8, retained_merges: &[CellKey]) -> (c: Vec<CellKey>)
    requires
        keys@.len() == wants_split@.len(),
    ensures
        c@ == spec_split_candidates(keys@, wants_split@, max_depth, retained_merges@),
        forall|x: int| 0 <= x < c@.len() ==> (#[trigger] c@[x]).lod < max_depth,
{
    let mut c: Vec<CellKey> = Vec::new();
    let mut k: usize = 0;
    while k < keys.len()
        invariant
            k <= keys@.len(),
            keys@.len() == wants_split@.len(),
            c@ == spec_split_candidates(keys@.subrange(0, k as int), wants_split@.subrange(0, k as int), max_depth, retained_merges@),
            forall|x: int| 0 <= x < c@.len() ==> (#[trigger] c@[x]).lod < max_depth,
        decreases keys@.len() - k,
    {
        let key = keys[k];
        if wants_split[k] && key.lod < max_depth && !is_child_of_retained_split(key, retained_merges) {
            c.push(key);
        }
        proof {
            let ks = keys@.subrange(0, k + 1);
            let ws = wants_split@.subrange(0, k + 1);
            assert(ks.drop_last() =~= keys@.subrange(0, k as int));
            assert(ws.drop_last() =~= wants_split@.subrange(0, k as int));
        }
        k = k + 1;
    }
    assert(keys@.subrange(0, keys@.len() as int) =~= keys@);
    assert(wants_split@.subrange(0, wants_split@.len() as int) =~= wants_split@);
    c
}

/// Whether `p` is a parent a LOD update checks for merging: the parent of
/// one of `keys`, above the coverage floor, and not already waiting on a
/// retained split or merge.
pub open spec fn is_merge_parent_to_check(
    p: CellKey,
    keys: Seq<CellKey>,
    retained_splits: Seq<CellKey>,
    retained_merges: Seq<CellKey>,
) -> bool {
    &&& exists|k: int| 0 <= k < keys.len() && spec_parent(#[trigger] keys[k]) == Some(p)
    &&& p.lod != 0
    &&& !retained_splits.contains(p)
    &&& !retained_merges.contains(p)
}

/// The parents a LOD update checks for merging (see
/// `is_merge_parent_to_check`), each once, in the order their first child
/// appears in `keys`.
pub fn merge_parents_to_check(keys: &[CellKey], retained_splits: &[CellKey], retained_merges: &[CellKey]) -> (parents: Vec<CellKey>)
    ensures
        parents@.no_duplicates(),
        forall|p: CellKey| parents@.contains(p) <==> is_merge_parent_to_check(p, keys@, retained_splits@, retained_merges@),
{
    let mut parents: Vec<CellKey> = Vec::new();
    let mut k: usize = 0;
    while k < keys.len()
        invariant
            k <= keys@.len(),
            parents@.no_duplicates(),
            forall|p: CellKey| parents@.contains(p) <==> is_merge_parent_to_check(p, keys@.subrange(0, k as int), retained_splits@, retained_merges@),
        decreases keys@.len() - k,
    {
        let ghost before = keys@.subrange(0, k as int);
        let ghost after = keys@.subrange(0, k + 1);
        let ghost old_parents = parents@;
        proof {
            assert forall|x: int| 0 <= x < k implies #[trigger] after[x] == before[x] by {}
            assert(after[k as int] == keys@[k as int]);
        }
        let parent = parent_of(keys[k]);
        match parent {
            Some(p) => {
                if !is_minimum_coverage_chunk(p) && !contains_key(retained_splits, p)
                    && !contains_key(retained_merges, p) && !contains_key(parents.as_slice(), p) {
                    parents.push(p);
                }
            },
            None => {},
        }
        proof {
            assert(parents@ == old_parents || (parent is Some && parents@ == old_parents.push(parent->Some_0)
                && !old_parents.contains(parent->Some_0)));
            assert forall|q: CellKey| parents@.contains(q) <==> is_merge_parent_to_check(q, after, retained_splits@, retained_merges@) by {
                if is_merge_parent_to_check(q, after, retained_splits@, retained_merges@) {
                    let w = choose|w: int| 0 <= w < after.len() && spec_parent(#[trigger] after[w]) == Some(q);
                    if w < k {
                        assert(before[w] == after[w]);
                        assert(is_merge_parent_to_check(q, before, retained_splits@, retained_merges@));
                        assert(old_parents.contains(q));
                        let v = choose|v: int| 0 <= v < old_parents.len() && old_parents[v] == q;
                        if parents@ != old_parents {
                            assert(parents@[v] == q);
                        }
                    } else {
                        assert(parent == Some(q));
                        if old_parents.contains(q) {
                            let v = choose|v: int| 0 <= v < old_parents.len() && old_parents[v] == q;
                            if parents@ != old_parents {
                                assert(parents@[v] == q);
                            }
                        } else {
                            assert(parents@ == old_parents.push(q));
                            assert(parents@[old_parents.len() as int] == q);
                        }
                    }
                }
                if parents@.contains(q) {
                    let v = choose|v: int| 0 <= v < parents@.len() && parents@[v] == q;
                    if v < old_parents.len() {
                        assert(old_parents[v] == q);
                        assert(old_parents.contains(q));
                        assert(is_merge_parent_to_check(q, before, retained_splits@, retained_merges@));
                        let w = choose|w: int| 0 <= w < before.len() && spec_parent(#[trigger] before[w]) == Some(q);
                        assert(after[w] == before[w]);
                    } else {
                        assert(parent == Some(q));
                        assert(spec_parent(after[k as int]) == Some(q));
                    }
                }
            }
            if parents@ != old_parents {
                assert forall|a: int, b: int| 0 <= a < b < parents@.len() implies parents@[a] != parents@[b] by {
                    if b == old_parents.len() {
                        assert(old_parents.contains(old_parents[a]));
                    } else {
                        assert(parents@[a] == old_parents[a] && parents@[b] == old_parents[b]);
                    }
                }
            }
        }
        k = k + 1;
    }
    assert(keys@.subrange(0, keys@.len() as int) =~= keys@);
    parents
}

/// The merge requests of a LOD update, in the order of `parents`: each
/// parent whose four children are all active and which the camera test
/// asks to merge (`wants_merge`).
pub open spec fn spec_merge_candidates(parents: Seq<CellKey>, wants_merge: Seq<bool>, active: Map<CellKey, u64>) -> Seq<CellKey>
    decreases parents.len(),
{
    if parents.len() == 0 {
        Seq::empty()
    } else {
        let before = spec_merge_candidates(parents.drop_last(), wants_merge.drop_last(), active);
        let p = parents.last();
        let c = spec_children(p);
        if active.contains_key(c[0]) && active.contains_key(c[1]) && active.contains_key(c[2])
            && active.contains_key(c[3]) && wants_merge.last() {
            before.push(p)
        } else {
            before
        }
    }
}

/// The merge requests of a LOD update (see `spec_merge_candidates`).
pub fn merge_candidates(parents: &[CellKey], wants_merge: &[bool], active: &ActiveChunks) -> (c: Vec<CellKey>)
    requires
        parents@.len() == wants_merge@.len(),
        forall|k: int| 0 <= k < parents@.len() ==> (#[trigger] parents@[k]).wf(),
    ensures
        c@ == spec_merge_candidates(parents@, wants_merge@, active@),
{
    let mut c: Vec<CellKey> = Vec::new();
    let mut k: usize = 0;
    while k < parents.len()
        invariant
            k <= parents@.len(),
            parents@.len() == wants_merge@.len(),
            forall|x: int| 0 <= x < parents@.len() ==> (#[trigger] parents@[x]).wf(),
            c@ == spec_merge_candidates(parents@.subrange(0, k as int), wants_merge@.subrange(0, k as int), active@),
        decreases parents@.len() - k,
    {
        let p = parents[k];
        assert(p.wf());
        proof {
            lemma_cell_can_split(p);
        }
        let ch = children_of(p);
        if active.contains(&ch[0]) && active.contains(&ch[1]) && active.contains(&ch[2]) && active.contains(&ch[3])
            && wants_merge[k] {
            c.push(p);
        }
        proof {
            assert(parents@.subrange(0, k + 1).drop_last() =~= parents@.subrange(0, k as int));
            assert(wants_merge@.subrange(0, k + 1).drop_last() =~= wants_merge@.subrange(0, k as int));
        }
        k = k + 1;
    }
    assert(parents@.subrange(0, parents@.len() as int) =~= parents@);
    assert(wants_merge@.subrange(0, wants_merge@.len() as int) =~= wants_merge@);
    c
}

/// Every active cell was created during the step or still carries the
/// entity it had at the start (`active0`).
pub open spec fn kept_or_fresh(st: QueueState, active0: Map<CellKey, u64>) -> bool {
    forall|c: CellKey| #[trigger] st.active.contains_key(c) ==> st.fresh.contains(c)
        || (active0.contains_key(c) && st.active[c] == active0[c])
}

/// Every child of every merge made so far was created during the step, or
/// its entity at the start is not in a LOD transition.
pub open spec fn merged_children_idle(st: QueueState, active0: Map<CellKey, u64>, busy: Seq<u64>) -> bool {
    forall|m: int, k: int| 0 <= m < st.merges.len() && 0 <= k < 4 ==> {
        let c = #[trigger] spec_children(st.merges[m])[k];
        st.fresh.contains(c) || (active0.contains_key(c) && !busy.contains(active0[c]))
    }
}

/// The split phase keeps every untouched chunk's entity, only adds created
/// cells, and makes no merge.
proof fn lemma_split_phase_keeps_entities(
    st: QueueState,
    pending: Seq<CellKey>,
    focus: Seq<bool>,
    n: nat,
    outstanding_meshes: usize,
    max_inflight: usize,
    budget: usize,
    busy: Seq<u64>,
    meshed: Seq<u64>,
    active0: Map<CellKey, u64>,
)
    requires
        kept_or_fresh(st, active0),
    ensures
        ({
            let r = after_splits(st, pending, focus, n, outstanding_meshes, max_inflight, budget, busy, meshed);
            &&& kept_or_fresh(r, active0)
            &&& r.merges == st.merges
            &&& forall|c: CellKey| st.fresh.contains(c) ==> #[trigger] r.fresh.contains(c)
        }),
    decreases n,
{
    broadcast use vstd::seq_lib::group_seq_properties;
    if n > 0 {
        let m = (n - 1) as nat;
        lemma_split_phase_keeps_entities(st, pending, focus, m, outstanding_meshes, max_inflight, budget, busy, meshed, active0);
        let p = after_splits(st, pending, focus, m, outstanding_meshes, max_inflight, budget, busy, meshed);
        let r = after_splits(st, pending, focus, n, outstanding_meshes, max_inflight, budget, busy, meshed);
        if r != p {
            let key = split_target(pending[m as int], p.active);
            let c = spec_children(key);
            assert(r.active == p.active.remove(key).insert(c[0], 0).insert(c[1], 0).insert(c[2], 0).insert(c[3], 0));
            assert(r.fresh == p.fresh.push(c[0]).push(c[1]).push(c[2]).push(c[3]));
            assert forall|x: CellKey| #[trigger] r.active.contains_key(x) implies r.fresh.contains(x)
                || (active0.contains_key(x) && r.active[x] == active0[x]) by {
                if x != c[0] && x != c[1] && x != c[2] && x != c[3] {
                    assert(p.active.contains_key(x));
                    assert(r.active[x] == p.active[x]);
                }
            }
        }
    }
}

/// The merge phase keeps every untouched chunk's entity, only adds created
/// cells, and merges a parent only when each child was created during the
/// step or its starting entity is not in a LOD transition.
proof fn lemma_merge_phase_children_idle(
    st: QueueState,
    pending: Seq<CellKey>,
    n: nat,
    budget: usize,
    busy: Seq<u64>,
    active0: Map<CellKey, u64>,
)
    requires
        kept_or_fresh(st, active0),
        merged_children_idle(st, active0, busy),
    ensures
        kept_or_fresh(after_merges(st, pending, n, budget, busy), active0),
        merged_children_idle(after_merges(st, pending, n, budget, busy), active0, busy),
    decreases n,
{
    broadcast use vstd::seq_lib::group_seq_properties;
    if n > 0 {
        let m = (n - 1) as nat;
        lemma_merge_phase_children_idle(st, pending, m, budget, busy, active0);
        let p = after_merges(st, pending, m, budget, busy);
        let r = after_merges(st, pending, n, budget, busy);
        if r != p {
            let parent = pending[m as int];
            let c = spec_children(parent);
            assert(r.active == p.active.remove(c[0]).remove(c[1]).remove(c[2]).remove(c[3]).insert(parent, 0));
            assert(r.fresh == p.fresh.push(parent));
            assert(r.merges == p.merges.push(parent));
            assert forall|x: CellKey| #[trigger] r.active.contains_key(x) implies r.fresh.contains(x)
                || (active0.contains_key(x) && r.active[x] == active0[x]) by {
                if x != parent {
                    assert(p.active.contains_key(x));
                    assert(r.active[x] == p.active[x]);
                }
            }
            assert forall|i: int, k: int| 0 <= i < r.merges.len() && 0 <= k < 4 implies {
                let x = #[trigger] spec_children(r.merges[i])[k];
                r.fresh.contains(x) || (active0.contains_key(x) && !busy.contains(active0[x]))
            } by {
                let x = spec_children(r.merges[i])[k];
                if i < p.merges.len() {
                    assert(r.merges[i] == p.merges[i]);
                    assert(spec_children(p.merges[i])[k] == x);
                } else {
                    assert(r.merges[i] == parent);
                    assert(p.active.contains_key(x));
                    assert(!child_busy(p, x, busy));
                }
            }
        }
    }
}

/// A parent is merged only when none of its children is fading: each child
/// of every merged parent was created during the step, or it is a chunk of
/// `active` whose entity is not in `busy`.
pub proof fn lemma_merged_children_not_in_transition(
    active: Map<CellKey, u64>,
    retained: Seq<CellKey>,
    pending_splits: Seq<CellKey>,
    focus: Seq<bool>,
    pending_merges: Seq<CellKey>,
    busy: Seq<u64>,
    meshed: Seq<u64>,
    outstanding_meshes: usize,
    max_inflight: usize,
    budget: usize,
)
    ensures
        ({
            let st = spec_lod_queue_step(active, retained, pending_splits, focus, pending_merges, busy, meshed,
                outstanding_meshes, max_inflight, budget);
            forall|m: int, k: int| 0 <= m < st.merges.len() && 0 <= k < 4 ==> {
                let c = #[trigger] spec_children(st.merges[m])[k];
                st.fresh.contains(c) || (active.contains_key(c) && !busy.contains(active[c]))
            }
        }),
{
    let start = QueueState { active, fresh: Seq::empty(), retained, splits: Seq::empty(), merges: Seq::empty() };
    lemma_split_phase_keeps_entities(start, pending_splits, focus, pending_splits.len(), outstanding_meshes,
        max_inflight, budget, busy, meshed, active);
    let mid = after_splits(start, pending_splits, focus, pending_splits.len(), outstanding_meshes, max_inflight,
        budget, busy, meshed);
    assert(mid.merges.len() == 0);
    lemma_merge_phase_children_idle(mid, pending_merges, pending_merges.len(), budget, busy, active);
}

/// Every split made so far was a chunk of `active0` whose entity has a mesh
/// and is not in a LOD transition, and whose parent was not a retained
/// split parent at the start.
pub open spec fn splits_were_ready(
    st: QueueState,
    active0: Map<CellKey, u64>,
    retained0: Seq<CellKey>,
    busy: Seq<u64>,
    meshed: Seq<u64>,
) -> bool {
    forall|m: int| 0 <= m < st.splits.len() ==> {
        let x = #[trigger] st.splits[m];
        &&& active0.contains_key(x)
        &&& meshed.contains(active0[x])
        &&& !busy.contains(active0[x])
        &&& (spec_parent(x) matches Some(p) ==> !retained0.contains(p))
    }
}

/// The split phase splits only ready chunks (see `splits_were_ready`) and
/// never forgets a retained parent.
proof fn lemma_split_phase_ready(
    st: QueueState,
    pending: Seq<CellKey>,
    focus: Seq<bool>,
    n: nat,
    outstanding_meshes: usize,
    max_inflight: usize,
    budget: usize,
    busy: Seq<u64>,
    meshed: Seq<u64>,
    active0: Map<CellKey, u64>,
    retained0: Seq<CellKey>,
)
    requires
        kept_or_fresh(st, active0),
        forall|p: CellKey| retained0.contains(p) ==> #[trigger] st.retained.contains(p),
        splits_were_ready(st, active0, retained0, busy, meshed),
    ensures
        ({
            let r = after_splits(st, pending, focus, n, outstanding_meshes, max_inflight, budget, busy, meshed);
            &&& forall|p: CellKey| retained0.contains(p) ==> #[trigger] r.retained.contains(p)
            &&& splits_were_ready(r, active0, retained0, busy, meshed)
        }),
    decreases n,
{
    broadcast use vstd::seq_lib::group_seq_properties;
    if n > 0 {
        let m = (n - 1) as nat;
        lemma_split_phase_ready(st, pending, focus, m, outstanding_meshes, max_inflight, budget, busy, meshed, active0,
            retained0);
        lemma_split_phase_keeps_entities(st, pending, focus, m, outstanding_meshes, max_inflight, budget, busy, meshed,
            active0);
        let p = after_splits(st, pending, focus, m, outstanding_meshes, max_inflight, budget, busy, meshed);
        let r = after_splits(st, pending, focus, n, outstanding_meshes, max_inflight, budget, busy, meshed);
        if r != p {
            let key = split_target(pending[m as int], p.active);
            assert(r.splits == p.splits.push(key));
            assert(r.retained == p.retained.push(key));
            assert(p.active.contains_key(key) && !p.fresh.contains(key));
            assert(p.active[key] == active0[key]);
            assert forall|i: int| 0 <= i < r.splits.len() implies {
                let x = #[trigger] r.splits[i];
                &&& active0.contains_key(x)
                &&& meshed.contains(active0[x])
                &&& !busy.contains(active0[x])
                &&& (spec_parent(x) matches Some(q) ==> !retained0.contains(q))
            } by {
                if i < p.splits.len() {
                    assert(r.splits[i] == p.splits[i]);
                } else {
                    assert(r.splits[i] == key);
                    if spec_parent(key) is Some {
                        let q = spec_parent(key)->Some_0;
                        assert(!p.retained.contains(q));
                        if retained0.contains(q) {
                            assert(p.retained.contains(q));
                        }
                    }
                }
            }
        }
    }
}

/// A chunk is split only when it is ready: every split chunk was a chunk of
/// `active` whose entity already has a mesh (`meshed`) and is not in a LOD
/// transition (`busy`), and whose parent was not waiting on a retained
/// split handoff.
pub proof fn lemma_split_chunks_were_ready(
    active: Map<CellKey, u64>,
    retained: Seq<CellKey>,
    pending_splits: Seq<CellKey>,
    focus: Seq<bool>,
    pending_merges: Seq<CellKey>,
    busy: Seq<u64>,
    meshed: Seq<u64>,
    outstanding_meshes: usize,
    max_inflight: usize,
    budget: usize,
)
    ensures
        ({
            let st = spec_lod_queue_step(active, retained, pending_splits, focus, pending_merges, busy, meshed,
                outstanding_meshes, max_inflight, budget);
            forall|m: int| 0 <= m < st.splits.len() ==> {
                let x = #[trigger] st.splits[m];
                &&& active.contains_key(x)
                &&& meshed.contains(active[x])
                &&& !busy.contains(active[x])
                &&& (spec_parent(x) matches Some(p) ==> !retained.contains(p))
            }
        }),
{
    let start = QueueState { active, fresh: Seq::empty(), retained, splits: Seq::empty(), merges: Seq::empty() };
    lemma_split_phase_ready(start, pending_splits, focus, pending_splits.len(), outstanding_meshes, max_inflight,
        budget, busy, meshed, active, retained);
    lemma_split_phase_keeps_entities(start, pending_splits, focus, pending_splits.len(), outstanding_meshes,
        max_inflight, budget, busy, meshed, active);
    let mid = after_splits(start, pending_splits, focus, pending_splits.len(), outstanding_meshes, max_inflight,
        budget, busy, meshed);
    lemma_merge_phase_children_idle(mid, pending_merges, pending_merges.len(), budget, busy, active);
    lemma_merges_keep_splits(mid, pending_merges, pending_merges.len(), budget, busy);
}

/// The merge phase leaves the splits alone.
proof fn lemma_merges_keep_splits(st: QueueState, pending: Seq<CellKey>, n: nat, budget: usize, busy: Seq<u64>)
    ensures
        after_merges(st, pending, n, budget, busy).splits == st.splits,
    decreases n,
{
    if n > 0 {
        lemma_merges_keep_splits(st, pending, (n - 1) as nat, budget, busy);
    }
}

} // verus!
