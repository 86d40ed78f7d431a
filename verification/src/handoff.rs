//! Finishing retained handoffs. A split finishes once all four children
//! have meshes: the retained parent leaves (with a short dithered fade when
//! the handoff budget allows, else at once) and the children are revealed.
//! A merge finishes once the new parent has a mesh: the parent is revealed
//! and becomes active again, and the retained children leave. The caller
//! applies the decisions to its entities.

use vstd::prelude::*;
use crate::cell::CellKey;
use crate::chunk::{lod_transition_has_capacity, MAX_LOD_TRANSITION_EXTRA_DRAWS};
use crate::quadtree::ActiveChunks;

verus! {

/// A split waiting on its children's meshes: the split cell, the entity of
/// the retained parent and the entities of the four children.
#[derive(Clone, Copy, Debug)]
pub struct RetainedSplitEntry {
    pub key: CellKey,
    pub parent: u64,
    pub children: [u64; 4],
}

/// What happens to the retained parent of a finished split.
#[derive(Clone, Copy, Debug, PartialEq, Eq, Structural)]
pub enum ParentRetirement {
    /// Fade out (outgoing dither handoff), then despawn.
    FadeOut,
    /// Despawn at once.
    Despawn,
    /// A face root stays as the far-distance coverage floor.
    KeepAsCoverage,
    /// Nothing to do (the parent entity is already gone).
    Keep,
}

/// The decisions for one finished split: the parent's fate, which children
/// to reveal (those not themselves leaving as another split's parent) and
/// whether the revealed children fade in.
#[derive(Clone, Copy, Debug, PartialEq, Eq)]
pub struct SplitFinalization {
    pub key: CellKey,
    pub parent: ParentRetirement,
    pub reveal: [bool; 4],
    pub fade_in: bool,
}

/// Whether all four children of `e` have meshes.
pub open spec fn children_meshed(e: RetainedSplitEntry, meshed: Seq<u64>) -> bool {
    meshed.contains(e.children[0]) && meshed.contains(e.children[1]) && meshed.contains(e.children[2])
        && meshed.contains(e.children[3])
}

/// The splits that finish this frame, in the order of `entries`.
pub open spec fn spec_finished_splits(entries: Seq<RetainedSplitEntry>, meshed: Seq<u64>) -> Seq<RetainedSplitEntry>
    decreases entries.len(),
{
    if entries.len() == 0 {
        Seq::empty()
    } else {
        let before = spec_finished_splits(entries.drop_last(), meshed);
        if children_meshed(entries.last(), meshed) { before.push(entries.last()) } else { before }
    }
}

/// The parents that leave: those of finished splits whose entity is still a
/// live chunk, except face roots (the coverage floor).
pub open spec fn spec_leaving_parents(done: Seq<RetainedSplitEntry>, live: Seq<u64>) -> Seq<u64>
    decreases done.len(),
{
    if done.len() == 0 {
        Seq::empty()
    } else {
        let before = spec_leaving_parents(done.drop_last(), live);
        let e = done.last();
        if live.contains(e.parent) && e.key.lod != 0 { before.push(e.parent) } else { before }
    }
}

/// The decisions for finished split `e` when `extra` handoff draws are in
/// use, and the draws in use afterwards. A fade needs the parent to be
/// leaving, no child to be leaving too, and room for one more draw.
pub open spec fn finalize_one(e: RetainedSplitEntry, leaving: Seq<u64>, extra: int) -> (SplitFinalization, int) {
    let d = leaving.contains(e.parent);
    let fade = d && !leaving.contains(e.children[0]) && !leaving.contains(e.children[1])
        && !leaving.contains(e.children[2]) && !leaving.contains(e.children[3])
        && extra + 1 <= MAX_LOD_TRANSITION_EXTRA_DRAWS;
    let parent = if d {
        if fade { ParentRetirement::FadeOut } else { ParentRetirement::Despawn }
    } else if e.key.lod == 0 {
        ParentRetirement::KeepAsCoverage
    } else {
        ParentRetirement::Keep
    };
    let reveal = [
        !leaving.contains(e.children[0]),
        !leaving.contains(e.children[1]),
        !leaving.contains(e.children[2]),
        !leaving.contains(e.children[3]),
    ];
    (SplitFinalization { key: e.key, parent, reveal, fade_in: fade }, if fade { extra + 1 } else { extra })
}

/// The decisions for the first `n` finished splits, and the draws in use
/// after them.
pub open spec fn finalize_prefix(done: Seq<RetainedSplitEntry>, leaving: Seq<u64>, extra: int, n: nat) -> (Seq<SplitFinalization>, int)
    decreases n,
{
    if n == 0 {
        (Seq::empty(), extra)
    } else {
        let (out, x) = finalize_prefix(done, leaving, extra, (n - 1) as nat);
        let (f, x2) = finalize_one(done[n - 1], leaving, x);
        (out.push(f), x2)
    }
}

/// The decisions of a frame: the finished splits in order, each as
/// `finalize_one` says, starting from `outgoing_in_use` handoff draws.
pub open spec fn spec_finalize_retained_splits(
    entries: Seq<RetainedSplitEntry>,
    meshed: Seq<u64>,
    live: Seq<u64>,
    outgoing_in_use: usize,
) -> Seq<SplitFinalization> {
    let done = spec_finished_splits(entries, meshed);
    finalize_prefix(done, spec_leaving_parents(done, live), outgoing_in_use as int, done.len()).0
}

/// Whether `id` is one of `ids`.
fn contains_id(ids: &[u64], id: u64) -> (b: bool)
    ensures
        b == ids@.contains(id),
{
    let mut m: usize = 0;
    while m < ids.len()
        invariant
            m <= ids@.len(),
            forall|x: int| 0 <= x < m ==> ids@[x] != id,
        decreases ids@.len() - m,
    {
        if ids[m] == id {
            return true;
        }
        m = m + 1;
    }
    false
}

/// The splits whose children all have meshes (`meshed`), decided in the
/// order of `entries`: which parents fade out or are despawned (`live`
/// lists the entities that are still chunks), which children are revealed
/// and whether they fade in, under the handoff budget with
/// `outgoing_in_use` draws already taken (see
/// `spec_finalize_retained_splits`). The keys returned are the splits to
/// forget.
pub fn finalize_retained_splits(
    entries: &[RetainedSplitEntry],
    meshed: &[u64],
    live: &[u64],
    outgoing_in_use: usize,
) -> (plan: Vec<SplitFinalization>)
    ensures
        plan@ == spec_finalize_retained_splits(entries@, meshed@, live@, outgoing_in_use),
{
    let mut done: Vec<RetainedSplitEntry> = Vec::new();
    let mut k: usize = 0;
    while k < entries.len()
        invariant
            k <= entries@.len(),
            done@ == spec_finished_splits(entries@.subrange(0, k as int), meshed@),
        decreases entries@.len() - k,
    {
        let e = entries[k];
        if contains_id(meshed, e.children[0]) && contains_id(meshed, e.children[1])
            && contains_id(meshed, e.children[2]) && contains_id(meshed, e.children[3]) {
            done.push(e);
        }
        assert(entries@.subrange(0, k + 1).drop_last() =~= entries@.subrange(0, k as int));
        k = k + 1;
    }
    assert(entries@.subrange(0, entries@.len() as int) =~= entries@);
    let mut leaving: Vec<u64> = Vec::new();
    let mut m: usize = 0;
    while m < done.len()
        invariant
            m <= done@.len(),
            leaving@ == spec_leaving_parents(done@.subrange(0, m as int), live@),
        decreases done@.len() - m,
    {
        let e = done[m];
        if contains_id(live, e.parent) && e.key.lod != 0 {
            leaving.push(e.parent);
        }
        assert(done@.subrange(0, m + 1).drop_last() =~= done@.subrange(0, m as int));
        m = m + 1;
    }
    assert(done@.subrange(0, done@.len() as int) =~= done@);
    let mut plan: Vec<SplitFinalization> = Vec::new();
    let mut extra: usize = outgoing_in_use;
    let mut n: usize = 0;
    while n < done.len()
        invariant
            n <= done@.len(),
            (plan@, extra as int) == finalize_prefix(done@, leaving@, outgoing_in_use as int, n as nat),
        decreases done@.len() - n,
    {
        let e = done[n];
        let d = contains_id(leaving.as_slice(), e.parent);
        let r0 = !contains_id(leaving.as_slice(), e.children[0]);
        let r1 = !contains_id(leaving.as_slice(), e.children[1]);
        let r2 = !contains_id(leaving.as_slice(), e.children[2]);
        let r3 = !contains_id(leaving.as_slice(), e.children[3]);
        let fade = d && r0 && r1 && r2 && r3 && lod_transition_has_capacity(extra, 1);
        let parent = if d {
            if fade { ParentRetirement::FadeOut } else { ParentRetirement::Despawn }
        } else if e.key.lod == 0 {
            ParentRetirement::KeepAsCoverage
        } else {
            ParentRetirement::Keep
        };
        plan.push(SplitFinalization { key: e.key, parent, reveal: [r0, r1, r2, r3], fade_in: fade });
        if fade {
            extra = extra + 1;
        }
        n = n + 1;
    }
    plan
}

/// Handoffs never push the draws in use past the budget: starting within
/// `MAX_LOD_TRANSITION_EXTRA_DRAWS`, the draws after any number of finished
/// splits stay within it, and each split adds at most one.
pub proof fn lemma_handoff_draws_within_budget(done: Seq<RetainedSplitEntry>, leaving: Seq<u64>, extra: int, n: nat)
    requires
        0 <= extra <= MAX_LOD_TRANSITION_EXTRA_DRAWS,
    ensures
        extra <= finalize_prefix(done, leaving, extra, n).1 <= MAX_LOD_TRANSITION_EXTRA_DRAWS,
        finalize_prefix(done, leaving, extra, n).1 <= extra + n,
        finalize_prefix(done, leaving, extra, n).0.len() == n,
    decreases n,
{
    if n > 0 {
        lemma_handoff_draws_within_budget(done, leaving, extra, (n - 1) as nat);
    }
}

/// A merge waiting on its new parent's mesh: the merged cell, the new
/// parent's entity and the retained children's entities (`None` where a
/// child had no entity).
#[derive(Clone, Copy, Debug)]
pub struct RetainedMergeEntry {
    pub key: CellKey,
    pub parent: u64,
    pub children: [Option<u64>; 4],
}

/// What happens to a retained child of a finished merge.
#[derive(Clone, Copy, Debug, PartialEq, Eq, Structural)]
pub enum ChildRetirement {
    /// Fade out (outgoing dither handoff), then despawn.
    FadeOut,
    /// Despawn at once.
    Despawn,
    /// Nothing to do.
    Keep,
}

/// The decisions for one finished merge: whether the new parent is
/// revealed (not when it is itself a child leaving with an outer merge),
/// whether it fades in, whether it becomes an active chunk again, and the
/// fate of each retained child.
#[derive(Clone, Copy, Debug, PartialEq, Eq)]
pub struct MergeFinalization {
    pub key: CellKey,
    pub reveal_parent: bool,
    pub fade_in: bool,
    pub activate: bool,
    pub children: [ChildRetirement; 4],
}

/// The merges that finish this frame (their parent has a mesh), in the
/// order of `entries`.
pub open spec fn spec_finished_merges(entries: Seq<RetainedMergeEntry>, meshed: Seq<u64>) -> Seq<RetainedMergeEntry>
    decreases entries.len(),
{
    if entries.len() == 0 {
        Seq::empty()
    } else {
        let before = spec_finished_merges(entries.drop_last(), meshed);
        if meshed.contains(entries.last().parent) { before.push(entries.last()) } else { before }
    }
}

/// `s` with the entity of `child` appended, if it has one.
pub open spec fn push_child(s: Seq<u64>, child: Option<u64>) -> Seq<u64> {
    match child {
        Some(c) => s.push(c),
        None => s,
    }
}

/// The retained children that leave: those of finished merges whose new
/// parent is a live chunk.
pub open spec fn spec_leaving_children(done: Seq<RetainedMergeEntry>, live: Seq<u64>) -> Seq<u64>
    decreases done.len(),
{
    if done.len() == 0 {
        Seq::empty()
    } else {
        let before = spec_leaving_children(done.drop_last(), live);
        let e = done.last();
        if live.contains(e.parent) {
            push_child(push_child(push_child(push_child(before, e.children[0]), e.children[1]), e.children[2]),
                e.children[3])
        } else {
            before
        }
    }
}

/// The new parents of the finished merges.
pub open spec fn spec_merge_parents(done: Seq<RetainedMergeEntry>) -> Seq<u64>
    decreases done.len(),
{
    if done.len() == 0 { Seq::empty() } else { spec_merge_parents(done.drop_last()).push(done.last().parent) }
}

/// Whether `child` has an entity that is one of `ids`.
pub open spec fn child_in(child: Option<u64>, ids: Seq<u64>) -> bool {
    child matches Some(c) && ids.contains(c)
}

/// Leaving children of a merge, counted.
pub open spec fn leaving_count(e: RetainedMergeEntry, leaving: Seq<u64>) -> int {
    (if child_in(e.children[0], leaving) { 1int } else { 0 }) + (if child_in(e.children[1], leaving) { 1int } else { 0 })
        + (if child_in(e.children[2], leaving) { 1int } else { 0 }) + (if child_in(e.children[3], leaving) { 1int } else { 0 })
}

/// The fate of one retained child.
pub open spec fn child_fate(child: Option<u64>, leaving: Seq<u64>, fade: bool) -> ChildRetirement {
    if child_in(child, leaving) {
        if fade { ChildRetirement::FadeOut } else { ChildRetirement::Despawn }
    } else {
        ChildRetirement::Keep
    }
}

/// The decisions for finished merge `e` with `extra` handoff draws in use
/// and the cells `activated` earlier this frame: the merge fades only when
/// it is not nested in another handoff finishing now, some child leaves,
/// and the leaving children fit in the budget.
pub open spec fn finalize_merge_one(
    e: RetainedMergeEntry,
    leaving: Seq<u64>,
    parents: Seq<u64>,
    active: Map<CellKey, u64>,
    activated: Seq<CellKey>,
    extra: int,
) -> (MergeFinalization, int) {
    let outgoing = leaving_count(e, leaving);
    let nested = leaving.contains(e.parent) || child_in(e.children[0], parents) || child_in(e.children[1], parents)
        || child_in(e.children[2], parents) || child_in(e.children[3], parents);
    let fade = !nested && outgoing > 0 && extra + outgoing <= MAX_LOD_TRANSITION_EXTRA_DRAWS;
    let reveal = !leaving.contains(e.parent);
    let activate = reveal && !active.contains_key(e.key) && !activated.contains(e.key);
    (
        MergeFinalization {
            key: e.key,
            reveal_parent: reveal,
            fade_in: reveal && fade,
            activate,
            children: [
                child_fate(e.children[0], leaving, fade),
                child_fate(e.children[1], leaving, fade),
                child_fate(e.children[2], leaving, fade),
                child_fate(e.children[3], leaving, fade),
            ],
        },
        if fade { extra + outgoing } else { extra },
    )
}

/// The decisions for the first `n` finished merges, the draws in use after
/// them, and the cells they activated.
pub open spec fn finalize_merge_prefix(
    done: Seq<RetainedMergeEntry>,
    leaving: Seq<u64>,
    parents: Seq<u64>,
    active: Map<CellKey, u64>,
    extra: int,
    n: nat,
) -> (Seq<MergeFinalization>, int, Seq<CellKey>)
    decreases n,
{
    if n == 0 {
        (Seq::empty(), extra, Seq::empty())
    } else {
        let (out, x, act) = finalize_merge_prefix(done, leaving, parents, active, extra, (n - 1) as nat);
        let (f, x2) = finalize_merge_one(done[n - 1], leaving, parents, active, act, x);
        (out.push(f), x2, if f.activate { act.push(f.key) } else { act })
    }
}

/// The decisions of a frame: the finished merges in order, each as
/// `finalize_merge_one` says, starting from `outgoing_in_use` handoff
/// draws.
pub open spec fn spec_finalize_retained_merges(
    entries: Seq<RetainedMergeEntry>,
    meshed: Seq<u64>,
    live: Seq<u64>,
    active: Map<CellKey, u64>,
    outgoing_in_use: usize,
) -> Seq<MergeFinalization> {
    let done = spec_finished_merges(entries, meshed);
    finalize_merge_prefix(done, spec_leaving_children(done, live), spec_merge_parents(done), active,
        outgoing_in_use as int, done.len()).0
}

/// Whether `child` has an entity that is one of `ids`.
fn child_among(child: Option<u64>, ids: &[u64]) -> (b: bool)
    ensures
        b == child_in(child, ids@),
{
    match child {
        Some(c) => contains_id(ids, c),
        None => false,
    }
}

/// Appends the entity of `child`, if it has one.
fn push_child_id(v: &mut Vec<u64>, child: Option<u64>)
    ensures
        final(v)@ == push_child(old(v)@, child),
{
    match child {
        Some(c) => v.push(c),
        None => {},
    }
}

/// Whether `key` is one of `keys`.
fn contains_cell(keys: &[CellKey], key: CellKey) -> (b: bool)
    ensures
        b == keys@.contains(key),
{
    let mut m: usize = 0;
    while m < keys.len()
        invariant
            m <= keys@.len(),
            forall|x: int| 0 <= x < m ==> keys@[x] != key,
        decreases keys@.len() - m,
    {
        if keys[m] == key {
            return true;
        }
        m = m + 1;
    }
    false
}

/// The merges whose new parent has a mesh (`meshed`), decided in the order
/// of `entries`: whether each parent is revealed, fades in and becomes
/// active again (it does if it is not active in `active` nor activated
/// earlier in the frame), and what happens to each retained child, under
/// the handoff budget with `outgoing_in_use` draws already taken (see
/// `spec_finalize_retained_merges`). The keys returned are the merges to
/// forget.
pub fn finalize_retained_merges(
    entries: &[RetainedMergeEntry],
    meshed: &[u64],
    live: &[u64],
    active: &ActiveChunks,
    outgoing_in_use: usize,
) -> (plan: Vec<MergeFinalization>)
    ensures
        plan@ == spec_finalize_retained_merges(entries@, meshed@, live@, active@, outgoing_in_use),
{
    let mut done: Vec<RetainedMergeEntry> = Vec::new();
    let mut k: usize = 0;
    while k < entries.len()
        invariant
            k <= entries@.len(),
            done@ == spec_finished_merges(entries@.subrange(0, k as int), meshed@),
        decreases entries@.len() - k,
    {
        let e = entries[k];
        if contains_id(meshed, e.parent) {
            done.push(e);
        }
        assert(entries@.subrange(0, k + 1).drop_last() =~= entries@.subrange(0, k as int));
        k = k + 1;
    }
    assert(entries@.subrange(0, entries@.len() as int) =~= entries@);
    let mut leaving: Vec<u64> = Vec::new();
    let mut parents: Vec<u64> = Vec::new();
    let mut m: usize = 0;
    while m < done.len()
        invariant
            m <= done@.len(),
            leaving@ == spec_leaving_children(done@.subrange(0, m as int), live@),
            parents@ == spec_merge_parents(done@.subrange(0, m as int)),
        decreases done@.len() - m,
    {
        let e = done[m];
        if contains_id(live, e.parent) {
            push_child_id(&mut leaving, e.children[0]);
            push_child_id(&mut leaving, e.children[1]);
            push_child_id(&mut leaving, e.children[2]);
            push_child_id(&mut leaving, e.children[3]);
        }
        parents.push(e.parent);
        assert(done@.subrange(0, m + 1).drop_last() =~= done@.subrange(0, m as int));
        m = m + 1;
    }
    assert(done@.subrange(0, done@.len() as int) =~= done@);
    let mut plan: Vec<MergeFinalization> = Vec::new();
    let mut activated: Vec<CellKey> = Vec::new();
    let mut extra: usize = outgoing_in_use;
    let mut n: usize = 0;
    while n < done.len()
        invariant
            n <= done@.len(),
            extra >= outgoing_in_use,
            (plan@, extra as int, activated@)
                == finalize_merge_prefix(done@, leaving@, parents@, active@, outgoing_in_use as int, n as nat),
        decreases done@.len() - n,
    {
        let e = done[n];
        let l0 = child_among(e.children[0], leaving.as_slice());
        let l1 = child_among(e.children[1], leaving.as_slice());
        let l2 = child_among(e.children[2], leaving.as_slice());
        let l3 = child_among(e.children[3], leaving.as_slice());
        let outgoing: usize = (if l0 { 1usize } else { 0 }) + (if l1 { 1usize } else { 0 })
            + (if l2 { 1usize } else { 0 }) + (if l3 { 1usize } else { 0 });
        let parent_leaves = contains_id(leaving.as_slice(), e.parent);
        let nested = parent_leaves || child_among(e.children[0], parents.as_slice())
            || child_among(e.children[1], parents.as_slice()) || child_among(e.children[2], parents.as_slice())
            || child_among(e.children[3], parents.as_slice());
        let fade = !nested && outgoing > 0 && lod_transition_has_capacity(extra, outgoing);
        let reveal = !parent_leaves;
        let activate = reveal && !active.contains(&e.key) && !contains_cell(activated.as_slice(), e.key);
        let fate0 = if l0 { if fade { ChildRetirement::FadeOut } else { ChildRetirement::Despawn } } else { ChildRetirement::Keep };
        let fate1 = if l1 { if fade { ChildRetirement::FadeOut } else { ChildRetirement::Despawn } } else { ChildRetirement::Keep };
        let fate2 = if l2 { if fade { ChildRetirement::FadeOut } else { ChildRetirement::Despawn } } else { ChildRetirement::Keep };
        let fate3 = if l3 { if fade { ChildRetirement::FadeOut } else { ChildRetirement::Despawn } } else { ChildRetirement::Keep };
        plan.push(MergeFinalization {
            key: e.key,
            reveal_parent: reveal,
            fade_in: reveal && fade,
            activate,
            children: [fate0, fate1, fate2, fate3],
        });
        if activate {
            activated.push(e.key);
        }
        if fade {
            extra = extra + outgoing;
        }
        n = n + 1;
    }
    plan
}

/// Every finished split is one of the entries, and its condition holds.
proof fn lemma_finished_splits_sound(entries: Seq<RetainedSplitEntry>, meshed: Seq<u64>)
    ensures
        forall|i: int| #![trigger spec_finished_splits(entries, meshed)[i]] 0 <= i < spec_finished_splits(entries, meshed).len() ==> entries.contains(spec_finished_splits(entries, meshed)[i])
            && meshed.contains(spec_finished_splits(entries, meshed)[i].children[0]) && meshed.contains(spec_finished_splits(entries, meshed)[i].children[1])
            && meshed.contains(spec_finished_splits(entries, meshed)[i].children[2]) && meshed.contains(spec_finished_splits(entries, meshed)[i].children[3]),
    decreases entries.len(),
{
    if entries.len() > 0 {
        let pre = entries.drop_last();
        lemma_finished_splits_sound(pre, meshed);
        let before = spec_finished_splits(pre, meshed);
        let done = spec_finished_splits(entries, meshed);
        assert forall|i: int| #![trigger spec_finished_splits(entries, meshed)[i]] 0 <= i < spec_finished_splits(entries, meshed).len() implies entries.contains(spec_finished_splits(entries, meshed)[i])
            && meshed.contains(spec_finished_splits(entries, meshed)[i].children[0]) && meshed.contains(spec_finished_splits(entries, meshed)[i].children[1])
            && meshed.contains(spec_finished_splits(entries, meshed)[i].children[2]) && meshed.contains(spec_finished_splits(entries, meshed)[i].children[3]) by {
            if i < before.len() {
                assert(done[i] == before[i]);
                assert(pre.contains(before[i]) && meshed.contains(before[i].children[0]) && meshed.contains(before[i].children[1])
            && meshed.contains(before[i].children[2]) && meshed.contains(before[i].children[3]));
                let j = choose|j: int| 0 <= j < pre.len() && pre[j] == before[i];
                assert(entries[j] == pre[j]);
            } else {
                assert(children_meshed(entries.last(), meshed));
                assert(done == before.push(entries.last()));
                assert(done[i] == entries[entries.len() - 1]);
            }
        }
    } else {
        assert(spec_finished_splits(entries, meshed).len() == 0);
    }
}

/// Every entry whose four children all have meshes is among the finished
/// splits.
proof fn lemma_finished_splits_complete(entries: Seq<RetainedSplitEntry>, meshed: Seq<u64>, j: int)
    requires
        0 <= j < entries.len(),
        meshed.contains(entries[j].children[0]) && meshed.contains(entries[j].children[1])
                && meshed.contains(entries[j].children[2]) && meshed.contains(entries[j].children[3]),
    ensures
        exists|i: int| #![trigger spec_finished_splits(entries, meshed)[i]] 0 <= i < spec_finished_splits(entries, meshed).len()
            && spec_finished_splits(entries, meshed)[i] == entries[j],
    decreases entries.len(),
{
    let pre = entries.drop_last();
    let before = spec_finished_splits(pre, meshed);
    let done = spec_finished_splits(entries, meshed);
    if j < pre.len() {
        assert(pre[j] == entries[j]);
        lemma_finished_splits_complete(pre, meshed, j);
        let i = choose|i: int| #![trigger before[i]] 0 <= i < before.len() && before[i] == pre[j];
        assert(done[i] == before[i]);
    } else {
        assert(done[done.len() - 1] == entries[j]);
    }
}

/// The decisions for the first `n` finished splits follow them one for one.
proof fn lemma_finalize_prefix_keys(done: Seq<RetainedSplitEntry>, leaving: Seq<u64>, extra: int, n: nat)
    requires
        n <= done.len(),
    ensures
        finalize_prefix(done, leaving, extra, n).0.len() == n,
        forall|i: int| 0 <= i < n ==> (#[trigger] finalize_prefix(done, leaving, extra, n).0[i]).key == done[i].key,
    decreases n,
{
    if n > 0 {
        lemma_finalize_prefix_keys(done, leaving, extra, (n - 1) as nat);
        let prev = finalize_prefix(done, leaving, extra, (n - 1) as nat).0;
        assert forall|i: int| 0 <= i < n implies (#[trigger] finalize_prefix(done, leaving, extra, n).0[i]).key == done[i].key by {
            if i < n - 1 {
                assert(finalize_prefix(done, leaving, extra, n).0[i] == prev[i]);
            }
        }
    }
}

/// A split finishes only once all four of its children have meshes: every
/// decision is for an entry whose four child entities are all in `meshed`.
pub proof fn lemma_split_decisions_need_all_children_meshed(
    entries: Seq<RetainedSplitEntry>,
    meshed: Seq<u64>,
    live: Seq<u64>,
    outgoing_in_use: usize,
    i: int,
)
    requires
        0 <= i < spec_finalize_retained_splits(entries, meshed, live, outgoing_in_use).len(),
    ensures
        exists|j: int| #![trigger entries[j]] 0 <= j < entries.len()
            && entries[j].key == spec_finalize_retained_splits(entries, meshed, live, outgoing_in_use)[i].key
            && meshed.contains(entries[j].children[0]) && meshed.contains(entries[j].children[1])
                && meshed.contains(entries[j].children[2]) && meshed.contains(entries[j].children[3]),
{
    let done = spec_finished_splits(entries, meshed);
    let leaving = spec_leaving_parents(done, live);
    lemma_finalize_prefix_keys(done, leaving, outgoing_in_use as int, done.len());
    let plan = finalize_prefix(done, leaving, outgoing_in_use as int, done.len()).0;
    assert(spec_finalize_retained_splits(entries, meshed, live, outgoing_in_use) == plan);
    assert(plan[i].key == done[i].key);
    lemma_finished_splits_sound(entries, meshed);
    assert(entries.contains(done[i]));
    let j = choose|j: int| 0 <= j < entries.len() && entries[j] == done[i];
    assert(entries[j] == done[i]);
}

/// A split whose four children all have meshes finishes this frame: some
/// decision is for its key.
pub proof fn lemma_meshed_splits_finish(
    entries: Seq<RetainedSplitEntry>,
    meshed: Seq<u64>,
    live: Seq<u64>,
    outgoing_in_use: usize,
    j: int,
)
    requires
        0 <= j < entries.len(),
        meshed.contains(entries[j].children[0]) && meshed.contains(entries[j].children[1])
                && meshed.contains(entries[j].children[2]) && meshed.contains(entries[j].children[3]),
    ensures
        exists|i: int| 0 <= i < spec_finalize_retained_splits(entries, meshed, live, outgoing_in_use).len()
            && (#[trigger] spec_finalize_retained_splits(entries, meshed, live, outgoing_in_use)[i]).key == entries[j].key,
{
    let done = spec_finished_splits(entries, meshed);
    let leaving = spec_leaving_parents(done, live);
    lemma_finalize_prefix_keys(done, leaving, outgoing_in_use as int, done.len());
    let plan = finalize_prefix(done, leaving, outgoing_in_use as int, done.len()).0;
    assert(spec_finalize_retained_splits(entries, meshed, live, outgoing_in_use) == plan);
    lemma_finished_splits_complete(entries, meshed, j);
    let i = choose|i: int| #![trigger done[i]] 0 <= i < done.len() && done[i] == entries[j];
    assert(plan[i].key == done[i].key);
}

/// Every finished merge is one of the entries, and its condition holds.
proof fn lemma_finished_merges_sound(entries: Seq<RetainedMergeEntry>, meshed: Seq<u64>)
    ensures
        forall|i: int| #![trigger spec_finished_merges(entries, meshed)[i]] 0 <= i < spec_finished_merges(entries, meshed).len() ==> entries.contains(spec_finished_merges(entries, meshed)[i])
            && meshed.contains(spec_finished_merges(entries, meshed)[i].parent),
    decreases entries.len(),
{
    if entries.len() > 0 {
        let pre = entries.drop_last();
        lemma_finished_merges_sound(pre, meshed);
        let before = spec_finished_merges(pre, meshed);
        let done = spec_finished_merges(entries, meshed);
        assert forall|i: int| #![trigger spec_finished_merges(entries, meshed)[i]] 0 <= i < spec_finished_merges(entries, meshed).len() implies entries.contains(spec_finished_merges(entries, meshed)[i])
            && meshed.contains(spec_finished_merges(entries, meshed)[i].parent) by {
            if i < before.len() {
                assert(done[i] == before[i]);
                assert(pre.contains(before[i]) && meshed.contains(before[i].parent));
                let j = choose|j: int| 0 <= j < pre.len() && pre[j] == before[i];
                assert(entries[j] == pre[j]);
            } else {
                assert(meshed.contains(entries.last().parent));
                assert(done == before.push(entries.last()));
                assert(done[i] == entries[entries.len() - 1]);
            }
        }
    } else {
        assert(spec_finished_merges(entries, meshed).len() == 0);
    }
}

/// Every entry whose new parent has a mesh is among the finished merges.
proof fn lemma_finished_merges_complete(entries: Seq<RetainedMergeEntry>, meshed: Seq<u64>, j: int)
    requires
        0 <= j < entries.len(),
        meshed.contains(entries[j].parent),
    ensures
        exists|i: int| #![trigger spec_finished_merges(entries, meshed)[i]] 0 <= i < spec_finished_merges(entries, meshed).len()
            && spec_finished_merges(entries, meshed)[i] == entries[j],
    decreases entries.len(),
{
    let pre = entries.drop_last();
    let before = spec_finished_merges(pre, meshed);
    let done = spec_finished_merges(entries, meshed);
    if j < pre.len() {
        assert(pre[j] == entries[j]);
        lemma_finished_merges_complete(pre, meshed, j);
        let i = choose|i: int| #![trigger before[i]] 0 <= i < before.len() && before[i] == pre[j];
        assert(done[i] == before[i]);
    } else {
        assert(done[done.len() - 1] == entries[j]);
    }
}

/// The decisions for the first `n` finished merges follow them one for one.
proof fn lemma_finalize_merge_prefix_keys(
    done: Seq<RetainedMergeEntry>,
    leaving: Seq<u64>,
    parents: Seq<u64>,
    active: Map<CellKey, u64>,
    extra: int,
    n: nat,
)
    requires
        n <= done.len(),
    ensures
        finalize_merge_prefix(done, leaving, parents, active, extra, n).0.len() == n,
        forall|i: int| 0 <= i < n ==> (#[trigger] finalize_merge_prefix(done, leaving, parents, active, extra, n).0[i]).key
            == done[i].key,
    decreases n,
{
    if n > 0 {
        lemma_finalize_merge_prefix_keys(done, leaving, parents, active, extra, (n - 1) as nat);
        let prev = finalize_merge_prefix(done, leaving, parents, active, extra, (n - 1) as nat).0;
        assert forall|i: int| 0 <= i < n implies (#[trigger] finalize_merge_prefix(done, leaving, parents, active, extra, n).0[i]).key
            == done[i].key by {
            if i < n - 1 {
                assert(finalize_merge_prefix(done, leaving, parents, active, extra, n).0[i] == prev[i]);
            }
        }
    }
}

/// A merge finishes only once its new parent has a mesh: every decision is
/// for an entry whose parent entity is in `meshed`.
pub proof fn lemma_merge_decisions_need_meshed_parent(
    entries: Seq<RetainedMergeEntry>,
    meshed: Seq<u64>,
    live: Seq<u64>,
    active: Map<CellKey, u64>,
    outgoing_in_use: usize,
    i: int,
)
    requires
        0 <= i < spec_finalize_retained_merges(entries, meshed, live, active, outgoing_in_use).len(),
    ensures
        exists|j: int| #![trigger entries[j]] 0 <= j < entries.len()
            && entries[j].key == spec_finalize_retained_merges(entries, meshed, live, active, outgoing_in_use)[i].key
            && meshed.contains(entries[j].parent),
{
    let done = spec_finished_merges(entries, meshed);
    lemma_finalize_merge_prefix_keys(done, spec_leaving_children(done, live), spec_merge_parents(done), active,
        outgoing_in_use as int, done.len());
    let plan = finalize_merge_prefix(done, spec_leaving_children(done, live), spec_merge_parents(done), active,
        outgoing_in_use as int, done.len()).0;
    assert(spec_finalize_retained_merges(entries, meshed, live, active, outgoing_in_use) == plan);
    assert(plan[i].key == done[i].key);
    lemma_finished_merges_sound(entries, meshed);
    assert(entries.contains(done[i]));
    let j = choose|j: int| 0 <= j < entries.len() && entries[j] == done[i];
    assert(entries[j] == done[i]);
}

/// A merge whose new parent has a mesh finishes this frame: some decision
/// is for its key.
pub proof fn lemma_meshed_merges_finish(
    entries: Seq<RetainedMergeEntry>,
    meshed: Seq<u64>,
    live: Seq<u64>,
    active: Map<CellKey, u64>,
    outgoing_in_use: usize,
    j: int,
)
    requires
        0 <= j < entries.len(),
        meshed.contains(entries[j].parent),
    ensures
        exists|i: int| 0 <= i < spec_finalize_retained_merges(entries, meshed, live, active, outgoing_in_use).len()
            && (#[trigger] spec_finalize_retained_merges(entries, meshed, live, active, outgoing_in_use)[i]).key == entries[j].key,
{
    let done = spec_finished_merges(entries, meshed);
    lemma_finalize_merge_prefix_keys(done, spec_leaving_children(done, live), spec_merge_parents(done), active,
        outgoing_in_use as int, done.len());
    let plan = finalize_merge_prefix(done, spec_leaving_children(done, live), spec_merge_parents(done), active,
        outgoing_in_use as int, done.len()).0;
    assert(spec_finalize_retained_merges(entries, meshed, live, active, outgoing_in_use) == plan);
    lemma_finished_merges_complete(entries, meshed, j);
    let i = choose|i: int| #![trigger done[i]] 0 <= i < done.len() && done[i] == entries[j];
    assert(plan[i].key == done[i].key);
}

} // verus!
