use er_planet::cell::CellKey;
use er_planet::handoff::{
    finalize_retained_merges, finalize_retained_splits, ChildRetirement, MergeFinalization, ParentRetirement,
    RetainedMergeEntry, RetainedSplitEntry, SplitFinalization,
};
use er_planet::quadtree::ActiveChunks;

fn entry(i: u32, lod: u8, parent: u64, first_child: u64) -> RetainedSplitEntry {
    RetainedSplitEntry {
        key: CellKey { face: 0, i, j: 0, lod },
        parent,
        children: [first_child, first_child + 1, first_child + 2, first_child + 3],
    }
}

#[test]
fn finished_split_fades_its_parent_out_and_its_children_in() {
    let a = entry(1, 2, 10, 11);
    let waiting = entry(2, 2, 50, 51);
    let meshed = [11, 12, 13, 14, 51];
    let plan = finalize_retained_splits(&[waiting, a], &meshed, &[10, 50], 0);
    assert_eq!(
        plan,
        vec![SplitFinalization { key: a.key, parent: ParentRetirement::FadeOut, reveal: [true; 4], fade_in: true }]
    );
    let plan = finalize_retained_splits(&[a], &meshed, &[10], 64);
    assert_eq!(plan[0].parent, ParentRetirement::Despawn);
    assert!(!plan[0].fade_in);
}

#[test]
fn roots_stay_as_coverage_and_gone_parents_are_left_alone() {
    let root = entry(0, 0, 20, 21);
    let gone = entry(3, 2, 60, 61);
    let meshed = [21, 22, 23, 24, 61, 62, 63, 64];
    let plan = finalize_retained_splits(&[root, gone], &meshed, &[20], 0);
    assert_eq!(plan.len(), 2);
    assert_eq!(plan[0].parent, ParentRetirement::KeepAsCoverage);
    assert_eq!(plan[1].parent, ParentRetirement::Keep);
    assert!(plan.iter().all(|f| !f.fade_in && f.reveal == [true; 4]));
}

#[test]
fn nested_handoffs_finish_without_a_fade_for_the_outer_split() {
    let outer = entry(1, 2, 30, 31);
    let inner = RetainedSplitEntry { key: CellKey { face: 0, i: 2, j: 0, lod: 3 }, parent: 31, children: [41, 42, 43, 44] };
    let meshed = [31, 32, 33, 34, 41, 42, 43, 44];
    let plan = finalize_retained_splits(&[outer, inner], &meshed, &[30, 31], 0);
    assert_eq!(plan[0].parent, ParentRetirement::Despawn);
    assert_eq!(plan[0].reveal, [false, true, true, true]);
    assert!(!plan[0].fade_in);
    assert_eq!(plan[1].parent, ParentRetirement::FadeOut);
    assert!(plan[1].fade_in);
}

fn merge(i: u32, lod: u8, parent: u64, children: [Option<u64>; 4]) -> RetainedMergeEntry {
    RetainedMergeEntry { key: CellKey { face: 1, i, j: 0, lod }, parent, children }
}

#[test]
fn finished_merge_reveals_and_activates_its_parent_and_fades_the_children() {
    let m = merge(1, 1, 70, [Some(71), Some(72), None, Some(74)]);
    let waiting = merge(2, 1, 80, [Some(81), Some(82), Some(83), Some(84)]);
    let active = ActiveChunks::new();
    let plan = finalize_retained_merges(&[waiting, m], &[70], &[70], &active, 0);
    assert_eq!(
        plan,
        vec![MergeFinalization {
            key: m.key,
            reveal_parent: true,
            fade_in: true,
            activate: true,
            children: [ChildRetirement::FadeOut, ChildRetirement::FadeOut, ChildRetirement::Keep, ChildRetirement::FadeOut],
        }]
    );
    // Over budget: the children go at once and nothing fades.
    let plan = finalize_retained_merges(&[m], &[70], &[70], &active, 62);
    assert!(!plan[0].fade_in);
    assert_eq!(plan[0].children, [ChildRetirement::Despawn, ChildRetirement::Despawn, ChildRetirement::Keep, ChildRetirement::Despawn]);
    // A parent that is already active is not activated again.
    let mut active = ActiveChunks::new();
    active.insert(m.key, 70);
    assert!(!finalize_retained_merges(&[m], &[70], &[70], &active, 0)[0].activate);
}

#[test]
fn nested_merges_finish_together_without_fades() {
    let outer = merge(0, 0, 90, [Some(91), Some(92), Some(93), Some(94)]);
    let inner = merge(1, 1, 91, [Some(95), Some(96), Some(97), Some(98)]);
    let active = ActiveChunks::new();
    let plan = finalize_retained_merges(&[outer, inner], &[90, 91], &[90, 91], &active, 0);
    assert_eq!(plan.len(), 2);
    assert!(plan[0].reveal_parent && plan[0].activate && !plan[0].fade_in);
    assert_eq!(plan[0].children[0], ChildRetirement::Despawn);
    // The inner parent leaves with the outer merge: it is not revealed.
    assert!(!plan[1].reveal_parent && !plan[1].activate && !plan[1].fade_in);
    // A parent entity that is no longer a chunk keeps its children.
    let plan = finalize_retained_merges(&[inner], &[91], &[], &active, 0);
    assert_eq!(plan[0].children, [ChildRetirement::Keep; 4]);
}
