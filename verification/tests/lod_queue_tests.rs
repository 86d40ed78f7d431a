use er_planet::cell::CellKey;
use er_planet::lod_queue::{merge_candidates, merge_parents_to_check, plan_lod_queue, split_candidates};
use er_planet::quadtree::{children_of, ActiveChunks};

fn k(face: u8, i: u32, j: u32, lod: u8) -> CellKey {
    CellKey { face, i, j, lod }
}

fn table(cells: &[(CellKey, u64)]) -> ActiveChunks {
    let mut active = ActiveChunks::new();
    for (key, entity) in cells {
        active.insert(*key, *entity);
    }
    active
}

#[test]
fn meshed_root_splits_and_unmeshed_root_waits() {
    let root = k(0, 0, 0, 0);
    let active = table(&[(root, 10)]);
    let plan = plan_lod_queue(&active, &[], &[root], &[false], &[], &[], &[10], 0, 4, 48);
    assert_eq!(plan.splits, vec![root]);
    assert!(plan.merges.is_empty());
    let plan = plan_lod_queue(&active, &[], &[root], &[false], &[], &[], &[], 0, 4, 48);
    assert!(plan.splits.is_empty());
    let plan = plan_lod_queue(&active, &[], &[root], &[false], &[], &[10], &[10], 0, 4, 48);
    assert!(plan.splits.is_empty());
}

#[test]
fn split_budget_and_mesh_admission() {
    let a = k(0, 0, 0, 0);
    let b = k(1, 0, 0, 0);
    let c = k(2, 0, 0, 0);
    let active = table(&[(a, 1), (b, 2), (c, 3)]);
    let plan = plan_lod_queue(&active, &[], &[a, b, c], &[false; 3], &[], &[], &[1, 2, 3], 0, 100, 2);
    assert_eq!(plan.splits, vec![a, b]);
    let plan = plan_lod_queue(&active, &[], &[a, b, c], &[false; 3], &[], &[], &[1, 2, 3], 0, 100, 0);
    assert!(plan.splits.is_empty());
    // 4 outstanding + 4 new meshes fit twice an in-flight limit of 4; the
    // second split (8 + 4) does not, unless it is needed for the focus.
    let plan = plan_lod_queue(&active, &[], &[a, b, c], &[false; 3], &[], &[], &[1, 2, 3], 4, 4, 48);
    assert_eq!(plan.splits, vec![a]);
    let plan = plan_lod_queue(&active, &[], &[a, b, c], &[false, false, true], &[], &[], &[1, 2, 3], 4, 4, 48);
    assert_eq!(plan.splits, vec![a, c]);
}

#[test]
fn requested_split_first_splits_coarser_neighbor() {
    // Face 0: the (0,0) quadrant is split to level 2, the other three
    // quadrants are level-1 leaves.
    let mut cells = vec![(k(0, 1, 0, 1), 1), (k(0, 0, 1, 1), 2), (k(0, 1, 1, 1), 3)];
    for (n, child) in children_of(k(0, 0, 0, 1)).iter().enumerate() {
        cells.push((*child, 10 + n as u64));
    }
    let active = table(&cells);
    let requested = k(0, 1, 1, 2);
    let plan = plan_lod_queue(&active, &[], &[requested], &[false], &[], &[], &[1, 2, 3, 10, 11, 12, 13], 0, 4, 48);
    assert_eq!(plan.splits, vec![k(0, 0, 1, 1)]);
}

#[test]
fn children_of_a_pending_handoff_do_not_split() {
    let parent = k(3, 0, 0, 0);
    let children = children_of(parent);
    let cells: Vec<(CellKey, u64)> = children.iter().enumerate().map(|(n, c)| (*c, n as u64 + 1)).collect();
    let active = table(&cells);
    let plan = plan_lod_queue(&active, &[parent], &[children[0]], &[false], &[], &[], &[1, 2, 3, 4], 0, 4, 48);
    assert!(plan.splits.is_empty());
    let plan = plan_lod_queue(&active, &[], &[children[0]], &[false], &[], &[], &[1, 2, 3, 4], 0, 4, 48);
    assert_eq!(plan.splits, vec![children[0]]);
}

#[test]
fn merges_need_all_children_idle_and_no_handoff() {
    let parent = k(1, 0, 0, 0);
    let children = children_of(parent);
    let cells: Vec<(CellKey, u64)> = children.iter().enumerate().map(|(n, c)| (*c, n as u64 + 1)).collect();
    let active = table(&cells);
    let plan = plan_lod_queue(&active, &[], &[], &[], &[parent], &[], &[], 0, 4, 48);
    assert_eq!(plan.merges, vec![parent]);
    let plan = plan_lod_queue(&active, &[], &[], &[], &[parent], &[3], &[], 0, 4, 48);
    assert!(plan.merges.is_empty());
    let plan = plan_lod_queue(&active, &[parent], &[], &[], &[parent], &[], &[], 0, 4, 48);
    assert!(plan.merges.is_empty());
    let partial = table(&cells[..3]);
    let plan = plan_lod_queue(&partial, &[], &[], &[], &[parent], &[], &[], 0, 4, 48);
    assert!(plan.merges.is_empty());
    let plan = plan_lod_queue(&active, &[], &[], &[], &[parent, parent], &[], &[], 0, 4, 48);
    assert_eq!(plan.merges, vec![parent]);
}

#[test]
fn a_chunk_split_this_frame_is_not_merged_back() {
    let root = k(4, 0, 0, 0);
    let active = table(&[(root, 5)]);
    let plan = plan_lod_queue(&active, &[], &[root], &[false], &[root], &[], &[5], 0, 4, 48);
    assert_eq!(plan.splits, vec![root]);
    assert!(plan.merges.is_empty());
}

#[test]
fn split_candidates_skip_children_of_retained_merges() {
    let a = k(0, 2, 3, 2);
    let b = k(0, 0, 0, 2);
    let c = k(1, 0, 0, 0);
    let keys = [a, b, c];
    assert_eq!(split_candidates(&keys, &[true, true, true], 12, &[]), vec![a, b, c]);
    assert_eq!(split_candidates(&keys, &[true, false, true], 12, &[]), vec![a, c]);
    assert_eq!(split_candidates(&keys, &[true, true, true], 12, &[k(0, 1, 1, 1)]), vec![b, c]);
    // Chunks at the deepest level are never split, whatever the camera asks.
    assert_eq!(split_candidates(&keys, &[true, true, true], 2, &[]), vec![c]);
    assert_eq!(split_candidates(&keys, &[true, true, true], 0, &[]), Vec::<CellKey>::new());
}

#[test]
fn merge_parents_are_distinct_and_above_the_floor() {
    let p = k(2, 1, 0, 1);
    let children = children_of(p);
    let root_child = k(5, 1, 1, 1);
    let keys = [children[0], root_child, children[3], k(0, 0, 0, 0)];
    assert_eq!(merge_parents_to_check(&keys, &[], &[]), vec![p]);
    let q = k(2, 2, 2, 3);
    let keys = [children[1], children_of(q)[2], children[2]];
    assert_eq!(merge_parents_to_check(&keys, &[], &[]), vec![p, q]);
    assert_eq!(merge_parents_to_check(&keys, &[p], &[]), vec![q]);
    assert_eq!(merge_parents_to_check(&keys, &[], &[q]), vec![p]);
}

#[test]
fn merge_candidates_need_all_children_and_the_camera_test() {
    let p = k(2, 1, 0, 1);
    let q = k(2, 0, 0, 1);
    let cells: Vec<(CellKey, u64)> = children_of(p).iter().map(|c| (*c, 1)).collect();
    let mut active = table(&cells);
    active.insert(children_of(q)[0], 2);
    assert_eq!(merge_candidates(&[p, q], &[true, true], &active), vec![p]);
    assert_eq!(merge_candidates(&[p, q], &[false, true], &active), Vec::<CellKey>::new());
}
