use er_planet::cell::{cell_neighbor, CellKey, NeighborSide};
use er_planet::config::EARTH_RADIUS_M;
use er_planet::quadtree::{
    balancing_split_for, children_of, coarser_neighbor_across_edge, containing_ancestor_key,
    has_conflicting_merge, has_merged_ancestor, is_ancestor_of, is_child_of_retained_split,
    mark_stitch_neighborhood, neighbor_lod_across_edge, parent_of, root_chunks, stitch_neighbor_depths,
    stitch_neighbors, ActiveChunks, DirtyStitchChunks,
};
use std::collections::HashSet;

const PLACEHOLDER: u64 = u64::MAX;

fn key(i: u32, j: u32, lod: u8) -> CellKey {
    CellKey { face: 0, i, j, lod }
}

#[test]
fn roots_cover_each_cube_face_once() {
    let roots = root_chunks();
    assert_eq!(roots.len(), 6);
    for (face, root) in roots.iter().enumerate() {
        assert_eq!(root.face, face as u8);
        assert_eq!(root.lod, 0);
    }
}

#[test]
fn children_and_parent_form_a_split_merge_roundtrip() {
    let parent = CellKey { face: 3, i: 4, j: 7, lod: 5 };
    let children = children_of(parent);
    for child in children {
        assert_eq!(parent_of(child), Some(parent));
        assert_eq!(child.lod, parent.lod + 1);
    }
    assert_eq!(parent_of(root_chunks()[0]), None);
}

#[test]
fn children_round_trip_to_their_parent_and_are_unique() {
    let parent = key(3, 5, 4);
    let children = children_of(parent);
    assert_eq!(children.iter().copied().collect::<HashSet<_>>().len(), 4);
    for child in children {
        assert_eq!(parent_of(child), Some(parent));
        assert_eq!(child.lod, parent.lod + 1);
    }
    assert_eq!(parent_of(key(0, 0, 0)), None);
}

#[test]
fn roots_cover_each_face_exactly_once() {
    let roots = root_chunks();
    assert_eq!(roots.len(), 6);
    assert_eq!(roots.iter().map(|key| key.face).collect::<HashSet<_>>().len(), 6);
    assert!(roots.iter().all(|key| key.i == 0 && key.j == 0 && key.lod == 0));
}

#[test]
fn children_have_expected_indices() {
    let children = children_of(key(3, 5, 4));
    assert_eq!(children, [key(6, 10, 5), key(7, 10, 5), key(6, 11, 5), key(7, 11, 5)]);
}

#[test]
fn finds_a_coarser_neighbor_across_a_parent_boundary() {
    let child = key(0, 2, 3);
    let parent = parent_of(child).unwrap();
    let neighbor = cell_neighbor(parent, NeighborSide::NegU);
    let mut active = ActiveChunks::new();
    active.insert(neighbor, PLACEHOLDER);

    assert_eq!(neighbor_lod_across_edge(child, NeighborSide::NegU, &active), parent.lod);
}

#[test]
fn inner_child_does_not_search_for_a_coarser_neighbor() {
    let child = key(1, 2, 3);
    let parent = parent_of(child).unwrap();
    let mut active = ActiveChunks::new();
    active.insert(cell_neighbor(parent, NeighborSide::NegU), PLACEHOLDER);

    assert_eq!(neighbor_lod_across_edge(child, NeighborSide::NegU, &active), child.lod);
}

#[test]
fn same_level_neighbor_is_not_coarser() {
    let k = key(2, 2, 3);
    let mut active = ActiveChunks::new();
    active.insert(cell_neighbor(k, NeighborSide::PosU), 1);
    assert_eq!(coarser_neighbor_across_edge(k, NeighborSide::PosU, &active), None);
    assert_eq!(neighbor_lod_across_edge(k, NeighborSide::PosU, &active), 3);
}

#[test]
fn active_chunks_insert_remove_contains() {
    let mut active = ActiveChunks::new();
    assert!(active.is_empty());
    let a = key(1, 2, 3);
    let b = CellKey { face: 4, i: 1, j: 2, lod: 3 };
    active.insert(a, 7);
    active.insert(b, 8);
    active.insert(a, 9);
    assert_eq!(active.len(), 2);
    assert!(active.contains(&a) && active.contains(&b));
    let keys: HashSet<CellKey> = active.keys().into_iter().collect();
    assert_eq!(keys, [a, b].into_iter().collect());
    assert_eq!(active.remove(&a), Some(9));
    assert_eq!(active.remove(&a), None);
    assert!(!active.contains(&a));
    assert_eq!(active.len(), 1);
    active.push_pending_split(b);
    active.push_pending_merge(a);
    assert_eq!(active.pending_splits(), &vec![b]);
    assert_eq!(active.pending_merges(), &vec![a]);
    active.clear_pending();
    assert!(active.pending_splits().is_empty() && active.pending_merges().is_empty());
    assert_eq!(active.len(), 1);
}

#[test]
fn focused_split_selects_coarse_neighbor_before_deepening() {
    let k = key(0, 2, 3);
    let ancestor = parent_of(parent_of(k).unwrap()).unwrap();
    let coarse = cell_neighbor(ancestor, NeighborSide::NegU);
    let mut active = ActiveChunks::new();
    active.insert(k, PLACEHOLDER);
    active.insert(coarse, PLACEHOLDER);

    assert_eq!(balancing_split_for(k, &active), Some(coarse));
}

#[test]
fn stitch_contract_rejects_multi_level_neighbor() {
    let k = key(0, 2, 3);
    let ancestor = parent_of(parent_of(k).unwrap()).unwrap();
    let coarse = cell_neighbor(ancestor, NeighborSide::NegU);
    let mut active = ActiveChunks::new();
    active.insert(k, PLACEHOLDER);
    active.insert(coarse, PLACEHOLDER);

    assert!(stitch_neighbors(k, &active).into_iter().all(|n| n.is_none()));
}

#[test]
fn stitch_accepts_one_level_neighbor_and_reports_depths() {
    let k = key(0, 2, 3);
    let parent = parent_of(k).unwrap();
    let coarse = cell_neighbor(parent, NeighborSide::NegU);
    let mut active = ActiveChunks::new();
    active.insert(k, PLACEHOLDER);
    active.insert(coarse, PLACEHOLDER);
    let nbs = stitch_neighbors(k, &active);
    assert_eq!(nbs, [Some(coarse), None, None, None]);
    assert_eq!(stitch_neighbor_depths(k, nbs), [2, 3, 3, 3]);
    assert_eq!(balancing_split_for(k, &active), Some(coarse));
}

#[test]
fn detects_merged_ancestor_for_nested_merge() {
    let grandparent = key(0, 0, 0);
    let parent = key(1, 0, 1);
    let mut merged = vec![grandparent];

    assert!(has_merged_ancestor(parent, &merged));
    assert!(!has_merged_ancestor(grandparent, &merged));

    merged.clear();
    merged.push(parent);
    assert!(has_conflicting_merge(grandparent, &merged));
}

#[test]
fn ancestors_are_the_containing_cells() {
    let k = key(13, 6, 4);
    assert!(is_ancestor_of(key(6, 3, 3), k));
    assert!(is_ancestor_of(key(1, 0, 1), k));
    assert!(is_ancestor_of(key(0, 0, 0), k));
    assert!(!is_ancestor_of(k, k));
    assert!(!is_ancestor_of(key(0, 1, 1), k));
    assert!(!is_ancestor_of(CellKey { face: 1, i: 0, j: 0, lod: 0 }, k));
}

#[test]
fn nested_split_waits_for_parent_handoff() {
    let parent = CellKey { face: 0, i: 2, j: 3, lod: 4 };
    let children = children_of(parent);
    let mut retained = vec![parent];

    assert!(is_child_of_retained_split(children[0], &retained));
    assert!(!is_child_of_retained_split(parent, &retained));
    retained.retain(|k| *k != parent);
    assert!(!is_child_of_retained_split(children[0], &retained));
}

// The finest cell containing the camera direction comes from the float
// projection; here it is given directly as a descendant of the expected cell.
#[test]
fn containing_ancestor_finds_active_ancestor_under_largest_detail() {
    let mut active = ActiveChunks::new();
    let parent = CellKey { face: 0, i: 12, j: 8, lod: 11 };
    active.insert(parent, 1);
    let finest = CellKey { face: 0, i: 12 * 64 + 32, j: 8 * 64 + 32, lod: 17 };
    assert_eq!(containing_ancestor_key(finest, &active, &[]), parent);
}

// Face and face coordinates (in [0, 1]) of a direction, by the dominant
// axis: +x, -x, +y, -y, +z, -z are faces 0..5.
fn face_uv_of(d: [f64; 3]) -> (u8, f64, f64) {
    const U_AXIS: [usize; 6] = [1, 1, 0, 0, 0, 0];
    const V_AXIS: [usize; 6] = [2, 2, 2, 2, 1, 1];
    let (ax, ay, az) = (d[0].abs(), d[1].abs(), d[2].abs());
    let (axis, val) = if ax >= ay && ax >= az {
        (0, d[0])
    } else if ay >= az {
        (1, d[1])
    } else {
        (2, d[2])
    };
    let sign = if val >= 0.0 { 1.0 } else { -1.0 };
    let f = axis * 2 + if sign > 0.0 { 0 } else { 1 };
    let t = sign / val;
    let c = [d[0] * t, d[1] * t, d[2] * t];
    (f as u8, (c[U_AXIS[f]] + 1.0) / 2.0, (c[V_AXIS[f]] + 1.0) / 2.0)
}

// The cell at `lod` that a direction falls in.
fn cell_at(d: [f64; 3], lod: u8) -> CellKey {
    let (face, u, v) = face_uv_of(d);
    let n = (1u64 << lod) as f64;
    let i = (u * n).floor().max(0.0).min(n - 1.0) as u32;
    let j = (v * n).floor().max(0.0).min(n - 1.0) as u32;
    CellKey { face, i, j, lod }
}

#[test]
fn containing_ancestor_walks_to_face_root_when_nothing_is_active() {
    let (x, y, z) = (f64::from(EARTH_RADIUS_M), 1000.0f64, -5000.0f64);
    let len = (x * x + y * y + z * z).sqrt();
    let dir = [x / len, y / len, z / len];
    let active = ActiveChunks::new();
    let finest = cell_at(dir, 17);
    let result = containing_ancestor_key(finest, &active, &[]);
    // Must land on a face root (lod=0, i=0, j=0)
    assert_eq!(result.lod, 0);
    assert_eq!(result.i, 0);
    assert_eq!(result.j, 0);
    assert!(result.face < 6);
    // The face must match the direction's face
    assert_eq!(result.face, cell_at(dir, 0).face);
}

#[test]
fn retained_split_parent_counts_as_containing_ancestor() {
    let parent = CellKey { face: 2, i: 5, j: 5, lod: 6 };
    let active = ActiveChunks::new();
    let finest = CellKey { face: 2, i: 5 * 16 + 3, j: 5 * 16 + 9, lod: 10 };
    assert_eq!(containing_ancestor_key(finest, &active, &[parent]), parent);
}

#[test]
fn containing_ancestor_prefers_the_deepest_cover() {
    let mut active = ActiveChunks::new();
    let coarse = CellKey { face: 1, i: 0, j: 1, lod: 1 };
    let fine = CellKey { face: 1, i: 1, j: 2, lod: 2 };
    active.insert(coarse, 1);
    active.insert(fine, 2);
    let finest = CellKey { face: 1, i: 4, j: 8, lod: 4 };
    assert_eq!(containing_ancestor_key(finest, &active, &[]), fine);
    assert_eq!(containing_ancestor_key(fine, &active, &[]), fine);
}

#[test]
fn stitch_neighborhood_marks_only_active_cells_once() {
    let mut active = ActiveChunks::new();
    let key = CellKey { face: 0, i: 2, j: 2, lod: 2 };
    let sibling = CellKey { face: 0, i: 3, j: 2, lod: 2 };
    let neighbor_parent = CellKey { face: 0, i: 0, j: 1, lod: 1 };
    let child = CellKey { face: 0, i: 4, j: 5, lod: 3 };
    let far = CellKey { face: 5, i: 0, j: 0, lod: 0 };
    for (n, k) in [key, sibling, neighbor_parent, child, far].into_iter().enumerate() {
        active.insert(k, n as u64);
    }
    let stale = CellKey { face: 4, i: 1, j: 1, lod: 1 };
    let mut dirty = DirtyStitchChunks::new();
    dirty.insert(far);
    dirty.insert(stale);
    dirty.insert(far);
    assert!(dirty.contains(&stale));
    mark_stitch_neighborhood(key, &active, &mut dirty);
    assert!(!dirty.contains(&stale));
    let mut got = dirty.keys();
    got.sort_by_key(|k| (k.face, k.lod, k.i, k.j));
    let mut want = vec![key, sibling, neighbor_parent, child, far];
    want.sort_by_key(|k| (k.face, k.lod, k.i, k.j));
    assert_eq!(got, want);
}
