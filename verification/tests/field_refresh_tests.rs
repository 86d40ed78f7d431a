use er_planet::cell::CellKey;
use er_planet::field_refresh::{refresh_field_chunks, requeue_on_revision, LEARNED_FIELD_REBUILD_BUDGET};
use std::collections::VecDeque;

fn k(i: u32) -> CellKey {
    CellKey { face: 0, i, j: 0, lod: 5 }
}

#[test]
fn touched_chunks_rebuild_now_or_wait_for_their_mesh() {
    let mut queue = VecDeque::new();
    let live = [(1, k(1)), (2, k(2)), (3, k(3))];
    // Entity 2 has a mesh in flight; entity 4 is gone; entity 3 now holds
    // another cell than the touched one.
    let touched = [(1, k(1)), (2, k(2)), (4, k(4)), (3, k(9))];
    let rebuild = refresh_field_chunks(&mut queue, &touched, &live, &[2], LEARNED_FIELD_REBUILD_BUDGET);
    assert_eq!(rebuild, vec![(1, k(1))]);
    // The drain pass takes the waiting entry again and, still busy, puts it back.
    assert_eq!(queue, VecDeque::from(vec![(2, k(2))]));
}

#[test]
fn a_chunk_touched_twice_is_rebuilt_once() {
    let mut queue = VecDeque::new();
    let live = [(1, k(1))];
    let rebuild = refresh_field_chunks(&mut queue, &[(1, k(1)), (1, k(1))], &live, &[], 8);
    assert_eq!(rebuild, vec![(1, k(1))]);
    assert_eq!(queue, VecDeque::from(vec![(1, k(1))]));
}

#[test]
fn busy_cell_is_queued_once() {
    let mut queue = VecDeque::from(vec![(2, k(2))]);
    let live = [(2, k(2))];
    let rebuild = refresh_field_chunks(&mut queue, &[(2, k(2))], &live, &[2], 0);
    assert!(rebuild.is_empty());
    assert_eq!(queue, VecDeque::from(vec![(2, k(2))]));
}

#[test]
fn drain_takes_at_most_the_budget_from_the_front() {
    let mut queue: VecDeque<(u64, CellKey)> = (1..=10).map(|n| (n as u64, k(n))).collect();
    let live: Vec<(u64, CellKey)> = (1..=10).map(|n| (n as u64, k(n))).collect();
    let rebuild = refresh_field_chunks(&mut queue, &[], &live, &[3], 4);
    assert_eq!(rebuild, vec![(1, k(1)), (2, k(2)), (4, k(4))]);
    let rest: Vec<(u64, CellKey)> = queue.into_iter().collect();
    assert_eq!(rest, vec![(5, k(5)), (6, k(6)), (7, k(7)), (8, k(8)), (9, k(9)), (10, k(10)), (3, k(3))]);
}

#[test]
fn stale_queue_entries_are_dropped() {
    let mut queue = VecDeque::from(vec![(7, k(7)), (8, k(8))]);
    let live = [(8, k(8))];
    let rebuild = refresh_field_chunks(&mut queue, &[], &live, &[], 8);
    assert_eq!(rebuild, vec![(8, k(8))]);
    assert!(queue.is_empty());
}

#[test]
fn a_new_field_revision_requeues_every_live_chunk() {
    let live = [(1, k(1)), (2, k(2))];
    let mut seen = 3u64;
    let mut queue = VecDeque::from(vec![(9, k(9))]);
    requeue_on_revision(&mut seen, 3, &mut queue, &live);
    assert_eq!(queue, VecDeque::from(vec![(9, k(9))]));
    requeue_on_revision(&mut seen, 4, &mut queue, &live);
    assert_eq!(seen, 4);
    assert_eq!(queue, VecDeque::from(vec![(1, k(1)), (2, k(2))]));
    let rebuild = refresh_field_chunks(&mut queue, &[], &live, &[2], LEARNED_FIELD_REBUILD_BUDGET);
    assert_eq!(rebuild, vec![(1, k(1))]);
    assert_eq!(queue, VecDeque::from(vec![(2, k(2))]));
}
