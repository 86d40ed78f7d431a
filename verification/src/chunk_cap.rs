//! Decisions of the frame-budget controller for the terrain active-chunk
//! cap: the cap grows only after sustained frame-time headroom near the
//! cap, shrinks on a frame-time regression near it, and stays inside
//! `MIN_CHUNK_CAP..=MAX_CHUNK_CAP`. Lowering the cap stops new splits; it
//! never evicts active chunks.

use vstd::prelude::*;
use crate::scheduling::{near_cap, sat_mul};

verus! {

/// Lowest cap the controller sets.
pub const MIN_CHUNK_CAP: usize = 1_000;

/// Highest cap the controller sets.
pub const MAX_CHUNK_CAP: usize = 10_000;

/// Cap growth per increase.
pub const INCREASE_STEP: usize = 250;

/// Cap reduction per decrease.
pub const DECREASE_STEP: usize = 500;

/// Frame-time samples kept between evaluations.
pub const FRAME_SAMPLE_CAPACITY: usize = 180;

/// Samples an evaluation needs before it may change anything.
pub const MIN_SAMPLES_PER_EVALUATION: usize = 20;

/// Where the 95th-percentile frame time of an evaluation window falls:
/// below 1 ms (nothing measured), above the 18 ms regression line, below the
/// 13 ms target, or in between.
#[derive(Clone, Copy, Debug, PartialEq, Eq, Structural)]
pub enum FrameTimeBand {
    Unmeasured,
    Regressed,
    Headroom,
    Steady,
}

/// What to do with the cap after an evaluation window.
#[derive(Clone, Copy, Debug, PartialEq, Eq, Structural)]
pub enum CapDecision {
    Hold,
    Increase,
    Decrease,
}

/// The active chunks reach `percent` percent of `cap` (saturating).
pub open spec fn spec_near_cap(active_chunks: usize, cap: usize, percent: usize) -> bool {
    sat_mul(active_chunks, 100) >= sat_mul(cap, percent)
}

/// The decision for a window: decrease on a regression with no meshes
/// pending, the cap above its floor and the active chunks at 70% of it;
/// increase (never under vsync) on headroom with no meshes pending, the cap
/// below its ceiling, at least one earlier good window and the active
/// chunks at 90% of it; hold otherwise.
pub open spec fn spec_decide_cap_change(
    band: FrameTimeBand,
    active_chunks: usize,
    pending_meshes: usize,
    vsync: bool,
    current_cap: usize,
    good_windows: u8,
) -> CapDecision {
    if band == FrameTimeBand::Unmeasured {
        CapDecision::Hold
    } else if band == FrameTimeBand::Regressed && pending_meshes == 0 && current_cap > MIN_CHUNK_CAP
        && spec_near_cap(active_chunks, current_cap, 70) {
        CapDecision::Decrease
    } else if !vsync && band == FrameTimeBand::Headroom && pending_meshes == 0 && current_cap < MAX_CHUNK_CAP
        && good_windows >= 1 && spec_near_cap(active_chunks, current_cap, 90) {
        CapDecision::Increase
    } else {
        CapDecision::Hold
    }
}

/// The decision for an evaluation window (see `spec_decide_cap_change`).
pub fn decide_cap_change(
    band: FrameTimeBand,
    active_chunks: usize,
    pending_meshes: usize,
    vsync: bool,
    current_cap: usize,
    good_windows: u8,
) -> (d: CapDecision)
    ensures
        d == spec_decide_cap_change(band, active_chunks, pending_meshes, vsync, current_cap, good_windows),
{
    if band == FrameTimeBand::Unmeasured {
        return CapDecision::Hold;
    }
    if band == FrameTimeBand::Regressed && pending_meshes == 0 && current_cap > MIN_CHUNK_CAP
        && near_cap(active_chunks, current_cap, 70) {
        return CapDecision::Decrease;
    }
    if !vsync && band == FrameTimeBand::Headroom && pending_meshes == 0 && current_cap < MAX_CHUNK_CAP
        && good_windows >= 1 && near_cap(active_chunks, current_cap, 90) {
        return CapDecision::Increase;
    }
    CapDecision::Hold
}

/// The controller's state after one evaluation window.
#[derive(Clone, Copy, Debug, PartialEq, Eq, Structural)]
pub struct CapUpdate {
    pub current_cap: usize,
    pub good_windows: u8,
    /// Signed change of the cap in this window.
    pub last_change: i32,
}

/// The cap after `decision`: an increase adds `INCREASE_STEP` up to
/// `MAX_CHUNK_CAP`, a decrease removes `DECREASE_STEP` down to
/// `MIN_CHUNK_CAP`, a hold keeps it.
pub open spec fn spec_next_cap(decision: CapDecision, current_cap: usize) -> int {
    match decision {
        CapDecision::Increase => if current_cap + INCREASE_STEP <= MAX_CHUNK_CAP {
            current_cap + INCREASE_STEP
        } else {
            MAX_CHUNK_CAP as int
        },
        CapDecision::Decrease => if current_cap >= MIN_CHUNK_CAP + DECREASE_STEP {
            current_cap - DECREASE_STEP
        } else {
            MIN_CHUNK_CAP as int
        },
        CapDecision::Hold => current_cap as int,
    }
}

/// The good-window count after a window: reset by a change of the cap; on a
/// hold, one more (saturating) when the window had headroom without vsync,
/// no pending meshes and the active chunks at 90% of the cap, else reset.
pub open spec fn spec_next_good_windows(
    decision: CapDecision,
    band: FrameTimeBand,
    active_chunks: usize,
    pending_meshes: usize,
    vsync: bool,
    current_cap: usize,
    good_windows: u8,
) -> int {
    if decision == CapDecision::Hold && !vsync && band == FrameTimeBand::Headroom && pending_meshes == 0
        && spec_near_cap(active_chunks, current_cap, 90) {
        if good_windows < u8::MAX { good_windows + 1 } else { u8::MAX as int }
    } else {
        0
    }
}

/// Decides the window and applies the decision to the cap and the
/// good-window count.
pub fn update_cap(
    band: FrameTimeBand,
    active_chunks: usize,
    pending_meshes: usize,
    vsync: bool,
    current_cap: usize,
    good_windows: u8,
) -> (u: CapUpdate)
    requires
        current_cap <= i32::MAX,
    ensures
        ({
            let d = spec_decide_cap_change(band, active_chunks, pending_meshes, vsync, current_cap, good_windows);
            &&& u.current_cap == spec_next_cap(d, current_cap)
            &&& u.good_windows == spec_next_good_windows(d, band, active_chunks, pending_meshes, vsync, current_cap, good_windows)
            &&& u.last_change == u.current_cap - current_cap
        }),
{
    let decision = decide_cap_change(band, active_chunks, pending_meshes, vsync, current_cap, good_windows);
    match decision {
        CapDecision::Increase => {
            let raised = current_cap + INCREASE_STEP;
            let new_cap = if raised <= MAX_CHUNK_CAP { raised } else { MAX_CHUNK_CAP };
            CapUpdate { current_cap: new_cap, good_windows: 0, last_change: new_cap as i32 - current_cap as i32 }
        },
        CapDecision::Decrease => {
            let lowered = current_cap.saturating_sub(DECREASE_STEP);
            let new_cap = if lowered >= MIN_CHUNK_CAP { lowered } else { MIN_CHUNK_CAP };
            CapUpdate { current_cap: new_cap, good_windows: 0, last_change: new_cap as i32 - current_cap as i32 }
        },
        CapDecision::Hold => {
            let good = if !vsync && band == FrameTimeBand::Headroom && pending_meshes == 0
                && near_cap(active_chunks, current_cap, 90) {
                good_windows.saturating_add(1)
            } else {
                0
            };
            CapUpdate { current_cap, good_windows: good, last_change: 0 }
        },
    }
}

/// Whatever the decision, a cap inside `MIN_CHUNK_CAP..=MAX_CHUNK_CAP`
/// stays inside it, moving by at most one step.
pub proof fn lemma_cap_stays_in_bounds(decision: CapDecision, current_cap: usize)
    requires
        MIN_CHUNK_CAP <= current_cap <= MAX_CHUNK_CAP,
    ensures
        MIN_CHUNK_CAP <= spec_next_cap(decision, current_cap) <= MAX_CHUNK_CAP,
        current_cap - DECREASE_STEP <= spec_next_cap(decision, current_cap) <= current_cap + INCREASE_STEP,
{
}

/// A decrease needs a regression and an increase needs headroom without
/// vsync, both with no meshes pending: bursts of mesh generation and vsync
/// never grow the cap.
pub proof fn lemma_cap_changes_need_quiet_windows(
    band: FrameTimeBand,
    active_chunks: usize,
    pending_meshes: usize,
    vsync: bool,
    current_cap: usize,
    good_windows: u8,
)
    ensures
        ({
            let d = spec_decide_cap_change(band, active_chunks, pending_meshes, vsync, current_cap, good_windows);
            &&& d != CapDecision::Hold ==> pending_meshes == 0
            &&& d == CapDecision::Increase ==> !vsync && band == FrameTimeBand::Headroom && current_cap < MAX_CHUNK_CAP
            &&& d == CapDecision::Decrease ==> band == FrameTimeBand::Regressed && current_cap > MIN_CHUNK_CAP
        }),
{
}

} // verus!
