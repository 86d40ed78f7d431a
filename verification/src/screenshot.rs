//! The screenshot run's per-frame decisions: when a scenario starts, when
//! the terrain has settled long enough to capture it, when it times out,
//! and how the run ends. Moving the camera, capturing and writing files are
//! the caller's.

use vstd::prelude::*;

verus! {

/// Consecutive settled frames required before a capture.
pub const SETTLED_FRAMES_THRESHOLD: u32 = 5;

/// Frames a scenario must have run before the wall-clock timeout may end it.
pub const MAX_FRAMES_PER_SCENARIO: u32 = 600;

/// Whether a timed-out capture fails the run: always, unless the run is
/// exploratory.
pub fn acceptance_timeout_fails(exploratory: bool) -> (b: bool)
    ensures
        b == !exploratory,
{
    !exploratory
}

/// Whether a scenario has used up both of its budgets: at least
/// `MAX_FRAMES_PER_SCENARIO` frames and at least `max_wait_ms` of wall
/// clock.
pub fn scenario_timed_out(frames: u32, elapsed_ms: u64, max_wait_ms: u64) -> (b: bool)
    ensures
        b == (frames >= MAX_FRAMES_PER_SCENARIO && elapsed_ms >= max_wait_ms),
{
    frames >= MAX_FRAMES_PER_SCENARIO && elapsed_ms >= max_wait_ms
}

/// Where a screenshot run stands.
#[derive(Clone, Copy, Debug, PartialEq, Eq, Structural)]
pub struct ScreenshotProgress {
    pub scenario_count: usize,
    pub current_index: usize,
    /// Frames a scenario runs at least before it may be captured.
    pub frames_to_wait: u32,
    pub frames_waited: u32,
    /// Consecutive frames the terrain has been settled.
    pub settled_frames: u32,
    pub completed: bool,
    /// A capture timed out in an acceptance (non-exploratory) run.
    pub acceptance_failed: bool,
    pub pending_screenshots: u32,
    pub exploratory: bool,
    pub max_wait_ms: u64,
}

/// What the caller observed this frame: screenshots still being written,
/// whether the terrain is settled (no mesh, split or merge work left, some
/// chunk visible, and the scenario's detail and altitude targets met), and
/// the wall clock since the scenario started.
#[derive(Clone, Copy, Debug, PartialEq, Eq, Structural)]
pub struct ScreenshotFrame {
    pub capturing: u32,
    pub terrain_settled: bool,
    pub elapsed_ms: u64,
}

/// What the caller does this frame.
#[derive(Clone, Copy, Debug, PartialEq, Eq, Structural)]
pub enum ScreenshotAction {
    /// End the process, successfully or not.
    Exit { success: bool },
    /// Nothing (waiting for screenshots to be written, or just finished).
    Idle,
    /// Keep waiting on scenario `index`; `start` asks to place the camera
    /// for it first (its first frame).
    Wait { index: usize, start: bool },
    /// Capture scenario `index` now (after placing the camera when `start`);
    /// `timed_out` marks a capture forced by the timeout.
    Capture { index: usize, start: bool, timed_out: bool },
}

/// One frame of the screenshot run.
pub open spec fn spec_screenshot_step(p: ScreenshotProgress, f: ScreenshotFrame) -> (ScreenshotProgress, ScreenshotAction) {
    let p = ScreenshotProgress { pending_screenshots: f.capturing, ..p };
    if p.completed {
        if p.pending_screenshots == 0 {
            (p, ScreenshotAction::Exit { success: !p.acceptance_failed })
        } else {
            (p, ScreenshotAction::Idle)
        }
    } else if p.current_index >= p.scenario_count {
        (ScreenshotProgress { completed: true, ..p }, ScreenshotAction::Idle)
    } else {
        let start = p.frames_waited == 0;
        let frames = (p.frames_waited + 1) as u32;
        let settled = if f.terrain_settled { (p.settled_frames + 1) as u32 } else { 0u32 };
        let elapsed = if start { 0u64 } else { f.elapsed_ms };
        let ready = frames >= p.frames_to_wait && settled >= SETTLED_FRAMES_THRESHOLD;
        let timed_out = frames >= MAX_FRAMES_PER_SCENARIO && elapsed >= p.max_wait_ms;
        if ready || timed_out {
            let forced = timed_out && !ready;
            (
                ScreenshotProgress {
                    current_index: (p.current_index + 1) as usize,
                    frames_waited: 0,
                    settled_frames: 0,
                    acceptance_failed: p.acceptance_failed || (forced && !p.exploratory),
                    pending_screenshots: (p.pending_screenshots + 1) as u32,
                    ..p
                },
                ScreenshotAction::Capture { index: p.current_index, start, timed_out: forced },
            )
        } else {
            (
                ScreenshotProgress { frames_waited: frames, settled_frames: settled, ..p },
                ScreenshotAction::Wait { index: p.current_index, start },
            )
        }
    }
}

/// One frame of the screenshot run (see `spec_screenshot_step`). While a
/// scenario is running, the frame counter, the settled counter (on a
/// settled frame) and the screenshot count must have room for one more. The run never moves past its last scenario, and once an
/// acceptance capture has timed out the run stays failed.
pub fn screenshot_step(p: ScreenshotProgress, f: ScreenshotFrame) -> (r: (ScreenshotProgress, ScreenshotAction))
    requires
        !p.completed && p.current_index < p.scenario_count ==> {
            &&& p.frames_waited < u32::MAX
            &&& (f.terrain_settled ==> p.settled_frames < u32::MAX)
            &&& f.capturing < u32::MAX
        },
    ensures
        r == spec_screenshot_step(p, f),
        p.current_index <= p.scenario_count ==> r.0.current_index <= r.0.scenario_count,
        p.acceptance_failed ==> r.0.acceptance_failed,
{
    let mut p = p;
    p.pending_screenshots = f.capturing;
    if p.completed {
        if p.pending_screenshots == 0 {
            return (p, ScreenshotAction::Exit { success: !p.acceptance_failed });
        }
        return (p, ScreenshotAction::Idle);
    }
    if p.current_index >= p.scenario_count {
        p.completed = true;
        return (p, ScreenshotAction::Idle);
    }
    let start = p.frames_waited == 0;
    let frames = p.frames_waited + 1;
    let settled: u32 = if f.terrain_settled { p.settled_frames + 1 } else { 0 };
    let elapsed: u64 = if start { 0 } else { f.elapsed_ms };
    let ready = frames >= p.frames_to_wait && settled >= SETTLED_FRAMES_THRESHOLD;
    let timed_out = scenario_timed_out(frames, elapsed, p.max_wait_ms);
    if ready || timed_out {
        let forced = timed_out && !ready;
        if forced && acceptance_timeout_fails(p.exploratory) {
            p.acceptance_failed = true;
        }
        let index = p.current_index;
        p.current_index = p.current_index + 1;
        p.frames_waited = 0;
        p.settled_frames = 0;
        p.pending_screenshots = p.pending_screenshots + 1;
        (p, ScreenshotAction::Capture { index, start, timed_out: forced })
    } else {
        p.frames_waited = frames;
        p.settled_frames = settled;
        (p, ScreenshotAction::Wait { index: p.current_index, start })
    }
}

} // verus!
