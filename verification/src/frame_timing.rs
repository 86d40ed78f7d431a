//! Wall-clock durations of the main-world schedule stages. Boundaries are
//! recorded before each stage and after the last; stage durations are
//! captured on one frame, then skipped for `CAPTURE_PERIOD_FRAMES` frames.

use vstd::prelude::*;
use std::time::{Duration, Instant};
use crate::profiler::instant_now;

verus! {

/// Frames skipped between two captured frames.
pub const CAPTURE_PERIOD_FRAMES: u8 = 7;

/// Number of timed main-world stages.
pub const STAGE_COUNT: usize = 7;

/// The main-world schedule stages in the order they run.
#[verifier::allow_in_spec]
pub fn main_schedule_stage_names() -> [&'static str; 7]
    returns
        ["First", "PreUpdate", "RunFixedMainLoop", "Update", "SpawnScene", "PostUpdate", "Last"],
{
    ["First", "PreUpdate", "RunFixedMainLoop", "Update", "SpawnScene", "PostUpdate", "Last"]
}

/// `Instant - Instant`: the time from `earlier` to `later` (nothing is stated
/// about its value).
#[verifier::external_body]
fn instant_duration_since(later: &Instant, earlier: &Instant) -> Duration {
    *later - *earlier
}

/// The countdown and capture flag after a frame starts with countdown `c`:
/// a skipped frame counts down; at zero the frame is captured and the
/// countdown restarts at `CAPTURE_PERIOD_FRAMES`.
pub open spec fn frame_start_capture(c: u8) -> (u8, bool) {
    if c > 0 { ((c - 1) as u8, false) } else { (CAPTURE_PERIOD_FRAMES, true) }
}

/// The countdown after `k` frame starts from countdown `c`.
pub open spec fn countdown_after(c: u8, k: nat) -> u8
    decreases k,
{
    if k == 0 { c } else { countdown_after(frame_start_capture(c).0, (k - 1) as nat) }
}

/// Captures come one frame in every `CAPTURE_PERIOD_FRAMES + 1`: after a
/// captured frame the next `CAPTURE_PERIOD_FRAMES` frame starts are skipped
/// and the one after is captured again.
pub proof fn lemma_capture_cadence(k: nat)
    requires
        k <= CAPTURE_PERIOD_FRAMES,
    ensures
        k < CAPTURE_PERIOD_FRAMES ==> !frame_start_capture(countdown_after(CAPTURE_PERIOD_FRAMES, k)).1,
        countdown_after(CAPTURE_PERIOD_FRAMES, k) == CAPTURE_PERIOD_FRAMES - k,
        k == CAPTURE_PERIOD_FRAMES ==> frame_start_capture(countdown_after(CAPTURE_PERIOD_FRAMES, k))
            == (CAPTURE_PERIOD_FRAMES, true),
    decreases k,
{
    if k > 0 {
        lemma_capture_cadence((k - 1) as nat);
        lemma_countdown_step(CAPTURE_PERIOD_FRAMES, (k - 1) as nat);
    }
}

/// One more frame start after `k`: the countdown steps from where `k` left it.
proof fn lemma_countdown_step(c: u8, k: nat)
    ensures
        countdown_after(c, k + 1) == frame_start_capture(countdown_after(c, k)).0,
    decreases k,
{
    let d = frame_start_capture(c).0;
    assert(countdown_after(c, k + 1) == countdown_after(d, k));
    if k > 0 {
        lemma_countdown_step(d, (k - 1) as nat);
        assert(((k - 1) as nat + 1) as nat == k);
        assert(countdown_after(c, k) == countdown_after(d, (k - 1) as nat));
    } else {
        assert(countdown_after(d, 0) == d);
    }
}

/// Stage durations of the last captured frame, the last frame's wall time,
/// and the capture state.
pub struct MainWorldFrameTimings {
    /// Each stage's name and duration on the last captured frame.
    pub stages: Vec<(&'static str, Duration)>,
    /// Wall time of the last completed frame, once two frames have started.
    pub frame_duration: Option<Duration>,
    stage_names: [&'static str; 7],
    boundaries: Vec<Instant>,
    frame_start: Option<Instant>,
    frames_until_capture: u8,
    capture_frame: bool,
}

impl MainWorldFrameTimings {
    /// The recorded stage timings.
    pub closed spec fn stage_timings(&self) -> Seq<(&'static str, Duration)> {
        self.stages@
    }

    /// The last completed frame's wall time, if known.
    pub closed spec fn last_frame_duration(&self) -> Option<Duration> {
        self.frame_duration
    }

    /// The stage names durations are recorded under.
    pub closed spec fn names(&self) -> [&'static str; 7] {
        self.stage_names
    }

    /// Frames still to skip before the next capture.
    pub closed spec fn countdown(&self) -> u8 {
        self.frames_until_capture
    }

    /// Whether the current frame is being captured.
    pub closed spec fn capturing(&self) -> bool {
        self.capture_frame
    }

    /// Boundaries recorded in the current captured frame.
    pub closed spec fn boundary_count(&self) -> nat {
        self.boundaries@.len()
    }

    /// Whether a frame has started.
    pub closed spec fn started(&self) -> bool {
        self.frame_start is Some
    }

    /// Timings that record durations under `stage_names`, before any frame.
    pub fn with_stage_names(stage_names: [&'static str; 7]) -> (t: Self)
        ensures
            t.names() == stage_names,
            t.stage_timings().len() == 0,
            t.last_frame_duration() is None,
            t.countdown() == 0,
            !t.capturing(),
            t.boundary_count() == 0,
            !t.started(),
    {
        MainWorldFrameTimings {
            stages: Vec::new(),
            frame_duration: None,
            stage_names,
            boundaries: Vec::new(),
            frame_start: None,
            frames_until_capture: 0,
            capture_frame: false,
        }
    }

    /// Timings for the main schedule's stages.
    pub fn for_main_schedule() -> (t: Self)
        ensures
            t.names() == main_schedule_stage_names(),
            t.stage_timings().len() == 0,
            t.last_frame_duration() is None,
            t.countdown() == 0,
            !t.capturing(),
            t.boundary_count() == 0,
            !t.started(),
    {
        Self::with_stage_names(main_schedule_stage_names())
    }

    /// Records the boundary before stage `index` (`STAGE_COUNT` is the end
    /// of the last stage). Boundary 0 starts a frame: it yields the previous
    /// frame's duration and either begins a capture (when the countdown has
    /// run out, resetting it) or counts one skipped frame. Other boundaries
    /// only count on a captured frame; the final one, when all boundaries
    /// are present, turns them into the stage durations.
    pub fn record_boundary(&mut self, index: usize)
        ensures
            final(self).names() == old(self).names(),
            index == 0 ==> {
                &&& final(self).started()
                &&& (final(self).last_frame_duration() is Some) == old(self).started()
                &&& final(self).stage_timings() == old(self).stage_timings()
                &&& (final(self).countdown(), final(self).capturing()) == frame_start_capture(old(self).countdown())
                &&& final(self).boundary_count() == if old(self).countdown() > 0 { old(self).boundary_count() } else { 1 }
            },
            index != 0 ==> {
                &&& final(self).started() == old(self).started()
                &&& final(self).last_frame_duration() == old(self).last_frame_duration()
                &&& final(self).countdown() == old(self).countdown()
                &&& final(self).capturing() == old(self).capturing()
                &&& final(self).boundary_count() == old(self).boundary_count() + (if old(self).capturing() { 1int } else { 0 })
                &&& if old(self).capturing() && index == STAGE_COUNT && old(self).boundary_count() + 1 == STAGE_COUNT + 1 {
                    &&& final(self).stage_timings().len() == STAGE_COUNT
                    &&& forall|k: int| 0 <= k < STAGE_COUNT ==> (#[trigger] final(self).stage_timings()[k]).0 == old(self).names()[k]
                } else {
                    final(self).stage_timings() == old(self).stage_timings()
                }
            },
    {
        if index == 0 {
            let now = instant_now();
            self.frame_duration = match &self.frame_start {
                Some(start) => Some(instant_duration_since(&now, start)),
                None => None,
            };
            self.frame_start = Some(now);
            if self.frames_until_capture > 0 {
                self.frames_until_capture = self.frames_until_capture - 1;
                self.capture_frame = false;
                return;
            }
            self.frames_until_capture = CAPTURE_PERIOD_FRAMES;
            self.capture_frame = true;
            self.boundaries.clear();
            self.boundaries.push(now);
            return;
        }
        if !self.capture_frame {
            return;
        }
        self.boundaries.push(instant_now());
        if index != STAGE_COUNT || self.boundaries.len() != STAGE_COUNT + 1 {
            return;
        }
        let ghost before = *self;
        self.stages.clear();
        let mut k: usize = 0;
        while k < STAGE_COUNT
            invariant
                self.stage_names == before.stage_names,
                self.boundaries == before.boundaries,
                self.frame_start == before.frame_start,
                self.frame_duration == before.frame_duration,
                self.frames_until_capture == before.frames_until_capture,
                self.capture_frame == before.capture_frame,
                k <= STAGE_COUNT,
                self.boundaries@.len() == STAGE_COUNT + 1,
                self.stages@.len() == k,
                forall|m: int| 0 <= m < k ==> (#[trigger] self.stages@[m]).0 == self.stage_names[m],
            decreases STAGE_COUNT - k,
        {
            let d = instant_duration_since(&self.boundaries[k + 1], &self.boundaries[k]);
            self.stages.push((self.stage_names[k], d));
            k = k + 1;
        }
    }

    /// Frames skipped between two captured frames.
    pub fn capture_period_frames(&self) -> (n: u8)
        ensures
            n == CAPTURE_PERIOD_FRAMES,
    {
        CAPTURE_PERIOD_FRAMES
    }

    /// Whether the current frame is being captured.
    pub fn is_capturing(&self) -> (b: bool)
        ensures
            b == self.capturing(),
    {
        self.capture_frame
    }

    /// Frames still to skip before the next capture.
    pub fn frames_until_capture(&self) -> (n: u8)
        ensures
            n == self.countdown(),
    {
        self.frames_until_capture
    }

    /// The stage names durations are recorded under.
    pub fn stage_names(&self) -> (names: [&'static str; 7])
        ensures
            names == self.names(),
    {
        self.stage_names
    }
}

impl Default for MainWorldFrameTimings {
    /// Timings with empty stage names, before any frame.
    fn default() -> (t: Self)
        ensures
            t.stage_timings().len() == 0,
            t.last_frame_duration() is None,
            t.countdown() == 0,
            !t.capturing(),
            t.boundary_count() == 0,
            !t.started(),
    {
        Self::with_stage_names(["", "", "", "", "", "", ""])
    }
}

} // verus!
