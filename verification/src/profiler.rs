//! Per-frame timing log of named terrain stages.

use vstd::prelude::*;
use std::time::{Duration, Instant};

verus! {

#[verifier::external_type_specification]
#[verifier::external_body]
pub struct ExInstant(Instant);

/// `Instant::now`: the current monotonic time (nothing is stated about it).
#[verifier::external_body]
pub(crate) fn instant_now() -> Instant {
    Instant::now()
}

/// `Instant::elapsed`: time since `start` (nothing is stated about it).
#[verifier::external_body]
fn instant_elapsed(start: &Instant) -> Duration {
    start.elapsed()
}

/// Stage timings recorded during the current frame, in recording order, and
/// the instant the frame started.
pub struct FrameProfiler {
    pub timings: Vec<(&'static str, Duration)>,
    frame_start: Instant,
}

impl View for FrameProfiler {
    type V = Seq<(&'static str, Duration)>;

    /// The recorded stage timings, oldest first.
    closed spec fn view(&self) -> Seq<(&'static str, Duration)> {
        self.timings@
    }
}

impl FrameProfiler {
    /// The recorded stage timings (the `timings` field), oldest first.
    pub fn timings(&self) -> (t: &Vec<(&'static str, Duration)>)
        ensures
            t@ == self@,
    {
        &self.timings
    }

    /// The instant the current frame started (what `total` measures from).
    pub closed spec fn frame_start(&self) -> Instant {
        self.frame_start
    }

    /// Appends the timing of stage `name`; the frame's start is kept.
    pub fn record(&mut self, name: &'static str, duration: Duration)
        ensures
            final(self)@ == old(self)@.push((name, duration)),
            final(self).frame_start() == old(self).frame_start(),
    {
        self.timings.push((name, duration));
    }

    /// Forgets this frame's timings and starts a new frame at `now`.
    pub fn clear_at(&mut self, now: Instant)
        ensures
            final(self)@.len() == 0,
            final(self).frame_start() == now,
    {
        self.timings.clear();
        self.frame_start = now;
    }

    /// Forgets this frame's timings and starts a new frame at the current
    /// instant (`clear_at` with a clock reading taken here).
    pub fn clear(&mut self)
        ensures
            final(self)@.len() == 0,
    {
        let now = instant_now();
        self.clear_at(now);
    }

    /// Wall time since the frame started (depends on the clock; nothing more
    /// is stated).
    pub fn total(&self) -> Duration {
        instant_elapsed(&self.frame_start)
    }
}

impl Default for FrameProfiler {
    fn default() -> (p: Self)
        ensures
            p@.len() == 0,
    {
        FrameProfiler { timings: Vec::with_capacity(16), frame_start: instant_now() }
    }
}

} // verus!
