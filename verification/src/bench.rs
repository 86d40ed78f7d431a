//! Benchmark mode: its command-line options and the frame-by-frame
//! progress through the benchmark scenarios (a warmup phase, then a measured
//! phase, per scenario).

use vstd::prelude::*;
use crate::launch::str_eq;
use crate::text::{chars_of, parse_decimal, spec_parse_decimal};

verus! {

/// Warmup frames per scenario unless the command line says otherwise.
pub const DEFAULT_WARMUP: u32 = 30;

/// Measured frames per scenario unless the command line says otherwise.
pub const DEFAULT_MEASURE: u32 = 60;

/// Benchmark options from the command line.
#[derive(Clone, Debug, PartialEq, Eq)]
pub struct BenchOptions {
    /// Where to write the report (standard output when absent).
    pub output_path: Option<String>,
    pub warmup_frames: u32,
    pub measure_frames: u32,
}

/// The options gathered while reading the arguments.
pub struct BenchScan {
    pub bench: bool,
    pub output_path: Option<Seq<char>>,
    pub warmup_frames: u32,
    pub measure_frames: u32,
}

/// A frame count option's value: its decimal `u32`, or `default` when it
/// does not parse.
pub open spec fn frames_value(value: Seq<char>, default: u32) -> u32 {
    match spec_parse_decimal(value, u32::MAX as u64) {
        Some(x) => x as u32,
        None => default,
    }
}

/// Reads the arguments from index `i` on: `--bench` enables the benchmark;
/// `--bench-output`, `--bench-warmup` and `--bench-measure` take the next
/// argument as their value (a frame count that does not parse gives the
/// default); other arguments are skipped.
pub open spec fn spec_bench_scan(args: Seq<String>, i: int, s: BenchScan) -> BenchScan
    decreases args.len() - i,
{
    if i < 0 || i >= args.len() {
        s
    } else {
        let a = args[i]@;
        if a == "--bench"@ {
            spec_bench_scan(args, i + 1, BenchScan { bench: true, ..s })
        } else if a == "--bench-output"@ || a == "--bench-warmup"@ || a == "--bench-measure"@ {
            if i + 1 < args.len() {
                let v = args[i + 1]@;
                let s2 = if a == "--bench-output"@ {
                    BenchScan { output_path: Some(v), ..s }
                } else if a == "--bench-warmup"@ {
                    BenchScan { warmup_frames: frames_value(v, DEFAULT_WARMUP), ..s }
                } else {
                    BenchScan { measure_frames: frames_value(v, DEFAULT_MEASURE), ..s }
                };
                spec_bench_scan(args, i + 2, s2)
            } else {
                s
            }
        } else {
            spec_bench_scan(args, i + 1, s)
        }
    }
}

/// What the command line asks of benchmark mode, read after the program
/// name: the options when `--bench` is present, `None` otherwise.
pub open spec fn spec_bench_options(args: Seq<String>) -> Option<(Option<Seq<char>>, u32, u32)> {
    let s = spec_bench_scan(
        args,
        1,
        BenchScan { bench: false, output_path: None, warmup_frames: DEFAULT_WARMUP, measure_frames: DEFAULT_MEASURE },
    );
    if s.bench { Some((s.output_path, s.warmup_frames, s.measure_frames)) } else { None }
}

fn frames_from_arg(value: &String, default: u32) -> (n: u32)
    ensures
        n == frames_value(value@, default),
{
    let cs = chars_of(value.as_str());
    assert(cs@.subrange(0, cs@.len() as int) =~= cs@);
    match parse_decimal(cs.as_slice(), 0, cs.len(), 0xffff_ffff) {
        Some(x) => x as u32,
        None => default,
    }
}

/// Benchmark options from the command line (see `spec_bench_options`).
pub fn bench_options_from_args(args: &[String]) -> (opts: Option<BenchOptions>)
    ensures
        match spec_bench_options(args@) {
            Some((path, warmup, measure)) => opts matches Some(o) && o.warmup_frames == warmup
                && o.measure_frames == measure && match path {
                    Some(p) => o.output_path matches Some(q) && q@ == p,
                    None => o.output_path is None,
                },
            None => opts is None,
        },
{
    let n = args.len();
    let mut bench = false;
    let mut output_path: Option<String> = None;
    let mut warmup = DEFAULT_WARMUP;
    let mut measure = DEFAULT_MEASURE;
    let mut i: usize = 1;
    let ghost init = BenchScan { bench: false, output_path: None, warmup_frames: DEFAULT_WARMUP, measure_frames: DEFAULT_MEASURE };
    while i < n
        invariant
            n == args@.len(),
            1 <= i,
            ({
                let cur = BenchScan {
                    bench,
                    output_path: match output_path { Some(p) => Some(p@), None => None },
                    warmup_frames: warmup,
                    measure_frames: measure,
                };
                spec_bench_scan(args@, i as int, cur) == spec_bench_scan(args@, 1, init)
            }),
        decreases n - i,
    {
        let a = args[i].as_str();
        if str_eq(a, "--bench") {
            bench = true;
            i = i + 1;
        } else if str_eq(a, "--bench-output") || str_eq(a, "--bench-warmup") || str_eq(a, "--bench-measure") {
            if i + 1 < n {
                if str_eq(a, "--bench-output") {
                    output_path = Some(args[i + 1].clone());
                } else if str_eq(a, "--bench-warmup") {
                    warmup = frames_from_arg(&args[i + 1], DEFAULT_WARMUP);
                } else {
                    measure = frames_from_arg(&args[i + 1], DEFAULT_MEASURE);
                }
                i = i + 2;
            } else {
                i = n;
            }
        } else {
            i = i + 1;
        }
    }
    if bench {
        Some(BenchOptions { output_path, warmup_frames: warmup, measure_frames: measure })
    } else {
        None
    }
}

/// Phase of the current benchmark scenario.
#[derive(Clone, Copy, Debug, PartialEq, Eq, Structural)]
pub enum BenchPhase {
    Warmup,
    Measure,
}

/// Where the benchmark is: the scenario, its phase and the frames spent in
/// that phase.
#[derive(Clone, Copy, Debug, PartialEq, Eq, Structural)]
pub struct BenchProgress {
    pub current_index: usize,
    pub phase: BenchPhase,
    pub frames_in_phase: u32,
    pub completed: bool,
}

/// What the frame driver must do this frame.
#[derive(Clone, Copy, Debug, PartialEq, Eq, Structural)]
pub enum BenchStep {
    /// The benchmark had already finished: nothing to do.
    Idle,
    /// Every scenario is done: write the report and exit.
    Finish,
    /// A frame of scenario `scenario`. `place_camera`: move the camera to the
    /// scenario first; `start_measuring`: the warmup ended, start a fresh
    /// duration log; `record_duration`: log this frame's duration;
    /// `scenario_done`: the measured phase ended, store the scenario's result.
    Frame { scenario: usize, place_camera: bool, start_measuring: bool, record_duration: bool, scenario_done: bool },
}

/// Frames a phase lasts: its configured length, at least one.
pub open spec fn phase_frames(configured: u32) -> int {
    if configured == 0 { 1 } else { configured as int }
}

/// A progress the driver can be in: inside its current phase.
pub open spec fn progress_wf(p: BenchProgress, warmup: u32, measure: u32) -> bool {
    match p.phase {
        BenchPhase::Warmup => p.frames_in_phase < phase_frames(warmup),
        BenchPhase::Measure => p.frames_in_phase < phase_frames(measure),
    }
}

/// The progress and the step after one frame, given `scenario_count`
/// scenarios and the phase lengths.
pub open spec fn spec_advance(p: BenchProgress, scenario_count: usize, warmup: u32, measure: u32) -> (BenchProgress, BenchStep) {
    if p.completed {
        (p, BenchStep::Idle)
    } else if p.current_index >= scenario_count {
        (BenchProgress { completed: true, ..p }, BenchStep::Finish)
    } else {
        let place = p.frames_in_phase == 0 && p.phase == BenchPhase::Warmup;
        let f = p.frames_in_phase + 1;
        match p.phase {
            BenchPhase::Warmup => if f >= warmup {
                (BenchProgress { phase: BenchPhase::Measure, frames_in_phase: 0, ..p },
                 BenchStep::Frame { scenario: p.current_index, place_camera: place, start_measuring: true, record_duration: false, scenario_done: false })
            } else {
                (BenchProgress { frames_in_phase: f as u32, ..p },
                 BenchStep::Frame { scenario: p.current_index, place_camera: place, start_measuring: false, record_duration: false, scenario_done: false })
            },
            BenchPhase::Measure => if f >= measure {
                (BenchProgress { current_index: (p.current_index + 1) as usize, phase: BenchPhase::Warmup, frames_in_phase: 0, ..p },
                 BenchStep::Frame { scenario: p.current_index, place_camera: place, start_measuring: false, record_duration: true, scenario_done: true })
            } else {
                (BenchProgress { frames_in_phase: f as u32, ..p },
                 BenchStep::Frame { scenario: p.current_index, place_camera: place, start_measuring: false, record_duration: true, scenario_done: false })
            },
        }
    }
}

/// The benchmark at its start: first scenario, warmup, no frames yet.
pub fn bench_start() -> (p: BenchProgress)
    ensures
        p == (BenchProgress { current_index: 0, phase: BenchPhase::Warmup, frames_in_phase: 0, completed: false }),
{
    BenchProgress { current_index: 0, phase: BenchPhase::Warmup, frames_in_phase: 0, completed: false }
}

/// Advances the benchmark by one frame and says what the frame must do.
pub fn advance(progress: &mut BenchProgress, scenario_count: usize, warmup: u32, measure: u32) -> (step: BenchStep)
    requires
        progress_wf(*old(progress), warmup, measure),
    ensures
        (*final(progress), step) == spec_advance(*old(progress), scenario_count, warmup, measure),
        progress_wf(*final(progress), warmup, measure),
{
    if progress.completed {
        return BenchStep::Idle;
    }
    if progress.current_index >= scenario_count {
        progress.completed = true;
        return BenchStep::Finish;
    }
    let scenario = progress.current_index;
    let place_camera = progress.frames_in_phase == 0 && progress.phase == BenchPhase::Warmup;
    let f = progress.frames_in_phase + 1;
    match progress.phase {
        BenchPhase::Warmup => {
            if f >= warmup {
                progress.phase = BenchPhase::Measure;
                progress.frames_in_phase = 0;
                BenchStep::Frame { scenario, place_camera, start_measuring: true, record_duration: false, scenario_done: false }
            } else {
                progress.frames_in_phase = f;
                BenchStep::Frame { scenario, place_camera, start_measuring: false, record_duration: false, scenario_done: false }
            }
        },
        BenchPhase::Measure => {
            if f >= measure {
                progress.current_index = progress.current_index + 1;
                progress.phase = BenchPhase::Warmup;
                progress.frames_in_phase = 0;
                BenchStep::Frame { scenario, place_camera, start_measuring: false, record_duration: true, scenario_done: true }
            } else {
                progress.frames_in_phase = f;
                BenchStep::Frame { scenario, place_camera, start_measuring: false, record_duration: true, scenario_done: false }
            }
        },
    }
}

/// The progress after `k` frames.
pub open spec fn spec_run(p: BenchProgress, k: nat, scenario_count: usize, warmup: u32, measure: u32) -> BenchProgress
    decreases k,
{
    if k == 0 {
        p
    } else {
        spec_run(spec_advance(p, scenario_count, warmup, measure).0, (k - 1) as nat, scenario_count, warmup, measure)
    }
}

proof fn lemma_run_split(p: BenchProgress, a: nat, b: nat, scenario_count: usize, warmup: u32, measure: u32)
    ensures
        spec_run(p, a + b, scenario_count, warmup, measure)
            == spec_run(spec_run(p, a, scenario_count, warmup, measure), b, scenario_count, warmup, measure),
    decreases a,
{
    if a > 0 {
        let q = spec_advance(p, scenario_count, warmup, measure).0;
        lemma_run_split(q, (a - 1) as nat, b, scenario_count, warmup, measure);
        assert((a + b - 1) as nat == (a - 1) as nat + b);
    }
}

/// Running the rest of a phase of scenario `p.current_index`: the warmup
/// ends in the measured phase, the measured phase in the next scenario's
/// warmup; the scenario index does not change before.
proof fn lemma_finish_phase(p: BenchProgress, scenario_count: usize, warmup: u32, measure: u32)
    requires
        !p.completed,
        p.current_index < scenario_count,
        progress_wf(p, warmup, measure),
    ensures
        ({
            let left = (if p.phase == BenchPhase::Warmup { phase_frames(warmup) } else { phase_frames(measure) })
                - p.frames_in_phase;
            &&& left > 0
            &&& spec_run(p, left as nat, scenario_count, warmup, measure) == (if p.phase == BenchPhase::Warmup {
                BenchProgress { phase: BenchPhase::Measure, frames_in_phase: 0, ..p }
            } else {
                BenchProgress { current_index: (p.current_index + 1) as usize, phase: BenchPhase::Warmup, frames_in_phase: 0, ..p }
            })
            &&& forall|k: nat| k < left ==> (#[trigger] spec_run(p, k, scenario_count, warmup, measure)).current_index
                == p.current_index && spec_run(p, k, scenario_count, warmup, measure).phase == p.phase
                && !spec_run(p, k, scenario_count, warmup, measure).completed
        }),
    decreases (if p.phase == BenchPhase::Warmup { phase_frames(warmup) } else { phase_frames(measure) }) - p.frames_in_phase,
{
    let left = (if p.phase == BenchPhase::Warmup { phase_frames(warmup) } else { phase_frames(measure) })
        - p.frames_in_phase;
    let q = spec_advance(p, scenario_count, warmup, measure).0;
    if left > 1 {
        assert(q.phase == p.phase && q.frames_in_phase == p.frames_in_phase + 1 && q.current_index == p.current_index);
        lemma_finish_phase(q, scenario_count, warmup, measure);
        assert(spec_run(p, left as nat, scenario_count, warmup, measure)
            == spec_run(q, (left - 1) as nat, scenario_count, warmup, measure));
        assert forall|k: nat| k < left implies (#[trigger] spec_run(p, k, scenario_count, warmup, measure)).current_index
            == p.current_index && spec_run(p, k, scenario_count, warmup, measure).phase == p.phase
            && !spec_run(p, k, scenario_count, warmup, measure).completed by {
            if k > 0 {
                assert(spec_run(p, k, scenario_count, warmup, measure)
                    == spec_run(q, (k - 1) as nat, scenario_count, warmup, measure));
            }
        }
    } else {
        assert(spec_run(q, 0, scenario_count, warmup, measure) == q);
        assert forall|k: nat| k < left implies (#[trigger] spec_run(p, k, scenario_count, warmup, measure)).current_index
            == p.current_index && spec_run(p, k, scenario_count, warmup, measure).phase == p.phase
            && !spec_run(p, k, scenario_count, warmup, measure).completed by {
            assert(k == 0);
        }
    }
}

/// Each scenario runs for exactly its warmup and measured frames (each phase
/// at least one frame): from the start of scenario `i` the benchmark is in
/// scenario `i` for `phase_frames(warmup) + phase_frames(measure)` frames
/// and then starts scenario `i + 1`.
pub proof fn lemma_scenario_length(i: usize, scenario_count: usize, warmup: u32, measure: u32)
    requires
        i < scenario_count,
    ensures
        ({
            let start = BenchProgress { current_index: i, phase: BenchPhase::Warmup, frames_in_phase: 0, completed: false };
            let total = (phase_frames(warmup) + phase_frames(measure)) as nat;
            &&& spec_run(start, total, scenario_count, warmup, measure)
                == (BenchProgress { current_index: (i + 1) as usize, phase: BenchPhase::Warmup, frames_in_phase: 0, completed: false })
            &&& forall|k: nat| k < total ==> (#[trigger] spec_run(start, k, scenario_count, warmup, measure)).current_index == i
        }),
{
    let start = BenchProgress { current_index: i, phase: BenchPhase::Warmup, frames_in_phase: 0, completed: false };
    let w = phase_frames(warmup) as nat;
    let m = phase_frames(measure) as nat;
    lemma_finish_phase(start, scenario_count, warmup, measure);
    let mid = BenchProgress { phase: BenchPhase::Measure, frames_in_phase: 0, ..start };
    lemma_finish_phase(mid, scenario_count, warmup, measure);
    lemma_run_split(start, w, m, scenario_count, warmup, measure);
    assert forall|k: nat| k < w + m implies (#[trigger] spec_run(start, k, scenario_count, warmup, measure)).current_index == i by {
        if k >= w {
            lemma_run_split(start, w, (k - w) as nat, scenario_count, warmup, measure);
            assert(w + (k - w) as nat == k);
        }
    }
}

} // verus!
