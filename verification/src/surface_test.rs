//! The timed surface-streaming test run: its command-line options and the
//! settle gate of its first phase.

use vstd::prelude::*;
use crate::launch::str_eq;
use crate::text::{chars_of, parse_decimal, spec_parse_decimal};

verus! {

/// Options of the surface-streaming test run.
#[derive(Clone, Debug, PartialEq, Eq)]
pub struct M5TestOptions {
    /// Time limit of the run, in whole seconds.
    pub max_seconds: u64,
    /// Where to write the report (standard output when absent).
    pub output_path: Option<String>,
}

/// The options gathered while reading the arguments.
pub struct M5Scan {
    pub max_seconds: Option<u64>,
    pub output_path: Option<Seq<char>>,
}

/// Reads the arguments from index `i` on: `--m5-test` and
/// `--m5-test-output` take the next argument as their value (for
/// `--m5-test`, a decimal `u64`; a value that does not parse clears it);
/// other arguments are skipped. The last occurrence of each wins.
pub open spec fn spec_m5_scan(args: Seq<String>, i: int, s: M5Scan) -> M5Scan
    decreases args.len() - i,
{
    if i < 0 || i >= args.len() {
        s
    } else {
        let a = args[i]@;
        if a == "--m5-test"@ || a == "--m5-test-output"@ {
            if i + 1 < args.len() {
                let v = args[i + 1]@;
                let s2 = if a == "--m5-test"@ {
                    M5Scan { max_seconds: spec_parse_decimal(v, u64::MAX), ..s }
                } else {
                    M5Scan { output_path: Some(v), ..s }
                };
                spec_m5_scan(args, i + 2, s2)
            } else {
                s
            }
        } else {
            spec_m5_scan(args, i + 1, s)
        }
    }
}

/// What the command line asks of the surface-streaming test: its time
/// limit and report path when `--m5-test` has a valid value, `None`
/// otherwise.
pub open spec fn spec_m5_test_options(args: Seq<String>) -> Option<(u64, Option<Seq<char>>)> {
    let s = spec_m5_scan(args, 0, M5Scan { max_seconds: None, output_path: None });
    match s.max_seconds {
        Some(secs) => Some((secs, s.output_path)),
        None => None,
    }
}

fn seconds_from_arg(value: &String) -> (n: Option<u64>)
    ensures
        n == spec_parse_decimal(value@, u64::MAX),
{
    let cs = chars_of(value.as_str());
    assert(cs@.subrange(0, cs@.len() as int) =~= cs@);
    parse_decimal(cs.as_slice(), 0, cs.len(), u64::MAX)
}

/// The surface-streaming test options (see `spec_m5_test_options`).
pub fn m5_test_options_from_args(args: &[String]) -> (opts: Option<M5TestOptions>)
    ensures
        match spec_m5_test_options(args@) {
            Some((secs, path)) => opts matches Some(o) && o.max_seconds == secs && match path {
                Some(p) => o.output_path matches Some(q) && q@ == p,
                None => o.output_path is None,
            },
            None => opts is None,
        },
{
    let n = args.len();
    let mut max_seconds: Option<u64> = None;
    let mut output_path: Option<String> = None;
    let mut i: usize = 0;
    let ghost init = M5Scan { max_seconds: None, output_path: None };
    while i < n
        invariant
            n == args@.len(),
            ({
                let cur = M5Scan {
                    max_seconds,
                    output_path: match output_path { Some(p) => Some(p@), None => None },
                };
                spec_m5_scan(args@, i as int, cur) == spec_m5_scan(args@, 0, init)
            }),
        decreases n - i,
    {
        let a = args[i].as_str();
        if str_eq(a, "--m5-test") || str_eq(a, "--m5-test-output") {
            if i + 1 < n {
                if str_eq(a, "--m5-test") {
                    max_seconds = seconds_from_arg(&args[i + 1]);
                } else {
                    output_path = Some(args[i + 1].clone());
                }
                i = i + 2;
            } else {
                i = n;
            }
        } else {
            i = i + 1;
        }
    }
    match max_seconds {
        Some(secs) => Some(M5TestOptions { max_seconds: secs, output_path }),
        None => None,
    }
}

/// Level at which the nearest chunk counts as fine detail.
pub const FINE_LOD_TARGET: u8 = 17;

/// Consecutive settled frames that end the first phase.
pub const SETTLED_FRAMES_REQUIRED: u32 = 10;

/// Mesh work that still counts as settled with `active_chunks` chunks: a
/// quarter of the active chunks, at least 16.
pub open spec fn pending_mesh_threshold(active_chunks: usize) -> int {
    if active_chunks / 4 > 16 { (active_chunks / 4) as int } else { 16 }
}

/// One frame of the first phase's settle gate. The frame is settled when
/// the nearest chunk is fine (level at least `FINE_LOD_TARGET`, or the
/// caller measured a fine enough vertex spacing) and the pending meshes are
/// within `pending_mesh_threshold`; the settled count then grows, else it
/// restarts at zero (the count must have room for one more on a settled
/// frame). Returns the new count and whether the phase is done.
pub fn phase_a_settle_step(
    settled_frames: u32,
    pending_meshes: usize,
    active_chunks: usize,
    nearest_lod: u8,
    fine_spacing: bool,
) -> (r: (u32, bool))
    requires
        (nearest_lod >= FINE_LOD_TARGET || fine_spacing) && pending_meshes <= pending_mesh_threshold(active_chunks)
            ==> settled_frames < u32::MAX,
    ensures
        ({
            let settled = (nearest_lod >= FINE_LOD_TARGET || fine_spacing)
                && pending_meshes <= pending_mesh_threshold(active_chunks);
            &&& r.0 == (if settled { settled_frames + 1 } else { 0 })
            &&& r.1 == (r.0 >= SETTLED_FRAMES_REQUIRED)
        }),
{
    let quarter = active_chunks / 4;
    let threshold = if quarter > 16 { quarter } else { 16 };
    let fine = nearest_lod >= FINE_LOD_TARGET || fine_spacing;
    let count = if fine && pending_meshes <= threshold { settled_frames + 1 } else { 0 };
    (count, count >= SETTLED_FRAMES_REQUIRED)
}

} // verus!
