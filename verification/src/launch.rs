//! Startup options read from the command-line arguments.

use vstd::prelude::*;
use crate::cli::{spec_from_str_radix, u64_from_str_radix};
use crate::seed::PlanetSeed;
use crate::config::PlanetPreset;
use crate::text::{chars_of, contains_range, contains_seq, parse_decimal, spec_parse_decimal};
use crate::streaming::API_SCALE;

verus! {

/// Planet seed used when the command line names none (or names one that
/// does not parse).
pub const DEFAULT_PLANET_SEED: u64 = 0xC0FFEE;

/// `s` with every leading repetition of the non-empty pattern `p` removed.
pub open spec fn strip_prefixes(s: Seq<char>, p: Seq<char>) -> Seq<char>
    decreases s.len(),
{
    if p.len() > 0 && p.len() <= s.len() && s.take(p.len() as int) == p {
        strip_prefixes(s.skip(p.len() as int), p)
    } else {
        s
    }
}

/// Argument `k` is `flag` and another argument follows it.
pub open spec fn is_flag_pair(args: Seq<String>, flag: Seq<char>, k: int) -> bool {
    0 <= k && k + 1 < args.len() && args[k]@ == flag
}

/// Index of the first argument that is `flag` and has a value after it.
pub open spec fn first_flag_pair(args: Seq<String>, flag: Seq<char>) -> Option<int> {
    if exists|k: int| is_flag_pair(args, flag, k) {
        Some(choose|k: int| is_flag_pair(args, flag, k) && forall|m: int| 0 <= m < k ==> !is_flag_pair(args, flag, m))
    } else {
        None
    }
}

/// Index of the first `flag` argument that has a value after it.
fn find_flag_pair(args: &[String], flag: &str) -> (r: Option<usize>)
    ensures
        r matches Some(k) ==> first_flag_pair(args@, flag@) == Some(k as int) && is_flag_pair(args@, flag@, k as int),
        r is None ==> first_flag_pair(args@, flag@) is None,
{
    let mut k: usize = 0;
    while args.len() > 1 && k < args.len() - 1
        invariant
            k <= args@.len(),
            forall|m: int| 0 <= m < k ==> !is_flag_pair(args@, flag@, m),
        decreases args@.len() - k,
    {
        if str_eq(args[k].as_str(), flag) {
            proof {
                assert(is_flag_pair(args@, flag@, k as int));
                let c = choose|c: int| is_flag_pair(args@, flag@, c) && forall|m: int| 0 <= m < c ==> !is_flag_pair(args@, flag@, m);
                assert(c == k) by {
                    if c > k {
                        assert(!is_flag_pair(args@, flag@, k as int));
                    }
                }
            }
            return Some(k);
        }
        k = k + 1;
    }
    proof {
        assert forall|m: int| !is_flag_pair(args@, flag@, m) by {
            if 0 <= m < k {
            }
        }
    }
    None
}

/// The seed a `--seed` value denotes: hexadecimal (after dropping leading
/// `0x` prefixes) when that parses, else decimal, else the default.
pub open spec fn spec_seed_from_value(v: Seq<char>) -> u64 {
    match spec_from_str_radix(strip_prefixes(v, "0x"@), 16) {
        Some(x) => x,
        None => match spec_from_str_radix(v, 10) {
            Some(x) => x,
            None => DEFAULT_PLANET_SEED,
        },
    }
}

/// The planet seed the arguments select: the value after the first
/// `--seed` that has a value, or the default when there is none.
pub open spec fn spec_planet_seed_from_args(args: Seq<String>) -> u64 {
    match first_flag_pair(args, "--seed"@) {
        Some(k) => spec_seed_from_value(args[k + 1]@),
        None => DEFAULT_PLANET_SEED,
    }
}

/// `str` equality (`==`): equal exactly when the character sequences are.
#[verifier::external_body]
pub(crate) fn str_eq(a: &str, b: &str) -> (r: bool)
    ensures
        r == (a@ == b@),
{
    a == b
}

/// `str::trim_start_matches` with a string pattern: removes every leading
/// repetition of `pattern` (nothing when `pattern` is empty).
#[verifier::external_body]
fn str_trim_start_matches<'a>(s: &'a str, pattern: &str) -> (t: &'a str)
    ensures
        t@ == strip_prefixes(s@, pattern@),
{
    s.trim_start_matches(pattern)
}

/// The planet seed selected by the arguments (`--seed <value>`; the first
/// such pair counts), `DEFAULT_PLANET_SEED` otherwise.
pub fn planet_seed_from_args(args: &[String]) -> (seed: PlanetSeed)
    ensures
        seed.0 == spec_planet_seed_from_args(args@),
{
    let n = args.len();
    match find_flag_pair(args, "--seed") {
        Some(k) => {
            assert(first_flag_pair(args@, "--seed"@) == Some(k as int));
            assert(k + 1 < n);
            let value = args[k + 1].as_str();
            let hex = str_trim_start_matches(value, "0x");
            let parsed = match u64_from_str_radix(hex, 16) {
                Some(x) => x,
                None => match u64_from_str_radix(value, 10) {
                    Some(x) => x,
                    None => DEFAULT_PLANET_SEED,
                },
            };
            PlanetSeed(parsed)
        },
        None => PlanetSeed(DEFAULT_PLANET_SEED),
    }
}

/// Whether some argument is exactly `flag`.
pub fn has_flag(args: &[String], flag: &str) -> (b: bool)
    ensures
        b == exists|k: int| 0 <= k < args@.len() && #[trigger] args@[k]@ == flag@,
{
    let mut k: usize = 0;
    while k < args.len()
        invariant
            k <= args@.len(),
            forall|m: int| 0 <= m < k ==> #[trigger] args@[m]@ != flag@,
        decreases args@.len() - k,
    {
        if str_eq(args[k].as_str(), flag) {
            return true;
        }
        k = k + 1;
    }
    false
}

/// The planet preset the arguments select: `EarthScale` when some argument
/// is `--earth-scale`, otherwise the miniature planet (the default, also
/// named by `--miniature`).
pub fn planet_preset_from_args(args: &[String]) -> (preset: PlanetPreset)
    ensures
        (exists|k: int| 0 <= k < args@.len() && #[trigger] args@[k]@ == "--earth-scale"@)
            ==> preset == PlanetPreset::EarthScale,
        !(exists|k: int| 0 <= k < args@.len() && #[trigger] args@[k]@ == "--earth-scale"@)
            ==> preset == PlanetPreset::MiniatureDebug,
{
    if has_flag(args, "--earth-scale") {
        PlanetPreset::EarthScale
    } else {
        PlanetPreset::MiniatureDebug
    }
}

/// Unicode lower case of a text, as `str::to_lowercase` maps it.
pub uninterp spec fn unicode_lowercase(s: Seq<char>) -> Seq<char>;

/// `str::to_lowercase`: the text in lower case. Its result depends on the
/// text alone and is named `unicode_lowercase`; Unicode's case tables are
/// not restated.
#[verifier::external_body]
fn str_to_lowercase(s: &str) -> (lower: String)
    ensures
        lower@ == unicode_lowercase(s@),
{
    s.to_lowercase()
}

/// Index of the first argument that is exactly `flag`.
pub open spec fn first_flag_index(args: Seq<String>, flag: Seq<char>, k: int) -> bool {
    0 <= k < args.len() && args[k]@ == flag && forall|m: int| 0 <= m < k ==> args[m]@ != flag
}

/// The hardware profile for a run with adapter description `gpu_description`:
/// the argument after the first `--hardware-profile` (none if it is the last
/// argument); without that flag, `rtx3060_optimus` for an NVIDIA adapter
/// (its lower-cased description mentions `nvidia`) and none otherwise.
pub open spec fn spec_hardware_profile(args: Seq<String>, gpu_description: Seq<char>) -> Option<Seq<char>> {
    let flag = "--hardware-profile"@;
    if exists|k: int| first_flag_index(args, flag, k) {
        let k = choose|k: int| first_flag_index(args, flag, k);
        if k + 1 < args.len() { Some(args[k + 1]@) } else { None }
    } else if contains_seq(unicode_lowercase(gpu_description), seq!['n', 'v', 'i', 'd', 'i', 'a']) {
        Some("rtx3060_optimus"@)
    } else {
        None
    }
}

/// The hardware profile named on the command line, or guessed from the GPU
/// adapter description (see `spec_hardware_profile`).
pub fn hardware_profile_for(args: &[String], gpu_description: &str) -> (profile: Option<String>)
    ensures
        match spec_hardware_profile(args@, gpu_description@) {
            Some(p) => profile matches Some(q) && q@ == p,
            None => profile is None,
        },
{
    let mut k: usize = 0;
    while k < args.len()
        invariant
            k <= args@.len(),
            forall|m: int| 0 <= m < k ==> #[trigger] args@[m]@ != "--hardware-profile"@,
        decreases args@.len() - k,
    {
        if str_eq(args[k].as_str(), "--hardware-profile") {
            proof {
                assert(first_flag_index(args@, "--hardware-profile"@, k as int));
                let c = choose|c: int| first_flag_index(args@, "--hardware-profile"@, c);
                if c < k {
                } else if c > k {
                    assert(args@[k as int]@ == "--hardware-profile"@);
                }
            }
            if k + 1 < args.len() {
                return Some(args[k + 1].clone());
            }
            return None;
        }
        k = k + 1;
    }
    let lower = str_to_lowercase(gpu_description);
    let cs = chars_of(lower.as_str());
    let nvidia: [char; 6] = ['n', 'v', 'i', 'd', 'i', 'a'];
    assert(nvidia@ =~= seq!['n', 'v', 'i', 'd', 'i', 'a']);
    assert(cs@.subrange(0, cs@.len() as int) =~= cs@);
    if contains_range(cs.as_slice(), 0, cs.len(), &nvidia) {
        proof {
            reveal_strlit("rtx3060_optimus");
        }
        Some(String::from_str("rtx3060_optimus"))
    } else {
        None
    }
}

/// Local port of the terrain model sidecar unless the command line names one.
pub const DEFAULT_DIFFUSION_PORT: u16 = 8000;

/// How learned terrain streaming is started: the sidecar's local port and
/// the API upsampling factor.
#[derive(Clone, Copy, Debug, PartialEq, Eq, Structural)]
pub struct DiffusionLaunch {
    pub port: u16,
    pub api_scale: u8,
}

/// The value after the first `flag` that has one, read as an unsigned
/// decimal no greater than `max`; `default` when there is no such flag or
/// its value does not parse.
pub open spec fn flag_number(args: Seq<String>, flag: Seq<char>, max: u64, default: u64) -> u64 {
    match first_flag_pair(args, flag) {
        Some(k) => match spec_parse_decimal(args[k + 1]@, max) {
            Some(x) => x,
            None => default,
        },
        None => default,
    }
}

/// Learned terrain streaming is requested by `--terrain-diffusion`, and is
/// implied by `--learned-stress` and `--m5-test`; it stays off when
/// `disabled` (benchmark and screenshot runs). The port comes from
/// `--terrain-diffusion-port` (default 8000); the API scale from
/// `--terrain-diffusion-scale` (default 1, and 0 falls back to 1).
pub open spec fn spec_diffusion_launch(args: Seq<String>, disabled: bool) -> Option<DiffusionLaunch> {
    let requested = exists|k: int| 0 <= k < args.len() && (#[trigger] args[k]@ == "--terrain-diffusion"@
        || args[k]@ == "--learned-stress"@ || args[k]@ == "--m5-test"@);
    if !requested || disabled {
        None
    } else {
        let scale = flag_number(args, "--terrain-diffusion-scale"@, 0xff, API_SCALE as u64);
        Some(DiffusionLaunch {
            port: flag_number(args, "--terrain-diffusion-port"@, 0xffff, DEFAULT_DIFFUSION_PORT as u64) as u16,
            api_scale: if scale == 0 { 1 } else { scale as u8 },
        })
    }
}

/// The value after the first `flag` that has one, as a bounded decimal.
#[verifier::rlimit(40)]
fn flag_number_from_args(args: &[String], flag: &str, max: u64, default: u64) -> (n: u64)
    ensures
        n == flag_number(args@, flag@, max, default),
{
    let n = args.len();
    match find_flag_pair(args, flag) {
        Some(k) => {
            assert(first_flag_pair(args@, flag@) == Some(k as int));
            assert(k + 1 < n);
            let value = args[k + 1].as_str();
            let cs = chars_of(value);
            let ghost v = args@[k + 1]@;
            assert(cs@ == v);
            assert(cs@.subrange(0, cs@.len() as int) =~= cs@);
            let parsed = parse_decimal(cs.as_slice(), 0, cs.len(), max);
            assert(parsed == spec_parse_decimal(v, max));
            match parsed {
                Some(x) => x,
                None => default,
            }
        },
        None => default,
    }
}

/// Whether and how learned terrain streaming starts (see
/// `spec_diffusion_launch`).
pub fn diffusion_launch_from_args(args: &[String], disabled: bool) -> (launch: Option<DiffusionLaunch>)
    ensures
        launch == spec_diffusion_launch(args@, disabled),
{
    let requested = has_flag(args, "--terrain-diffusion") || has_flag(args, "--learned-stress")
        || has_flag(args, "--m5-test");
    proof {
        let spec_requested = exists|k: int| 0 <= k < args@.len() && (#[trigger] args@[k]@ == "--terrain-diffusion"@
            || args@[k]@ == "--learned-stress"@ || args@[k]@ == "--m5-test"@);
        if spec_requested {
            let k = choose|k: int| 0 <= k < args@.len() && (#[trigger] args@[k]@ == "--terrain-diffusion"@
                || args@[k]@ == "--learned-stress"@ || args@[k]@ == "--m5-test"@);
            assert(args@[k]@ == args@[k]@);
        }
        assert(requested == spec_requested);
    }
    if !requested || disabled {
        return None;
    }
    let port = flag_number_from_args(args, "--terrain-diffusion-port", 0xffff, DEFAULT_DIFFUSION_PORT as u64);
    let scale = flag_number_from_args(args, "--terrain-diffusion-scale", 0xff, API_SCALE as u64);
    Some(DiffusionLaunch { port: port as u16, api_scale: if scale == 0 { 1 } else { scale as u8 } })
}

} // verus!
