//! Graphics settings and their `key=value` settings file: present mode
//! (vsync), MSAA sample count and fullscreen.

use vstd::prelude::*;
use crate::cli::spec_trim;
use crate::text::{
    chars_of, decimal_string, eq_range, find_char, is_first_of, lemma_decimal_digits,
    lemma_first_of_unique, lemma_lines_unfold, lemma_parse_decimal_roundtrip, lemma_trim_identity,
    next_line, parse_decimal, spec_decimal, spec_lines, spec_parse_decimal, spec_split_once, trim_range,
};

verus! {

/// The persisted graphics settings.
#[derive(Clone, Copy, Debug, PartialEq, Eq, Structural)]
pub struct GraphicsSettings {
    pub vsync: bool,
    pub msaa: u32,
    pub fullscreen: bool,
}

/// Settings used when the file is missing or silent: no vsync, 4x MSAA,
/// windowed.
pub open spec fn default_settings() -> GraphicsSettings {
    GraphicsSettings { vsync: false, msaa: 4, fullscreen: false }
}

impl Default for GraphicsSettings {
    fn default() -> (s: Self)
        ensures
            s == default_settings(),
    {
        GraphicsSettings { vsync: false, msaa: 4, fullscreen: false }
    }
}

/// Key of the vsync setting.
pub open spec fn vsync_key() -> Seq<char> {
    seq!['v', 's', 'y', 'n', 'c']
}

/// Key of the MSAA setting.
pub open spec fn msaa_key() -> Seq<char> {
    seq!['m', 's', 'a', 'a']
}

/// Key of the fullscreen setting.
pub open spec fn fullscreen_key() -> Seq<char> {
    seq!['f', 'u', 'l', 'l', 's', 'c', 'r', 'e', 'e', 'n']
}

/// The flag text `1` (anything else reads as off).
pub open spec fn on_flag() -> Seq<char> {
    seq!['1']
}

/// The effect of one settings-file line `key=value` (both trimmed): a known
/// key sets its setting (a flag is on exactly when its value is `1`; an MSAA
/// value that does not parse as `u32` is ignored); anything else is ignored.
pub open spec fn apply_setting_line(s: GraphicsSettings, line: Seq<char>) -> GraphicsSettings {
    match spec_split_once(line, '=') {
        Some((k, v)) => {
            let key = spec_trim(k);
            let value = spec_trim(v);
            if key == vsync_key() {
                GraphicsSettings { vsync: value == on_flag(), ..s }
            } else if key == msaa_key() {
                match spec_parse_decimal(value, u32::MAX as u64) {
                    Some(x) => GraphicsSettings { msaa: x as u32, ..s },
                    None => s,
                }
            } else if key == fullscreen_key() {
                GraphicsSettings { fullscreen: value == on_flag(), ..s }
            } else {
                s
            }
        },
        None => s,
    }
}

/// The settings after applying `lines` in order to `s`.
pub open spec fn apply_setting_lines(s: GraphicsSettings, lines: Seq<Seq<char>>) -> GraphicsSettings
    decreases lines.len(),
{
    if lines.len() == 0 {
        s
    } else {
        apply_setting_lines(apply_setting_line(s, lines[0]), lines.drop_first())
    }
}

/// Reads a settings file: the defaults, changed by each of its lines in
/// order (a later line for the same key wins).
pub fn parse_settings(text: &str) -> (s: GraphicsSettings)
    ensures
        s == apply_setting_lines(default_settings(), spec_lines(text@)),
{
    let vsync: [char; 5] = ['v', 's', 'y', 'n', 'c'];
    let msaa: [char; 4] = ['m', 's', 'a', 'a'];
    let fullscreen: [char; 10] = ['f', 'u', 'l', 'l', 's', 'c', 'r', 'e', 'e', 'n'];
    let on: [char; 1] = ['1'];
    assert(vsync@ =~= vsync_key());
    assert(msaa@ =~= msaa_key());
    assert(fullscreen@ =~= fullscreen_key());
    assert(on@ =~= on_flag());
    let cs = chars_of(text);
    let n = cs.len();
    let mut s = GraphicsSettings { vsync: false, msaa: 4, fullscreen: false };
    let mut pos: usize = 0;
    assert(cs@.subrange(0, n as int) =~= cs@);
    while pos < n
        invariant
            pos <= n == cs@.len(),
            cs@ == text@,
            vsync@ == vsync_key(),
            msaa@ == msaa_key(),
            fullscreen@ == fullscreen_key(),
            on@ == on_flag(),
            apply_setting_lines(s, spec_lines(cs@.subrange(pos as int, n as int)))
                == apply_setting_lines(default_settings(), spec_lines(text@)),
        decreases n - pos,
    {
        let ghost rem = cs@.subrange(pos as int, n as int);
        let ghost before = s;
        let (a, e, next) = next_line(cs.as_slice(), pos, n);
        let ghost line = cs@.subrange(a as int, e as int);
        proof {
            lemma_lines_unfold(rem);
            assert(spec_lines(rem).drop_first() =~= spec_lines(cs@.subrange(next as int, n as int)));
        }
        let eq = find_char(cs.as_slice(), a, e, '=');
        if eq < e {
            proof {
                assert(line.take(eq - a) =~= cs@.subrange(a as int, eq as int));
                assert(line.skip(eq - a + 1) =~= cs@.subrange(eq + 1, e as int));
            }
            let (ka, kb) = trim_range(cs.as_slice(), a, eq);
            let (va, vb) = trim_range(cs.as_slice(), eq + 1, e);
            if eq_range(cs.as_slice(), ka, kb, &vsync) {
                s.vsync = eq_range(cs.as_slice(), va, vb, &on);
            } else if eq_range(cs.as_slice(), ka, kb, &msaa) {
                match parse_decimal(cs.as_slice(), va, vb, 0xffff_ffff) {
                    Some(x) => {
                        s.msaa = x as u32;
                    },
                    None => {},
                }
            } else if eq_range(cs.as_slice(), ka, kb, &fullscreen) {
                s.fullscreen = eq_range(cs.as_slice(), va, vb, &on);
            }
        }
        assert(s == apply_setting_line(before, line));
        pos = next;
    }
    assert(spec_lines(cs@.subrange(n as int, n as int)) =~= Seq::<Seq<char>>::empty());
    s
}

/// Text of a flag: `1` when on, `0` when off.
pub open spec fn flag_text(b: bool) -> Seq<char> {
    if b { seq!['1'] } else { seq!['0'] }
}

/// The settings file for `s`: `vsync=`, `msaa=` and `fullscreen=` lines,
/// flags as `0`/`1` and the sample count in decimal.
pub open spec fn spec_settings_text(s: GraphicsSettings) -> Seq<char> {
    vsync_key() + seq!['='] + flag_text(s.vsync) + seq!['\n']
        + msaa_key() + seq!['='] + spec_decimal(s.msaa as nat) + seq!['\n']
        + fullscreen_key() + seq!['='] + flag_text(s.fullscreen) + seq!['\n']
}

/// The settings file text for `s`.
pub fn settings_text(s: &GraphicsSettings) -> (text: String)
    ensures
        text@ == spec_settings_text(*s),
{
    proof {
        reveal_strlit("vsync=");
        reveal_strlit("\nmsaa=");
        reveal_strlit("\nfullscreen=");
        reveal_strlit("\n");
        reveal_strlit("0");
        reveal_strlit("1");
    }
    let mut text = String::from_str("vsync=");
    text.append(if s.vsync { "1" } else { "0" });
    text.append("\nmsaa=");
    let msaa = decimal_string(s.msaa as u64);
    text.append(msaa.as_str());
    text.append("\nfullscreen=");
    text.append(if s.fullscreen { "1" } else { "0" });
    text.append("\n");
    assert(text@ =~= spec_settings_text(*s));
    text
}

/// A line without `\n` that does not end in `\r`, followed by `\n`, is the
/// first line.
proof fn lemma_lines_of_line(l: Seq<char>, rest: Seq<char>)
    requires
        forall|k: int| 0 <= k < l.len() ==> l[k] != '\n',
        l.len() > 0 ==> l.last() != '\r',
    ensures
        spec_lines(l + seq!['\n'] + rest) == seq![l] + spec_lines(rest),
{
    let t = l + seq!['\n'] + rest;
    assert(is_first_of(t, '\n', l.len() as int));
    lemma_first_of_unique(t, '\n', l.len() as int);
    assert(t.take(l.len() as int) =~= l);
    assert(t.skip(l.len() as int + 1) =~= rest);
    lemma_lines_unfold(t);
}

/// The line `key=value` (the key free of `=`, both already trimmed) is
/// split into exactly that key and value.
proof fn lemma_split_setting(key: Seq<char>, value: Seq<char>)
    requires
        forall|k: int| 0 <= k < key.len() ==> key[k] != '=',
    ensures
        spec_split_once(key + seq!['='] + value, '=') == Some((key, value)),
{
    let line = key + seq!['='] + value;
    assert(is_first_of(line, '=', key.len() as int));
    lemma_first_of_unique(line, '=', key.len() as int);
    assert(line.take(key.len() as int) =~= key);
    assert(line.skip(key.len() as int + 1) =~= value);
}

/// Saved settings load back unchanged: reading the text written for `s`
/// gives `s`.
pub proof fn lemma_settings_roundtrip(s: GraphicsSettings)
    ensures
        apply_setting_lines(default_settings(), spec_lines(spec_settings_text(s))) == s,
{
    let l1 = vsync_key() + seq!['='] + flag_text(s.vsync);
    let l2 = msaa_key() + seq!['='] + spec_decimal(s.msaa as nat);
    let l3 = fullscreen_key() + seq!['='] + flag_text(s.fullscreen);
    let nl = seq!['\n'];
    lemma_decimal_digits(s.msaa as nat);
    lemma_parse_decimal_roundtrip(s.msaa as u64, u32::MAX as u64);
    let dec = spec_decimal(s.msaa as nat);
    assert forall|k: int| 0 <= k < l2.len() implies l2[k] != '\n' by {
        if k >= 5 {
            assert(l2[k] == dec[k - 5]);
            assert(48 <= (dec[k - 5] as u32) <= 57);
        }
    }
    assert(l2.last() == dec.last());
    assert(48 <= (dec[dec.len() - 1] as u32) <= 57);
    assert(spec_settings_text(s) =~= l1 + nl + (l2 + nl + (l3 + nl + Seq::empty())));
    lemma_lines_of_line(l3, Seq::empty());
    lemma_lines_of_line(l2, l3 + nl + Seq::empty());
    lemma_lines_of_line(l1, l2 + nl + (l3 + nl + Seq::empty()));
    assert(spec_lines(Seq::<char>::empty()) =~= Seq::<Seq<char>>::empty());
    let lines = spec_lines(spec_settings_text(s));
    assert(lines =~= seq![l1, l2, l3]);
    lemma_split_setting(vsync_key(), flag_text(s.vsync));
    lemma_split_setting(msaa_key(), dec);
    lemma_split_setting(fullscreen_key(), flag_text(s.fullscreen));
    lemma_trim_identity(vsync_key());
    lemma_trim_identity(msaa_key());
    lemma_trim_identity(fullscreen_key());
    lemma_trim_identity(flag_text(s.vsync));
    lemma_trim_identity(flag_text(s.fullscreen));
    let s1 = apply_setting_line(default_settings(), l1);
    assert(s1.vsync == s.vsync);
    let s2 = apply_setting_line(s1, l2);
    assert(msaa_key() != vsync_key()) by {
        assert(msaa_key().len() != vsync_key().len());
    }
    assert(s2.vsync == s.vsync && s2.msaa == s.msaa);
    let s3 = apply_setting_line(s2, l3);
    assert(fullscreen_key() != vsync_key()) by {
        assert(fullscreen_key().len() != vsync_key().len());
    }
    assert(fullscreen_key() != msaa_key()) by {
        assert(fullscreen_key().len() != msaa_key().len());
    }
    assert(s3 == s);
    assert(lines.drop_first() =~= seq![l2, l3]);
    assert(seq![l2, l3].drop_first() =~= seq![l3]);
    assert(seq![l3].drop_first() =~= Seq::<Seq<char>>::empty());
    assert(apply_setting_lines(s3, Seq::<Seq<char>>::empty()) == s3);
    assert(apply_setting_lines(s2, seq![l3]) == s3);
    assert(apply_setting_lines(s1, seq![l2, l3]) == s3);
    assert(apply_setting_lines(default_settings(), lines) == s3);
}

} // verus!
