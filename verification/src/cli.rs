//! Command-line seed values: decimal by default, hexadecimal with a `0x` or
//! `0X` prefix, surrounding whitespace ignored.

use vstd::prelude::*;
use crate::text::{lemma_decimal_digits, spec_decimal};

verus! {

/// Unicode `White_Space` characters (what `char::is_whitespace` accepts).
pub open spec fn is_unicode_whitespace(c: char) -> bool {
    let x = c as u32;
    ||| 0x09 <= x <= 0x0D
    ||| x == 0x20
    ||| x == 0x85
    ||| x == 0xA0
    ||| x == 0x1680
    ||| 0x2000 <= x <= 0x200A
    ||| x == 0x2028
    ||| x == 0x2029
    ||| x == 0x202F
    ||| x == 0x205F
    ||| x == 0x3000
}

/// `s` without its leading whitespace.
pub open spec fn trim_start(s: Seq<char>) -> Seq<char>
    decreases s.len(),
{
    if s.len() > 0 && is_unicode_whitespace(s[0]) {
        trim_start(s.drop_first())
    } else {
        s
    }
}

/// `s` without its trailing whitespace.
pub open spec fn trim_end(s: Seq<char>) -> Seq<char>
    decreases s.len(),
{
    if s.len() > 0 && is_unicode_whitespace(s.last()) {
        trim_end(s.drop_last())
    } else {
        s
    }
}

/// `s` without leading and trailing whitespace.
pub open spec fn spec_trim(s: Seq<char>) -> Seq<char> {
    trim_end(trim_start(s))
}

/// Value of a digit character in `radix` (`0-9`, then `a-z` / `A-Z` from
/// ten), if it is a digit of that radix.
pub open spec fn digit_value(c: char, radix: u32) -> Option<nat> {
    let x = c as u32;
    let v: int = if '0' as u32 <= x <= '9' as u32 {
        x - '0' as u32
    } else if 'a' as u32 <= x <= 'z' as u32 {
        x - 'a' as u32 + 10
    } else if 'A' as u32 <= x <= 'Z' as u32 {
        x - 'A' as u32 + 10
    } else {
        radix as int
    };
    if v < radix { Some(v as nat) } else { None }
}

/// Whether every character of `d` is a digit of `radix`.
pub open spec fn all_digits(d: Seq<char>, radix: u32) -> bool {
    forall|k: int| 0 <= k < d.len() ==> (#[trigger] digit_value(d[k], radix)) is Some
}

/// The number written by the digits `d` in `radix` (most significant first).
pub open spec fn digits_value(d: Seq<char>, radix: u32) -> nat
    decreases d.len(),
{
    if d.len() == 0 {
        0
    } else {
        (digits_value(d.drop_last(), radix) * radix + digit_value(d.last(), radix)->Some_0) as nat
    }
}

/// What `u64::from_str_radix` accepts: an optional `+` followed by one or
/// more digits of `radix` whose value fits in a `u64`.
pub open spec fn spec_from_str_radix(s: Seq<char>, radix: u32) -> Option<u64> {
    let digits = if s.len() > 0 && s[0] == '+' { s.drop_first() } else { s };
    if digits.len() == 0 || !all_digits(digits, radix) {
        None
    } else if digits_value(digits, radix) > u64::MAX {
        None
    } else {
        Some(digits_value(digits, radix) as u64)
    }
}

/// Whether `s` starts with a hexadecimal marker `0x` or `0X`.
pub open spec fn has_hex_prefix(s: Seq<char>) -> bool {
    s.len() >= 2 && s[0] == '0' && (s[1] == 'x' || s[1] == 'X')
}

/// The seed a command-line value denotes, if any: after trimming
/// whitespace, a `0x`/`0X` prefix selects hexadecimal (and must be followed
/// by digits); otherwise the value is decimal.
pub open spec fn spec_parse_seed_value(value: Seq<char>) -> Option<u64> {
    let t = spec_trim(value);
    if has_hex_prefix(t) {
        let hex = t.skip(2);
        if hex.len() == 0 {
            None
        } else {
            spec_from_str_radix(hex, 16)
        }
    } else {
        spec_from_str_radix(t, 10)
    }
}

/// `str::trim`: the string with leading and trailing Unicode white space
/// removed. The contract restates the documented behaviour over
/// `is_unicode_whitespace`.
#[verifier::external_body]
fn str_trim(s: &str) -> (t: &str)
    ensures
        t@ == spec_trim(s@),
{
    s.trim()
}

/// `str::strip_prefix` with a string pattern: the rest of `s` after
/// `prefix` when `s` starts with it, otherwise `None`.
#[verifier::external_body]
fn str_strip_prefix<'a>(s: &'a str, prefix: &str) -> (rest: Option<&'a str>)
    ensures
        rest is Some <==> (prefix@.len() <= s@.len() && s@.take(prefix@.len() as int) == prefix@),
        rest matches Some(r) ==> r@ == s@.skip(prefix@.len() as int),
{
    s.strip_prefix(prefix)
}

/// `u64::from_str_radix`, with its error mapped to `None`: accepts an
/// optional `+` and at least one digit of `radix`, rejecting values above
/// `u64::MAX`. `radix` must lie in `2..=36` (it panics otherwise).
#[verifier::external_body]
pub(crate) fn u64_from_str_radix(s: &str, radix: u32) -> (r: Option<u64>)
    requires
        2 <= radix <= 36,
    ensures
        r == spec_from_str_radix(s@, radix),
{
    u64::from_str_radix(s, radix).ok()
}

/// Parses a seed value: decimal by default, hexadecimal after `0x`/`0X`,
/// ignoring surrounding whitespace. `None` for anything else.
pub fn parse_seed_value(value: &str) -> (seed: Option<u64>)
    ensures
        seed == spec_parse_seed_value(value@),
{
    let value = str_trim(value);
    let hex = match str_strip_prefix(value, "0x") {
        Some(rest) => Some(rest),
        None => str_strip_prefix(value, "0X"),
    };
    proof {
        reveal_strlit("0x");
        reveal_strlit("0X");
        let t = value@;
        assert("0x"@ =~= seq!['0', 'x']);
        assert("0X"@ =~= seq!['0', 'X']);
        if t.len() >= 2 {
            assert(t.take(2) =~= seq![t[0], t[1]]);
        }
        assert(hex is Some <==> has_hex_prefix(t));
        if hex is Some {
            assert(hex->Some_0@ == t.skip(2));
        }
    }
    match hex {
        Some(hex) => {
            if hex.is_empty() {
                return None;
            }
            u64_from_str_radix(hex, 16)
        },
        None => u64_from_str_radix(value, 10),
    }
}

/// Whether every character of `w` is white space.
pub open spec fn all_whitespace(w: Seq<char>) -> bool {
    forall|k: int| 0 <= k < w.len() ==> is_unicode_whitespace(#[trigger] w[k])
}

/// The hexadecimal digit character for `d < 16`: `0-9`, then `a-f`, or
/// `A-F` when `upper`.
pub open spec fn hex_digit_char(d: nat, upper: bool) -> char {
    if d < 10 {
        (d + 48) as char
    } else if upper {
        (d + 55) as char
    } else {
        (d + 87) as char
    }
}

/// `n` written in hexadecimal, most significant digit first, without
/// leading zeros (what `{:x}`, or `{:X}` when `upper`, prints).
pub open spec fn spec_hex(n: nat, upper: bool) -> Seq<char>
    decreases n,
{
    if n < 16 {
        seq![hex_digit_char(n, upper)]
    } else {
        spec_hex(n / 16, upper) + seq![hex_digit_char(n % 16, upper)]
    }
}

/// A hexadecimal rendering is made of hexadecimal digits, reads back as the
/// number, and neither starts nor ends with white space or a `+`.
proof fn lemma_hex_digits(n: nat, upper: bool)
    ensures
        spec_hex(n, upper).len() > 0,
        all_digits(spec_hex(n, upper), 16),
        digits_value(spec_hex(n, upper), 16) == n,
        spec_hex(n, upper)[0] != '+',
        !is_unicode_whitespace(spec_hex(n, upper)[0]),
        !is_unicode_whitespace(spec_hex(n, upper).last()),
    decreases n,
{
    let s = spec_hex(n, upper);
    let d = n % 16;
    let c = hex_digit_char(d, upper);
    assert(d < 10 ==> (c as u32) == d + 48);
    assert(d >= 10 && upper ==> (c as u32) == d + 55);
    assert(d >= 10 && !upper ==> (c as u32) == d + 87);
    assert(digit_value(c, 16) == Some(d));
    assert(!is_unicode_whitespace(c));
    assert(s.last() == c);
    if n >= 16 {
        lemma_hex_digits(n / 16, upper);
        let p = spec_hex(n / 16, upper);
        assert(s.drop_last() =~= p);
        assert(s[0] == p[0]);
        assert forall|k: int| 0 <= k < s.len() implies (#[trigger] digit_value(s[k], 16)) is Some by {
            if k < p.len() {
                assert(s[k] == p[k]);
                assert(digit_value(p[k], 16) is Some);
            }
        }
        assert(digits_value(s, 16) == digits_value(p, 16) * 16 + d);
    } else {
        assert(s.drop_last() =~= Seq::<char>::empty());
        assert(digits_value(Seq::<char>::empty(), 16) == 0);
        assert forall|k: int| 0 <= k < s.len() implies (#[trigger] digit_value(s[k], 16)) is Some by {
            assert(k == 0);
        }
    }
}

/// Leading white space is dropped by `trim_start`.
proof fn lemma_trim_start_whitespace(w: Seq<char>, s: Seq<char>)
    requires
        all_whitespace(w),
        s.len() > 0,
        !is_unicode_whitespace(s[0]),
    ensures
        trim_start(w + s) == s,
    decreases w.len(),
{
    if w.len() > 0 {
        assert(is_unicode_whitespace(w[0]));
        assert((w + s)[0] == w[0]);
        assert((w + s).drop_first() =~= w.drop_first() + s);
        assert forall|k: int| 0 <= k < w.drop_first().len() implies is_unicode_whitespace(#[trigger] w.drop_first()[k]) by {
            assert(w.drop_first()[k] == w[k + 1]);
        }
        lemma_trim_start_whitespace(w.drop_first(), s);
    } else {
        assert(w + s =~= s);
    }
}

/// Trailing white space is dropped by `trim_end`.
proof fn lemma_trim_end_whitespace(s: Seq<char>, w: Seq<char>)
    requires
        all_whitespace(w),
        s.len() > 0,
        !is_unicode_whitespace(s.last()),
    ensures
        trim_end(s + w) == s,
    decreases w.len(),
{
    if w.len() > 0 {
        assert(is_unicode_whitespace(w.last()));
        assert((s + w).last() == w.last());
        assert((s + w).drop_last() =~= s + w.drop_last());
        assert forall|k: int| 0 <= k < w.drop_last().len() implies is_unicode_whitespace(#[trigger] w.drop_last()[k]) by {
            assert(w.drop_last()[k] == w[k]);
        }
        lemma_trim_end_whitespace(s, w.drop_last());
    } else {
        assert(s + w =~= s);
    }
}

/// White space around text that neither starts nor ends with white space
/// is exactly what `spec_trim` removes.
proof fn lemma_trim_surrounded(w1: Seq<char>, s: Seq<char>, w2: Seq<char>)
    requires
        all_whitespace(w1),
        all_whitespace(w2),
        s.len() > 0,
        !is_unicode_whitespace(s[0]),
        !is_unicode_whitespace(s.last()),
    ensures
        spec_trim(w1 + s + w2) == s,
{
    assert(w1 + s + w2 =~= w1 + (s + w2));
    assert((s + w2)[0] == s[0]);
    lemma_trim_start_whitespace(w1, s + w2);
    lemma_trim_end_whitespace(s, w2);
}

/// Seed values read back: a `u64` written in decimal, or in hexadecimal
/// after `0x` (lowercase digits) or `0X` (uppercase digits), with any white
/// space before and after, parses to that number; a number above
/// `u64::MAX`, written either way, parses to nothing.
pub proof fn lemma_seed_value_roundtrip(x: u64, w1: Seq<char>, w2: Seq<char>, big: nat)
    requires
        all_whitespace(w1),
        all_whitespace(w2),
        big > u64::MAX,
    ensures
        spec_parse_seed_value(w1 + spec_decimal(x as nat) + w2) == Some(x),
        spec_parse_seed_value(w1 + ("0x"@ + spec_hex(x as nat, false)) + w2) == Some(x),
        spec_parse_seed_value(w1 + ("0X"@ + spec_hex(x as nat, true)) + w2) == Some(x),
        spec_parse_seed_value(w1 + spec_decimal(big) + w2) is None,
        spec_parse_seed_value(w1 + ("0x"@ + spec_hex(big, false)) + w2) is None,
        spec_parse_seed_value(w1 + ("0X"@ + spec_hex(big, true)) + w2) is None,
{
    reveal_strlit("0x");
    reveal_strlit("0X");
    let dec = spec_decimal(x as nat);
    lemma_decimal_digits(x as nat);
    lemma_trim_surrounded(w1, dec, w2);
    assert(dec.len() >= 2 ==> (dec[1] as u32) <= 57);
    assert(!has_hex_prefix(dec));
    lemma_hex_digits(x as nat, false);
    lemma_hex_digits(x as nat, true);
    let lo = "0x"@ + spec_hex(x as nat, false);
    let hi = "0X"@ + spec_hex(x as nat, true);
    assert(lo[0] == '0' && lo[1] == 'x');
    assert(hi[0] == '0' && hi[1] == 'X');
    assert(lo.last() == spec_hex(x as nat, false).last());
    assert(hi.last() == spec_hex(x as nat, true).last());
    lemma_trim_surrounded(w1, lo, w2);
    lemma_trim_surrounded(w1, hi, w2);
    assert(lo.skip(2) =~= spec_hex(x as nat, false));
    assert(hi.skip(2) =~= spec_hex(x as nat, true));
    let bd = spec_decimal(big);
    lemma_decimal_digits(big);
    lemma_trim_surrounded(w1, bd, w2);
    assert(bd.len() >= 2 ==> (bd[1] as u32) <= 57);
    assert(!has_hex_prefix(bd));
    lemma_hex_digits(big, false);
    lemma_hex_digits(big, true);
    let blo = "0x"@ + spec_hex(big, false);
    let bhi = "0X"@ + spec_hex(big, true);
    assert(blo[0] == '0' && blo[1] == 'x');
    assert(bhi[0] == '0' && bhi[1] == 'X');
    assert(blo.last() == spec_hex(big, false).last());
    assert(bhi.last() == spec_hex(big, true).last());
    lemma_trim_surrounded(w1, blo, w2);
    lemma_trim_surrounded(w1, bhi, w2);
    assert(blo.skip(2) =~= spec_hex(big, false));
    assert(bhi.skip(2) =~= spec_hex(big, true));
}

} // verus!
