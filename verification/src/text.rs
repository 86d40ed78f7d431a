//! Line-oriented text reading shared by the settings file and the terrain
//! response headers: characters, lines, trimming, `key<sep>value` splitting,
//! ASCII case-insensitive names and bounded decimal fields. Everything works
//! on a character buffer and half-open index ranges into it.

use vstd::prelude::*;
use crate::cli::{all_digits, digit_value, digits_value, is_unicode_whitespace, spec_trim, trim_end, trim_start};

verus! {

/// The characters of `s`, in order.
pub fn chars_of(s: &str) -> (v: Vec<char>)
    ensures
        v@ == s@,
{
    let mut v: Vec<char> = Vec::new();
    for c in it: s.chars()
        invariant
            v@ == it.seq().take(it.index() as int),
    {
        v.push(c);
    }
    v
}

/// `p` is the index of the first `c` in `s`, or `s.len()` when there is none.
pub open spec fn is_first_of(s: Seq<char>, c: char, p: int) -> bool {
    &&& 0 <= p <= s.len()
    &&& p < s.len() ==> s[p] == c
    &&& forall|q: int| 0 <= q < p ==> s[q] != c
}

/// Index of the first `c` in `s`, or `s.len()` when `c` does not occur.
pub open spec fn first_of(s: Seq<char>, c: char) -> int {
    choose|p: int| is_first_of(s, c, p)
}

/// The first line of `s` (up to the first `\n`, without it and without a
/// `\r` just before it), as `str::lines` yields it.
pub open spec fn first_line(s: Seq<char>) -> Seq<char> {
    let p = first_of(s, '\n');
    let line = s.take(p);
    if p < s.len() && line.len() > 0 && line.last() == '\r' {
        line.drop_last()
    } else {
        line
    }
}

/// What follows the first line of `s` and its `\n`.
pub open spec fn after_first_line(s: Seq<char>) -> Seq<char> {
    let p = first_of(s, '\n');
    if 0 <= p < s.len() {
        s.skip(p + 1)
    } else {
        Seq::empty()
    }
}

/// The lines of `s` as `str::lines` yields them: split at `\n`, one `\r`
/// before a `\n` dropped, no final empty line after a trailing `\n`.
pub open spec fn spec_lines(s: Seq<char>) -> Seq<Seq<char>>
    decreases s.len(),
{
    if s.len() == 0 {
        Seq::empty()
    } else {
        seq![first_line(s)] + spec_lines(after_first_line(s))
    }
}

/// `str::split_once` with a character separator: the text before the first
/// `sep` and the text after it, or `None` when `sep` does not occur.
pub open spec fn spec_split_once(s: Seq<char>, sep: char) -> Option<(Seq<char>, Seq<char>)> {
    let p = first_of(s, sep);
    if 0 <= p < s.len() {
        Some((s.take(p), s.skip(p + 1)))
    } else {
        None
    }
}

/// Code point of the ASCII lower case of `c` (other characters unchanged).
pub open spec fn ascii_lower(c: char) -> u32 {
    if 'A' <= c <= 'Z' {
        (c as u32 + 32) as u32
    } else {
        c as u32
    }
}

/// ASCII case-insensitive equality (what `str::eq_ignore_ascii_case`
/// decides against an ASCII name).
pub open spec fn eq_ignore_ascii_case(a: Seq<char>, b: Seq<char>) -> bool {
    &&& a.len() == b.len()
    &&& forall|k: int| 0 <= k < a.len() ==> ascii_lower(#[trigger] a[k]) == ascii_lower(b[k])
}

/// Whether `pat` occurs in `s` as a contiguous run.
pub open spec fn contains_seq(s: Seq<char>, pat: Seq<char>) -> bool {
    exists|k: int| 0 <= k && k + pat.len() <= s.len() && #[trigger] s.subrange(k, k + pat.len()) == pat
}

/// What `str::parse` accepts for an unsigned integer type whose maximum is
/// `max`: an optional `+` and one or more decimal digits whose value is at
/// most `max`.
pub open spec fn spec_parse_decimal(s: Seq<char>, max: u64) -> Option<u64> {
    let digits = if s.len() > 0 && s[0] == '+' { s.drop_first() } else { s };
    if digits.len() == 0 || !all_digits(digits, 10) || digits_value(digits, 10) > max {
        None
    } else {
        Some(digits_value(digits, 10) as u64)
    }
}

/// A witness of `is_first_of` is the one `first_of` picks.
pub proof fn lemma_first_of_unique(s: Seq<char>, c: char, p: int)
    requires
        is_first_of(s, c, p),
    ensures
        first_of(s, c) == p,
{
    let q = first_of(s, c);
    assert(is_first_of(s, c, q));
    if q < p {
        assert(s[q] == c);
    } else if p < q {
        assert(s[p] == c);
    }
}

/// Index of the first `c` in `s[a..b)`, or `b` when there is none.
pub fn find_char(s: &[char], a: usize, b: usize, c: char) -> (p: usize)
    requires
        a <= b <= s@.len(),
    ensures
        a <= p <= b,
        is_first_of(s@.subrange(a as int, b as int), c, p - a),
        first_of(s@.subrange(a as int, b as int), c) == p - a,
{
    let mut p = a;
    while p < b && s[p] != c
        invariant
            a <= p <= b <= s@.len(),
            forall|q: int| a <= q < p ==> s@[q] != c,
        decreases b - p,
    {
        p = p + 1;
    }
    proof {
        let t = s@.subrange(a as int, b as int);
        assert forall|q: int| 0 <= q < p - a implies t[q] != c by {
            assert(t[q] == s@[a + q]);
        }
        lemma_first_of_unique(t, c, p - a);
    }
    p
}

/// Whether `c` is Unicode white space (`char::is_whitespace`).
pub fn is_whitespace_char(c: char) -> (b: bool)
    ensures
        b == is_unicode_whitespace(c),
{
    let x = c as u32;
    (0x09 <= x && x <= 0x0D) || x == 0x20 || x == 0x85 || x == 0xA0 || x == 0x1680
        || (0x2000 <= x && x <= 0x200A) || x == 0x2028 || x == 0x2029 || x == 0x202F
        || x == 0x205F || x == 0x3000
}

/// The range of `s[a..b)` left after trimming white space at both ends.
pub fn trim_range(s: &[char], a: usize, b: usize) -> (r: (usize, usize))
    requires
        a <= b <= s@.len(),
    ensures
        a <= r.0 <= r.1 <= b,
        s@.subrange(r.0 as int, r.1 as int) == spec_trim(s@.subrange(a as int, b as int)),
{
    let mut lo = a;
    while lo < b && is_whitespace_char(s[lo])
        invariant
            a <= lo <= b <= s@.len(),
            trim_start(s@.subrange(a as int, b as int)) == trim_start(s@.subrange(lo as int, b as int)),
        decreases b - lo,
    {
        assert(s@.subrange(lo as int, b as int).drop_first() =~= s@.subrange(lo + 1, b as int));
        lo = lo + 1;
    }
    assert(trim_start(s@.subrange(lo as int, b as int)) == s@.subrange(lo as int, b as int));
    let mut hi = b;
    while hi > lo && is_whitespace_char(s[hi - 1])
        invariant
            a <= lo <= hi <= b <= s@.len(),
            trim_end(s@.subrange(lo as int, b as int)) == trim_end(s@.subrange(lo as int, hi as int)),
        decreases hi - lo,
    {
        assert(s@.subrange(lo as int, hi as int).drop_last() =~= s@.subrange(lo as int, hi - 1));
        hi = hi - 1;
    }
    assert(trim_end(s@.subrange(lo as int, hi as int)) == s@.subrange(lo as int, hi as int));
    (lo, hi)
}

/// Whether `s[a..b)` equals `pat` up to ASCII case.
pub fn eq_ignore_ascii_case_range(s: &[char], a: usize, b: usize, pat: &[char]) -> (r: bool)
    requires
        a <= b <= s@.len(),
    ensures
        r == eq_ignore_ascii_case(s@.subrange(a as int, b as int), pat@),
{
    if b - a != pat.len() {
        return false;
    }
    let mut k: usize = 0;
    while k < pat.len()
        invariant
            a <= b <= s@.len(),
            b - a == pat@.len(),
            k <= pat@.len(),
            forall|m: int| 0 <= m < k ==> ascii_lower(#[trigger] s@.subrange(a as int, b as int)[m]) == ascii_lower(pat@[m]),
        decreases pat@.len() - k,
    {
        let x = s[a + k];
        let y = pat[k];
        let lx: u32 = if 'A' <= x && x <= 'Z' { (x as u32) + 32 } else { x as u32 };
        let ly: u32 = if 'A' <= y && y <= 'Z' { (y as u32) + 32 } else { y as u32 };
        if lx != ly {
            assert(s@.subrange(a as int, b as int)[k as int] == x);
            return false;
        }
        k = k + 1;
    }
    true
}

/// Whether `pat` occurs inside `s[a..b)`.
pub fn contains_range(s: &[char], a: usize, b: usize, pat: &[char]) -> (r: bool)
    requires
        a <= b <= s@.len(),
    ensures
        r == contains_seq(s@.subrange(a as int, b as int), pat@),
{
    let ghost t = s@.subrange(a as int, b as int);
    if pat.len() > b - a {
        return false;
    }
    let last = b - a - pat.len();
    let mut k: usize = 0;
    while k <= last
        invariant
            a <= b <= s@.len(),
            t == s@.subrange(a as int, b as int),
            last + pat@.len() == b - a,
            forall|m: int| 0 <= m < k ==> #[trigger] t.subrange(m, m + pat@.len()) != pat@,
        decreases last + 1 - k,
    {
        let mut m: usize = 0;
        let mut same = true;
        while m < pat.len()
            invariant
                a <= b <= s@.len(),
                k <= last,
                last + pat@.len() == b - a,
                m <= pat@.len(),
                same ==> forall|x: int| 0 <= x < m ==> s@[a + k + x] == pat@[x],
                !same ==> exists|x: int| 0 <= x < pat@.len() && s@[a + k + x] != pat@[x],
            decreases pat@.len() - m,
        {
            if s[a + k + m] != pat[m] {
                same = false;
            }
            m = m + 1;
        }
        if same {
            assert(t.subrange(k as int, k + pat@.len()) =~= pat@);
            return true;
        }
        proof {
            let x = choose|x: int| 0 <= x < pat@.len() && s@[a + k + x] != pat@[x];
            assert(t.subrange(k as int, k + pat@.len())[x] == s@[a + k + x]);
        }
        k = k + 1;
    }
    proof {
        assert forall|j: int| 0 <= j && j + pat@.len() <= t.len() implies #[trigger] t.subrange(j, j + pat@.len()) != pat@ by {
            assert(j < k);
        }
    }
    false
}

/// The first line of the non-empty text `s[a..b)`: its range, and where
/// the text after it (past its `\n`) starts.
pub fn next_line(s: &[char], a: usize, b: usize) -> (r: (usize, usize, usize))
    requires
        a < b <= s@.len(),
    ensures
        a <= r.0 <= r.1 <= b,
        a < r.2 <= b,
        s@.subrange(r.0 as int, r.1 as int) == first_line(s@.subrange(a as int, b as int)),
        s@.subrange(r.2 as int, b as int) == after_first_line(s@.subrange(a as int, b as int)),
{
    let ghost t = s@.subrange(a as int, b as int);
    let p = find_char(s, a, b, '\n');
    let end = if p < b && p > a && s[p - 1] == '\r' { p - 1 } else { p };
    let next = if p < b { p + 1 } else { b };
    proof {
        let q = p - a;
        assert(t.take(q) =~= s@.subrange(a as int, p as int));
        if p < b && p > a && s@[p - 1] == '\r' {
            assert(t.take(q).drop_last() =~= s@.subrange(a as int, end as int));
        }
        if p < b {
            assert(t.skip(q + 1) =~= s@.subrange(next as int, b as int));
        } else {
            assert(s@.subrange(next as int, b as int) =~= Seq::<char>::empty());
        }
    }
    (a, end, next)
}

/// Moves the first line of `t` out of `spec_lines(t)`.
pub proof fn lemma_lines_unfold(t: Seq<char>)
    requires
        t.len() > 0,
    ensures
        spec_lines(t) == seq![first_line(t)] + spec_lines(after_first_line(t)),
{
}

/// `s[a..b)` read as an unsigned decimal no greater than `max`, as
/// `str::parse` reads it.
pub fn parse_decimal(s: &[char], a: usize, b: usize, max: u64) -> (r: Option<u64>)
    requires
        a <= b <= s@.len(),
    ensures
        r == spec_parse_decimal(s@.subrange(a as int, b as int), max),
{
    let ghost t = s@.subrange(a as int, b as int);
    let start = if a < b && s[a] == '+' { a + 1 } else { a };
    let ghost digits = s@.subrange(start as int, b as int);
    proof {
        if a < b && s@[a as int] == '+' {
            assert(t.drop_first() =~= digits);
        } else {
            assert(t =~= digits);
        }
    }
    if start == b {
        return None;
    }
    let mut value: u64 = 0;
    let mut overflow = false;
    let mut k = start;
    while k < b
        invariant
            a <= start <= k <= b <= s@.len(),
            digits == s@.subrange(start as int, b as int),
            t == s@.subrange(a as int, b as int),
            digits.len() > 0,
            digits == (if t.len() > 0 && t[0] == '+' { t.drop_first() } else { t }),
            all_digits(s@.subrange(start as int, k as int), 10),
            !overflow ==> value == digits_value(s@.subrange(start as int, k as int), 10),
            overflow ==> digits_value(s@.subrange(start as int, k as int), 10) > max,
        decreases b - k,
    {
        let c = s[k];
        let x = c as u32;
        let ghost prefix = s@.subrange(start as int, k as int);
        let ghost next = s@.subrange(start as int, k + 1);
        if !(48 <= x && x <= 57) {
            proof {
                assert(digits[k - start] == c);
                assert(digit_value(c, 10) is None);
                assert(!all_digits(digits, 10));
            }
            return None;
        }
        let d = (x - 48) as u64;
        proof {
            assert(next.drop_last() =~= prefix);
            assert(next.last() == c);
            assert(digit_value(c, 10) == Some(d as nat));
            assert(digits_value(next, 10) == digits_value(prefix, 10) * 10 + d);
            assert forall|m: int| 0 <= m < next.len() implies (#[trigger] digit_value(next[m], 10)) is Some by {
                if m < prefix.len() {
                    assert(next[m] == prefix[m]);
                }
            }
        }
        if !overflow {
            if d > max || value > (max - d) / 10 {
                overflow = true;
                assert(value * 10 + d > max) by (nonlinear_arith)
                    requires
                        d > max || value > (max - d) / 10,
                        d < 10,
                ;
            } else {
                assert(value * 10 + d <= max) by (nonlinear_arith)
                    requires
                        value <= (max - d) / 10,
                        d < 10,
                ;
                value = value * 10 + d;
            }
        }
        k = k + 1;
    }
    proof {
        assert(s@.subrange(start as int, k as int) =~= digits);
    }
    if overflow {
        None
    } else if value > max {
        None
    } else {
        Some(value)
    }
}

/// Whether `s[a..b)` is exactly `pat`.
pub fn eq_range(s: &[char], a: usize, b: usize, pat: &[char]) -> (r: bool)
    requires
        a <= b <= s@.len(),
    ensures
        r == (s@.subrange(a as int, b as int) == pat@),
{
    if b - a != pat.len() {
        return false;
    }
    let mut k: usize = 0;
    while k < pat.len()
        invariant
            a <= b <= s@.len(),
            b - a == pat@.len(),
            k <= pat@.len(),
            forall|m: int| 0 <= m < k ==> s@[a + m] == pat@[m],
        decreases pat@.len() - k,
    {
        if s[a + k] != pat[k] {
            assert(s@.subrange(a as int, b as int)[k as int] != pat@[k as int]);
            return false;
        }
        k = k + 1;
    }
    assert(s@.subrange(a as int, b as int) =~= pat@);
    true
}

/// The decimal digit character for `d < 10`.
pub open spec fn digit_char(d: nat) -> char {
    (d + 48) as char
}

/// `n` written in decimal, most significant digit first, without leading
/// zeros (`0` is written `0`).
pub open spec fn spec_decimal(n: nat) -> Seq<char>
    decreases n,
{
    if n < 10 {
        seq![digit_char(n)]
    } else {
        spec_decimal(n / 10) + seq![digit_char(n % 10)]
    }
}

/// A decimal rendering is made of digits and reads back as the number.
pub proof fn lemma_decimal_digits(n: nat)
    ensures
        spec_decimal(n).len() > 0,
        all_digits(spec_decimal(n), 10),
        digits_value(spec_decimal(n), 10) == n,
        spec_decimal(n)[0] != '+',
        !is_unicode_whitespace(spec_decimal(n)[0]),
        !is_unicode_whitespace(spec_decimal(n).last()),
        forall|k: int| 0 <= k < spec_decimal(n).len() ==> 48 <= #[trigger] (spec_decimal(n)[k] as u32) <= 57,
    decreases n,
{
    let s = spec_decimal(n);
    let d = n % 10;
    assert((digit_char(d) as u32) == d + 48);
    assert(digit_value(digit_char(d), 10) == Some(d));
    assert(s.last() == digit_char(d));
    if n >= 10 {
        lemma_decimal_digits(n / 10);
        let p = spec_decimal(n / 10);
        assert(s.drop_last() =~= p);
        assert(digits_value(s, 10) == digits_value(p, 10) * 10 + d);
        assert(s[0] == p[0]);
        assert forall|k: int| 0 <= k < s.len() implies 48 <= #[trigger] (s[k] as u32) <= 57 by {
            if k < p.len() {
                assert(s[k] == p[k]);
            }
        }
    }
    assert forall|k: int| 0 <= k < s.len() implies (#[trigger] digit_value(s[k], 10)) is Some by {
        assert(48 <= (s[k] as u32) <= 57);
    }
    if n < 10 {
        assert(s.drop_last() =~= Seq::<char>::empty());
        assert(digits_value(Seq::<char>::empty(), 10) == 0);
        assert(digits_value(s, 10) == n);
    } else {
        assert(digits_value(s, 10) == n);
    }
}

/// The decimal digits of `n` never include white space or a `+`, so a
/// decimal field reads back exactly.
pub proof fn lemma_parse_decimal_roundtrip(n: u64, max: u64)
    requires
        n <= max,
    ensures
        spec_parse_decimal(spec_decimal(n as nat), max) == Some(n),
        spec_trim(spec_decimal(n as nat)) == spec_decimal(n as nat),
{
    lemma_decimal_digits(n as nat);
    lemma_trim_identity(spec_decimal(n as nat));
}

/// Text that neither starts nor ends with white space is its own trim.
pub proof fn lemma_trim_identity(s: Seq<char>)
    requires
        s.len() > 0 ==> !is_unicode_whitespace(s[0]) && !is_unicode_whitespace(s.last()),
    ensures
        spec_trim(s) == s,
{
}

/// The decimal text of `n`.
pub fn decimal_string(n: u64) -> (r: String)
    ensures
        r@ == spec_decimal(n as nat),
{
    let mut digits: Vec<u64> = Vec::new();
    let mut rest = n;
    while rest >= 10
        invariant
            spec_decimal(n as nat) == spec_decimal(rest as nat) + Seq::new(digits@.len(), |k: int| digit_char(digits@[digits@.len() - 1 - k] as nat)),
            forall|k: int| 0 <= k < digits@.len() ==> #[trigger] digits@[k] < 10,
        decreases rest,
    {
        let d = rest % 10;
        let ghost before = Seq::new(digits@.len(), |k: int| digit_char(digits@[digits@.len() - 1 - k] as nat));
        digits.push(d);
        let ghost after = Seq::new(digits@.len(), |k: int| digit_char(digits@[digits@.len() - 1 - k] as nat));
        assert(after =~= seq![digit_char(d as nat)] + before);
        assert(spec_decimal(rest as nat) == spec_decimal((rest / 10) as nat) + seq![digit_char((rest % 10) as nat)]);
        assert(spec_decimal(rest as nat) + before =~= spec_decimal((rest / 10) as nat) + after);
        rest = rest / 10;
    }
    let mut text = String::from_str(digit_str(rest));
    let mut k = digits.len();
    while k > 0
        invariant
            k <= digits@.len(),
            forall|m: int| 0 <= m < digits@.len() ==> #[trigger] digits@[m] < 10,
            spec_decimal(n as nat) == text@ + Seq::new(k as nat, |m: int| digit_char(digits@[k - 1 - m] as nat)),
        decreases k,
    {
        let ghost tail = Seq::new(k as nat, |m: int| digit_char(digits@[k - 1 - m] as nat));
        let ghost tail2 = Seq::new((k - 1) as nat, |m: int| digit_char(digits@[k - 2 - m] as nat));
        assert(tail =~= seq![digit_char(digits@[k - 1] as nat)] + tail2);
        text.append(digit_str(digits[k - 1]));
        k = k - 1;
    }
    assert(text@ + Seq::new(0, |m: int| digit_char(digits@[0 - 1 - m] as nat)) =~= text@);
    text
}

/// The one-character text of the decimal digit `d`.
fn digit_str(d: u64) -> (s: &'static str)
    requires
        d < 10,
    ensures
        s@ == seq![digit_char(d as nat)],
{
    proof {
        reveal_strlit("0");
        reveal_strlit("1");
        reveal_strlit("2");
        reveal_strlit("3");
        reveal_strlit("4");
        reveal_strlit("5");
        reveal_strlit("6");
        reveal_strlit("7");
        reveal_strlit("8");
        reveal_strlit("9");
    }
    let s = match d {
        0 => "0",
        1 => "1",
        2 => "2",
        3 => "3",
        4 => "4",
        5 => "5",
        6 => "6",
        7 => "7",
        8 => "8",
        _ => "9",
    };
    assert(s@ =~= seq![digit_char(d as nat)]);
    s
}

/// `x` written in decimal, with a leading `-` when negative.
pub open spec fn spec_signed_decimal(x: int) -> Seq<char> {
    if x < 0 { seq!['-'] + spec_decimal((-x) as nat) } else { spec_decimal(x as nat) }
}

/// The decimal text of `x`, with a leading `-` when negative.
pub fn signed_decimal_string(x: i32) -> (r: String)
    ensures
        r@ == spec_signed_decimal(x as int),
{
    if x < 0 {
        proof {
            reveal_strlit("-");
        }
        let magnitude: u64 = (-(x as i64)) as u64;
        let mut r = String::from_str("-");
        let digits = decimal_string(magnitude);
        r.append(digits.as_str());
        r
    } else {
        decimal_string(x as u64)
    }
}

} // verus!
