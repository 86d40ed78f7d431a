//! Reading the terrain sidecar's reply: an HTTP/1.1 response whose headers
//! give the grid size (`X-Height`, `X-Width`) and whose body holds one
//! little-endian `i16` elevation per sample followed by four little-endian
//! `f32` climate channels per sample. Climate values are kept as their bit
//! patterns.

use vstd::prelude::*;
use vstd::utf8::{decode_utf8, valid_utf8};
use crate::cli::spec_trim;
use crate::text::{
    chars_of, contains_range, contains_seq, eq_ignore_ascii_case, eq_ignore_ascii_case_range,
    find_char, lemma_lines_unfold, next_line, parse_decimal, spec_lines, spec_parse_decimal,
    spec_split_once, trim_range,
};

verus! {

/// Why a reply could not be read.
#[derive(Clone, Debug, PartialEq, Eq)]
pub enum ResponseError {
    /// No blank line (`\r\n\r\n`) ends the headers.
    MissingHeaderTerminator,
    /// The header bytes are not UTF-8.
    HeadersNotUtf8,
    /// The status line (given) does not report `200`.
    BadStatus(String),
    /// No usable `X-Height` header.
    MissingHeight,
    /// No usable `X-Width` header.
    MissingWidth,
    /// The body length differs from what the grid size requires.
    PayloadSize { actual: usize, expected: u64 },
    /// A climate value is infinite or NaN.
    NonFiniteClimate,
}

/// What a reply denotes, as a mathematical value.
pub enum TerrainReply {
    MissingHeaderTerminator,
    HeadersNotUtf8,
    BadStatus(Seq<char>),
    MissingHeight,
    MissingWidth,
    PayloadSize(usize, u64),
    NonFiniteClimate,
    /// Height, width, elevations (row-major) and climate bit patterns
    /// (four per sample, interleaved).
    Grid(u16, u16, Seq<i16>, Seq<u32>),
}

/// The four bytes `\r\n\r\n` start at `p`.
pub open spec fn terminator_at(r: Seq<u8>, p: int) -> bool {
    &&& 0 <= p
    &&& p + 4 <= r.len()
    &&& r[p] == 13 && r[p + 1] == 10 && r[p + 2] == 13 && r[p + 3] == 10
}

/// `p` is where the first `\r\n\r\n` starts (the end of the headers).
pub open spec fn is_header_end(r: Seq<u8>, p: int) -> bool {
    terminator_at(r, p) && forall|q: int| 0 <= q < p ==> !terminator_at(r, q)
}

/// The `i16` stored little-endian in `lo`, `hi`.
pub open spec fn le_i16(lo: u8, hi: u8) -> i16 {
    let v = lo + 256 * hi;
    if v < 0x8000 { v as i16 } else { (v - 0x1_0000) as i16 }
}

/// The `u32` stored little-endian in `b[at..at + 4]`.
pub open spec fn le_u32_at(b: Seq<u8>, at: int) -> u32 {
    (b[at] + 0x100 * b[at + 1] + 0x1_0000 * b[at + 2] + 0x100_0000 * b[at + 3]) as u32
}

/// An IEEE-754 single-precision bit pattern denotes a finite value exactly
/// when its exponent field (bits 23..31) is not all ones.
pub open spec fn f32_bits_finite(bits: u32) -> bool {
    (bits / 0x80_0000) % 0x100 != 0xff
}

/// The value of the last header line named `name` (ASCII case-insensitive,
/// `name: value`), trimmed and read as a `u16`; `None` when there is no
/// such line or its value does not parse.
pub open spec fn header_u16(fields: Seq<Seq<char>>, name: Seq<char>) -> Option<u16>
    decreases fields.len(),
{
    if fields.len() == 0 {
        None
    } else {
        match spec_split_once(fields.last(), ':') {
            Some((n, v)) if eq_ignore_ascii_case(n, name) => match spec_parse_decimal(spec_trim(v), 0xffff) {
                Some(x) => Some(x as u16),
                None => None,
            },
            _ => header_u16(fields.drop_last(), name),
        }
    }
}

/// The status line `OK` marker.
pub open spec fn status_ok_marker() -> Seq<char> {
    seq![' ', '2', '0', '0', ' ']
}

/// Header name of the grid height.
pub open spec fn height_name() -> Seq<char> {
    seq!['x', '-', 'h', 'e', 'i', 'g', 'h', 't']
}

/// Header name of the grid width.
pub open spec fn width_name() -> Seq<char> {
    seq!['x', '-', 'w', 'i', 'd', 't', 'h']
}

/// The body once its size is known to match an `h` by `w` grid.
pub open spec fn grid_of(body: Seq<u8>, h: u16, w: u16) -> TerrainReply {
    let n = h * w;
    if exists|k: int| 0 <= k < 4 * n && !f32_bits_finite(#[trigger] le_u32_at(body, 2 * n + 4 * k)) {
        TerrainReply::NonFiniteClimate
    } else {
        TerrainReply::Grid(
            h,
            w,
            Seq::new(n as nat, |k: int| le_i16(body[2 * k], body[2 * k + 1])),
            Seq::new((4 * n) as nat, |k: int| le_u32_at(body, 2 * n + 4 * k)),
        )
    }
}

/// What the reply bytes `r` denote.
pub open spec fn spec_terrain_reply(r: Seq<u8>) -> TerrainReply {
    if !(exists|p: int| is_header_end(r, p)) {
        TerrainReply::MissingHeaderTerminator
    } else {
        let p = choose|p: int| is_header_end(r, p);
        let head = r.take(p);
        if !valid_utf8(head) {
            TerrainReply::HeadersNotUtf8
        } else {
            let lines = spec_lines(decode_utf8(head));
            let status = if lines.len() > 0 { lines[0] } else { Seq::empty() };
            if !contains_seq(status, status_ok_marker()) {
                TerrainReply::BadStatus(status)
            } else {
                let fields = if lines.len() > 0 { lines.drop_first() } else { lines };
                match (header_u16(fields, height_name()), header_u16(fields, width_name())) {
                    (None, _) => TerrainReply::MissingHeight,
                    (Some(_), None) => TerrainReply::MissingWidth,
                    (Some(h), Some(w)) => {
                        let body = r.skip(p + 4);
                        if body.len() != 18 * (h * w) {
                            TerrainReply::PayloadSize(body.len() as usize, (18 * (h * w)) as u64)
                        } else {
                            grid_of(body, h, w)
                        }
                    },
                }
            }
        }
    }
}

/// The reply a parse result reports.
pub open spec fn reply_of(res: Result<(u16, u16, Vec<i16>, Vec<u32>), ResponseError>) -> TerrainReply {
    match res {
        Ok((h, w, e, c)) => TerrainReply::Grid(h, w, e@, c@),
        Err(ResponseError::MissingHeaderTerminator) => TerrainReply::MissingHeaderTerminator,
        Err(ResponseError::HeadersNotUtf8) => TerrainReply::HeadersNotUtf8,
        Err(ResponseError::BadStatus(s)) => TerrainReply::BadStatus(s@),
        Err(ResponseError::MissingHeight) => TerrainReply::MissingHeight,
        Err(ResponseError::MissingWidth) => TerrainReply::MissingWidth,
        Err(ResponseError::PayloadSize { actual, expected }) => TerrainReply::PayloadSize(actual, expected),
        Err(ResponseError::NonFiniteClimate) => TerrainReply::NonFiniteClimate,
    }
}

/// `std::str::from_utf8`, with its error dropped: the text the bytes encode
/// when they are valid UTF-8, `None` otherwise.
#[verifier::external_body]
fn str_from_utf8(bytes: &[u8]) -> (s: Option<&str>)
    ensures
        s is Some <==> valid_utf8(bytes@),
        s matches Some(t) ==> t@ == decode_utf8(bytes@),
{
    std::str::from_utf8(bytes).ok()
}

/// Where the first `\r\n\r\n` starts, if anywhere.
fn find_header_end(r: &[u8]) -> (p: Option<usize>)
    ensures
        p matches Some(q) ==> is_header_end(r@, q as int),
        p is None ==> forall|q: int| !terminator_at(r@, q),
{
    let mut q: usize = 0;
    while r.len() >= 4 && q <= r.len() - 4
        invariant
            q <= r@.len(),
            forall|x: int| 0 <= x < q ==> !terminator_at(r@, x),
        decreases r@.len() - q,
    {
        if r[q] == 13 && r[q + 1] == 10 && r[q + 2] == 13 && r[q + 3] == 10 {
            return Some(q);
        }
        q = q + 1;
    }
    None
}

/// Reads the `X-Height` and `X-Width` header lines among the lines of
/// `hs[start..)`.
fn read_grid_headers(hs: &[char], start: usize) -> (r: (Option<u16>, Option<u16>))
    requires
        start <= hs@.len(),
    ensures
        r.0 == header_u16(spec_lines(hs@.subrange(start as int, hs@.len() as int)), height_name()),
        r.1 == header_u16(spec_lines(hs@.subrange(start as int, hs@.len() as int)), width_name()),
{
    let h_name: [char; 8] = ['x', '-', 'h', 'e', 'i', 'g', 'h', 't'];
    let w_name: [char; 7] = ['x', '-', 'w', 'i', 'd', 't', 'h'];
    assert(h_name@ =~= height_name());
    assert(w_name@ =~= width_name());
    let n = hs.len();
    let mut height: Option<u16> = None;
    let mut width: Option<u16> = None;
    let mut pos = start;
    let ghost mut done: Seq<Seq<char>> = Seq::empty();
    assert(done + spec_lines(hs@.subrange(pos as int, n as int)) =~= spec_lines(hs@.subrange(start as int, n as int)));
    while pos < n
        invariant
            start <= pos <= n == hs@.len(),
            h_name@ == height_name(),
            w_name@ == width_name(),
            done + spec_lines(hs@.subrange(pos as int, n as int)) == spec_lines(hs@.subrange(start as int, n as int)),
            height == header_u16(done, height_name()),
            width == header_u16(done, width_name()),
        decreases n - pos,
    {
        let ghost rem = hs@.subrange(pos as int, n as int);
        let (a, e, next) = next_line(hs, pos, n);
        let ghost line = hs@.subrange(a as int, e as int);
        proof {
            lemma_lines_unfold(rem);
        }
        let c = find_char(hs, a, e, ':');
        if c < e {
            proof {
                assert(line.take(c - a) =~= hs@.subrange(a as int, c as int));
                assert(line.skip(c - a + 1) =~= hs@.subrange(c + 1, e as int));
            }
            if eq_ignore_ascii_case_range(hs, a, c, &h_name) {
                let (va, vb) = trim_range(hs, c + 1, e);
                height = match parse_decimal(hs, va, vb, 0xffff) {
                    Some(x) => Some(x as u16),
                    None => None,
                };
            }
            if eq_ignore_ascii_case_range(hs, a, c, &w_name) {
                let (va, vb) = trim_range(hs, c + 1, e);
                width = match parse_decimal(hs, va, vb, 0xffff) {
                    Some(x) => Some(x as u16),
                    None => None,
                };
            }
        }
        proof {
            let done2 = done.push(line);
            assert(done2.drop_last() =~= done);
            assert(done2.last() == line);
            assert(done2 + spec_lines(hs@.subrange(next as int, n as int)) =~= done + spec_lines(rem));
            done = done2;
        }
        pos = next;
    }
    (height, width)
}

/// Decodes the grid body once its length is known to be `18 * h * w`:
/// elevations first, then the climate bit patterns, refusing any climate
/// value that is not finite.
fn decode_grid(body: &[u8], h: u16, w: u16) -> (res: Result<(u16, u16, Vec<i16>, Vec<u32>), ResponseError>)
    requires
        body@.len() == 18 * (h * w),
    ensures
        reply_of(res) == grid_of(body@, h, w),
{
    let len = body.len();
    assert(h * w <= 0xffff * 0xffff) by (nonlinear_arith);
    let n = h as usize * w as usize;
    let mut elevation: Vec<i16> = Vec::new();
    let mut k: usize = 0;
    while k < n
        invariant
            n == h * w,
            body@.len() == 18 * n,
            18 * n <= usize::MAX,
            k <= n,
            elevation@.len() == k,
            forall|m: int| 0 <= m < k ==> #[trigger] elevation@[m] == le_i16(body@[2 * m], body@[2 * m + 1]),
        decreases n - k,
    {
        let lo = body[2 * k];
        let hi = body[2 * k + 1];
        let v: u32 = lo as u32 + 256 * hi as u32;
        let x: i16 = if v < 0x8000 { v as i16 } else { (v as i32 - 0x1_0000) as i16 };
        elevation.push(x);
        k = k + 1;
    }
    let mut climate: Vec<u32> = Vec::new();
    let base = 2 * n;
    let mut k: usize = 0;
    while k < 4 * n
        invariant
            n == h * w,
            base == 2 * n,
            body@.len() == 18 * n,
            18 * n <= usize::MAX,
            k <= 4 * n,
            climate@.len() == k,
            forall|m: int| 0 <= m < k ==> #[trigger] climate@[m] == le_u32_at(body@, 2 * n + 4 * m),
            forall|m: int| 0 <= m < k ==> f32_bits_finite(#[trigger] le_u32_at(body@, 2 * n + 4 * m)),
        decreases 4 * n - k,
    {
        let at = base + 4 * k;
        let bits: u32 = body[at] as u32 + 0x100 * body[at + 1] as u32 + 0x1_0000 * body[at + 2] as u32
            + 0x100_0000 * body[at + 3] as u32;
        assert(bits == le_u32_at(body@, 2 * n + 4 * k));
        if (bits / 0x80_0000) % 0x100 == 0xff {
            assert(!f32_bits_finite(le_u32_at(body@, 2 * n + 4 * k)));
            return Err(ResponseError::NonFiniteClimate);
        }
        climate.push(bits);
        k = k + 1;
    }
    assert(elevation@ =~= Seq::new(n as nat, |m: int| le_i16(body@[2 * m], body@[2 * m + 1])));
    assert(climate@ =~= Seq::new((4 * n) as nat, |m: int| le_u32_at(body@, 2 * n + 4 * m)));
    Ok((h, w, elevation, climate))
}

/// Reads a terrain reply: the grid size from the headers, then the
/// elevations and the climate channels (as bit patterns). Every failure has
/// its own error; see `spec_terrain_reply`.
pub fn parse_terrain_response_with_climate(response: &[u8]) -> (res: Result<(u16, u16, Vec<i16>, Vec<u32>), ResponseError>)
    ensures
        reply_of(res) == spec_terrain_reply(response@),
{
    let p = match find_header_end(response) {
        Some(p) => p,
        None => {
            return Err(ResponseError::MissingHeaderTerminator);
        },
    };
    proof {
        let q = choose|q: int| is_header_end(response@, q);
        if q < p {
            assert(!terminator_at(response@, q));
        } else if p < q {
            assert(!terminator_at(response@, p as int));
        }
    }
    let head = &response[0..p];
    assert(head@ =~= response@.take(p as int));
    let headers = match str_from_utf8(head) {
        Some(text) => text,
        None => {
            return Err(ResponseError::HeadersNotUtf8);
        },
    };
    let hs = chars_of(headers);
    let n = hs.len();
    let ghost lines = spec_lines(hs@);
    let marker: [char; 5] = [' ', '2', '0', '0', ' '];
    assert(marker@ =~= status_ok_marker());
    let mut fields_start = n;
    if n == 0 {
        assert(lines =~= Seq::<Seq<char>>::empty());
        assert(!contains_seq(Seq::<char>::empty(), status_ok_marker()));
        return Err(ResponseError::BadStatus(String::new()));
    } else {
        let (a, e, next) = next_line(hs.as_slice(), 0, n);
        proof {
            assert(hs@.subrange(0, n as int) =~= hs@);
            lemma_lines_unfold(hs@);
            assert(lines[0] == hs@.subrange(a as int, e as int));
            assert(lines.drop_first() =~= spec_lines(hs@.subrange(next as int, n as int)));
        }
        if !contains_range(hs.as_slice(), a, e, &marker) {
            let status = String::from_str(headers.substring_char(a, e));
            return Err(ResponseError::BadStatus(status));
        }
        fields_start = next;
    }
    let (height, width) = read_grid_headers(hs.as_slice(), fields_start);
    let h = match height {
        Some(h) => h,
        None => {
            return Err(ResponseError::MissingHeight);
        },
    };
    let w = match width {
        Some(w) => w,
        None => {
            return Err(ResponseError::MissingWidth);
        },
    };
    let len = response.len();
    let body = &response[p + 4..len];
    assert(body@ =~= response@.skip(p + 4));
    assert(h * w <= 0xffff * 0xffff) by (nonlinear_arith);
    let expected: u64 = 18 * (h as u64 * w as u64);
    if body.len() as u64 != expected {
        return Err(ResponseError::PayloadSize { actual: body.len(), expected });
    }
    decode_grid(body, h, w)
}

/// Reads a terrain reply keeping only the grid size and the elevations; the
/// climate channels are still checked for finiteness.
pub fn parse_terrain_response(response: &[u8]) -> (res: Result<(u16, u16, Vec<i16>), ResponseError>)
    ensures
        match spec_terrain_reply(response@) {
            TerrainReply::Grid(h, w, e, _) => res matches Ok((h2, w2, e2)) && h2 == h && w2 == w && e2@ == e,
            other => res matches Err(err) && reply_of(Err(err)) == other,
        },
{
    match parse_terrain_response_with_climate(response) {
        Ok((h, w, elevation, _climate)) => Ok((h, w, elevation)),
        Err(err) => Err(err),
    }
}

} // verus!
