//! Length-prefixed message framing.
//!
//! A frame is an ASCII header block — `Name: value` lines ended by a blank
//! line — followed by exactly as many body bytes as the mandatory
//! content-length header declares. This module encodes a body into a frame
//! and parses the next frame out of a buffered byte stream; it knows nothing
//! of what the body means. The blocking reads and writes around it live
//! outside the library and feed it the buffered bytes plus an end-of-stream
//! flag.

use vstd::prelude::*;
use crate::decimal::{all_digits, dec_bytes, dec_val, is_digit, parse_dec, u64_to_dec};

verus! {

pub const LF: u8 = 10;

pub const CR: u8 = 13;

pub const COLON: u8 = 58;

/// ASCII whitespace, as trimmed from header names and values.
pub open spec fn is_ws(b: u8) -> bool {
    b == 32 || b == 9 || b == 10 || b == 11 || b == 12 || b == 13
}

/// A line terminator byte.
pub open spec fn is_line_end(b: u8) -> bool {
    b == 10 || b == 13
}

/// `s` without its trailing bytes satisfying `p`.
pub open spec fn drop_trailing(s: Seq<u8>, p: spec_fn(u8) -> bool) -> Seq<u8>
    decreases s.len(),
{
    if s.len() > 0 && p(s.last()) {
        drop_trailing(s.drop_last(), p)
    } else {
        s
    }
}

/// `s` without its leading bytes satisfying `p`.
pub open spec fn drop_leading(s: Seq<u8>, p: spec_fn(u8) -> bool) -> Seq<u8>
    decreases s.len(),
{
    if s.len() > 0 && p(s[0]) {
        drop_leading(s.drop_first(), p)
    } else {
        s
    }
}

pub open spec fn ws_pred() -> spec_fn(u8) -> bool {
    |b: u8| is_ws(b)
}

pub open spec fn line_end_pred() -> spec_fn(u8) -> bool {
    |b: u8| is_line_end(b)
}

/// `s` without surrounding ASCII whitespace.
pub open spec fn trim_ws(s: Seq<u8>) -> Seq<u8> {
    drop_leading(drop_trailing(s, ws_pred()), ws_pred())
}

/// ASCII lowercase of one byte.
pub open spec fn lower(b: u8) -> u8 {
    if 65 <= b <= 90 {
        (b + 32) as u8
    } else {
        b
    }
}

pub open spec fn lower_seq(s: Seq<u8>) -> Seq<u8> {
    s.map_values(|b: u8| lower(b))
}

/// The length header's name, lowercased: the ASCII bytes of
/// `content-length`.
pub open spec fn content_length_name() -> Seq<u8> {
    seq![99u8, 111u8, 110u8, 116u8, 101u8, 110u8, 116u8, 45u8, 108u8, 101u8, 110u8, 103u8, 116u8, 104u8]
}

/// The header block written in front of every outgoing body: the ASCII
/// bytes of `Content-Length: ` (colon and space included), before the
/// decimal length.
pub open spec fn header_prefix() -> Seq<u8> {
    seq![67u8, 111u8, 110u8, 116u8, 101u8, 110u8, 116u8, 45u8, 76u8, 101u8, 110u8, 103u8, 116u8, 104u8, 58u8, 32u8]
}

/// Index of the first occurrence of `b` in `s` at or after `from`; `-1`
/// when there is none.
pub open spec fn find_from(s: Seq<u8>, from: int, b: u8) -> int
    decreases s.len() - from,
{
    if !(0 <= from < s.len()) {
        -1
    } else if s[from] == b {
        from
    } else {
        find_from(s, from + 1, b)
    }
}

pub proof fn lemma_find_from_found(s: Seq<u8>, from: int, b: u8, i: int)
    requires
        0 <= from <= i < s.len(),
        s[i] == b,
        forall|k: int| from <= k < i ==> s[k] != b,
    ensures
        find_from(s, from, b) == i,
    decreases i - from,
{
    if from < i {
        lemma_find_from_found(s, from + 1, b, i);
    }
}

pub proof fn lemma_find_from_none(s: Seq<u8>, from: int, b: u8)
    requires
        0 <= from <= s.len(),
        forall|k: int| from <= k < s.len() ==> s[k] != b,
    ensures
        find_from(s, from, b) == -1,
    decreases s.len() - from,
{
    if from < s.len() {
        lemma_find_from_none(s, from + 1, b);
    }
}

/// `drop_trailing` keeps exactly the prefix that ends at the last byte not
/// satisfying `p`.
pub proof fn lemma_drop_trailing_is(s: Seq<u8>, p: spec_fn(u8) -> bool, hi: int)
    requires
        0 <= hi <= s.len(),
        forall|i: int| hi <= i < s.len() ==> p(s[i]),
        hi == 0 || !p(s[hi - 1]),
    ensures
        drop_trailing(s, p) == s.subrange(0, hi),
    decreases s.len(),
{
    if s.len() == 0 {
        assert(drop_trailing(s, p) =~= s.subrange(0, 0));
    } else if p(s.last()) {
        assert(hi < s.len());
        let t = s.drop_last();
        assert(forall|i: int| hi <= i < t.len() ==> t[i] == s[i] && p(s[i]));
        lemma_drop_trailing_is(t, p, hi);
        assert(t.subrange(0, hi) =~= s.subrange(0, hi));
    } else {
        assert(hi == s.len());
        assert(drop_trailing(s, p) =~= s.subrange(0, hi));
    }
}

/// `drop_leading` keeps exactly the suffix that starts at the first byte not
/// satisfying `p`.
pub proof fn lemma_drop_leading_is(s: Seq<u8>, p: spec_fn(u8) -> bool, lo: int)
    requires
        0 <= lo <= s.len(),
        forall|i: int| 0 <= i < lo ==> p(s[i]),
        lo == s.len() || !p(s[lo]),
    ensures
        drop_leading(s, p) == s.subrange(lo, s.len() as int),
    decreases s.len(),
{
    if s.len() == 0 {
        assert(drop_leading(s, p) =~= s.subrange(0, 0));
    } else if p(s[0]) {
        assert(lo >= 1);
        let t = s.drop_first();
        assert(forall|i: int| 0 <= i < lo - 1 ==> t[i] == s[i + 1] && p(t[i]));
        lemma_drop_leading_is(t, p, lo - 1);
        assert(t.subrange(lo - 1, t.len() as int) =~= s.subrange(lo, s.len() as int));
    } else {
        assert(lo == 0);
        assert(drop_leading(s, p) =~= s.subrange(0, s.len() as int));
    }
}

/// ASCII lowercase of one byte.
pub fn lower_byte(b: u8) -> (r: u8)
    ensures
        r == lower(b),
{
    if 65 <= b && b <= 90 {
        b + 32
    } else {
        b
    }
}

/// Finds the first occurrence of `b` in `s[from..to]`.
pub fn find_byte(s: &Vec<u8>, from: usize, to: usize, b: u8) -> (r: Option<usize>)
    requires
        from <= to <= s@.len(),
    ensures
        match r {
            Some(i) => from <= i < to && s@[i as int] == b && forall|k: int|
                from <= k < i ==> s@[k] != b,
            None => forall|k: int| from <= k < to ==> s@[k] != b,
        },
{
    let mut i: usize = from;
    while i < to
        invariant
            from <= i <= to <= s@.len(),
            forall|k: int| from <= k < i ==> s@[k] != b,
        decreases to - i,
    {
        if s[i] == b {
            return Some(i);
        }
        i = i + 1;
    }
    None
}

/// Copies `s[lo..hi]` out into a fresh vector.
pub fn copy_range(s: &Vec<u8>, lo: usize, hi: usize) -> (r: Vec<u8>)
    requires
        lo <= hi <= s@.len(),
    ensures
        r@ == s@.subrange(lo as int, hi as int),
{
    let mut out: Vec<u8> = Vec::new();
    let mut i: usize = lo;
    while i < hi
        invariant
            lo <= i <= hi <= s@.len(),
            out@ == s@.subrange(lo as int, i as int),
        decreases hi - i,
    {
        out.push(s[i]);
        proof {
            assert(s@.subrange(lo as int, i + 1) =~= s@.subrange(lo as int, i as int).push(
                s@[i as int],
            ));
        }
        i = i + 1;
    }
    out
}

/// What can go wrong while extracting a frame from the stream.
#[derive(Clone, Copy, Debug, PartialEq, Eq, Structural)]
pub enum FrameError {
    /// End of stream after at least one header line but before the blank
    /// terminator line.
    TruncatedHeaders,
    /// The header block carries no content-length header.
    MissingContentLength,
    /// The content-length value is not an unsigned decimal integer in range.
    InvalidContentLength,
    /// End of stream before the declared number of body bytes arrived.
    TruncatedBody,
}

/// The outcome of looking for one frame in the buffered stream bytes.
/// `Incomplete` asks the caller for more input; `NoMessage` reports a
/// stream that ended cleanly before any frame began.
pub enum FrameResult<B, N> {
    Incomplete,
    NoMessage,
    Frame { body: B, consumed: N },
    Fail(FrameError),
}

pub open spec fn opt_view(c: Option<Vec<u8>>) -> Option<Seq<u8>> {
    match c {
        None => None,
        Some(v) => Some(v@),
    }
}

pub open spec fn frame_view(r: FrameResult<Vec<u8>, usize>) -> FrameResult<Seq<u8>, int> {
    match r {
        FrameResult::Incomplete => FrameResult::Incomplete,
        FrameResult::NoMessage => FrameResult::NoMessage,
        FrameResult::Frame { body, consumed } => FrameResult::Frame {
            body: body@,
            consumed: consumed as int,
        },
        FrameResult::Fail(e) => FrameResult::Fail(e),
    }
}

/// Once the header block is complete: check the recorded content-length
/// value and take that many body bytes starting at `pos`.
pub open spec fn spec_body(input: Seq<u8>, pos: int, clen: Option<Seq<u8>>, eof: bool) -> FrameResult<
    Seq<u8>,
    int,
>
    recommends
        0 <= pos <= input.len(),
{
    match clen {
        None => FrameResult::Fail(FrameError::MissingContentLength),
        Some(v) => {
            if !(v.len() >= 1 && all_digits(v) && dec_val(v) <= usize::MAX) {
                FrameResult::Fail(FrameError::InvalidContentLength)
            } else if input.len() - pos >= dec_val(v) {
                FrameResult::Frame { body: input.subrange(pos, pos + dec_val(v)), consumed: pos + dec_val(v) }
            } else if eof {
                FrameResult::Fail(FrameError::TruncatedBody)
            } else {
                FrameResult::Incomplete
            }
        },
    }
}

/// The header parser, one text line at a time, from `pos`.
///
/// A line not containing a colon is discarded; one with a colon records a
/// header (the last content-length wins); a blank line ends the block once
/// at least one header was recorded, and is skipped in front of the block.
/// End of stream at a line start is a clean no-message outcome while no
/// header was recorded, and a truncation error afterwards; a final partial
/// line without its line feed is processed like a full line once the
/// stream has ended.
pub open spec fn spec_parse_headers(
    input: Seq<u8>,
    pos: int,
    have_header: bool,
    clen: Option<Seq<u8>>,
    eof: bool,
) -> FrameResult<Seq<u8>, int>
    decreases input.len() - pos,
{
    if !(0 <= pos <= input.len()) {
        FrameResult::Incomplete
    } else {
        let lf = find_from(input, pos, LF);
        let found = pos <= lf < input.len();
        if !found && !eof {
            FrameResult::Incomplete
        } else if !found && pos == input.len() {
            if have_header {
                FrameResult::Fail(FrameError::TruncatedHeaders)
            } else {
                FrameResult::NoMessage
            }
        } else {
            let content_end = if found {
                lf
            } else {
                input.len() as int
            };
            let next = if found {
                lf + 1
            } else {
                input.len() as int
            };
            let trimmed = drop_trailing(input.subrange(pos, content_end), line_end_pred());
            if trimmed.len() == 0 {
                if have_header {
                    spec_body(input, next, clen, eof)
                } else {
                    spec_parse_headers(input, next, false, clen, eof)
                }
            } else {
                let ci = find_from(trimmed, 0, COLON);
                if ci < 0 {
                    spec_parse_headers(input, next, have_header, clen, eof)
                } else {
                    let name = trim_ws(trimmed.subrange(0, ci));
                    let value = trim_ws(trimmed.subrange(ci + 1, trimmed.len() as int));
                    if lower_seq(name) == content_length_name() {
                        spec_parse_headers(input, next, true, Some(value), eof)
                    } else {
                        spec_parse_headers(input, next, true, clen, eof)
                    }
                }
            }
        }
    }
}

/// What `parse_frame` returns on the given stream bytes.
pub open spec fn spec_parse_frame(input: Seq<u8>, eof: bool) -> FrameResult<Seq<u8>, int> {
    spec_parse_headers(input, 0, false, None, eof)
}

/// Shrinks `hi` past any trailing line-terminator bytes of `s[lo..hi]`.
fn trim_line_end(s: &Vec<u8>, lo: usize, hi: usize) -> (r: usize)
    requires
        lo <= hi <= s@.len(),
    ensures
        lo <= r <= hi,
        s@.subrange(lo as int, r as int) == drop_trailing(
            s@.subrange(lo as int, hi as int),
            line_end_pred(),
        ),
{
    let mut h = hi;
    while h > lo && (s[h - 1] == LF || s[h - 1] == CR)
        invariant
            lo <= h <= hi <= s@.len(),
            forall|i: int| h <= i < hi ==> is_line_end(s@[i]),
        decreases h,
    {
        h = h - 1;
    }
    proof {
        let sub = s@.subrange(lo as int, hi as int);
        lemma_drop_trailing_is(sub, line_end_pred(), h - lo);
        assert(sub.subrange(0, h - lo) =~= s@.subrange(lo as int, h as int));
    }
    h
}

/// Index pair delimiting `s[lo..hi]` with surrounding ASCII whitespace
/// removed.
fn trim_range(s: &Vec<u8>, lo: usize, hi: usize) -> (r: (usize, usize))
    requires
        lo <= hi <= s@.len(),
    ensures
        lo <= r.0 <= r.1 <= hi,
        s@.subrange(r.0 as int, r.1 as int) == trim_ws(s@.subrange(lo as int, hi as int)),
{
    let mut h = hi;
    while h > lo && is_ws_byte(s[h - 1])
        invariant
            lo <= h <= hi <= s@.len(),
            forall|i: int| h <= i < hi ==> is_ws(s@[i]),
        decreases h,
    {
        h = h - 1;
    }
    let mut l = lo;
    while l < h && is_ws_byte(s[l])
        invariant
            lo <= l <= h <= s@.len(),
            forall|i: int| lo <= i < l ==> is_ws(s@[i]),
        decreases h - l,
    {
        l = l + 1;
    }
    proof {
        let sub = s@.subrange(lo as int, hi as int);
        lemma_drop_trailing_is(sub, ws_pred(), h - lo);
        let mid = s@.subrange(lo as int, h as int);
        assert(sub.subrange(0, h - lo) =~= mid);
        lemma_drop_leading_is(mid, ws_pred(), l - lo);
        assert(mid.subrange(l - lo, mid.len() as int) =~= s@.subrange(l as int, h as int));
    }
    (l, h)
}

/// ASCII whitespace test for one byte.
fn is_ws_byte(b: u8) -> (r: bool)
    ensures
        r == is_ws(b),
{
    b == 32 || b == 9 || b == 10 || b == 11 || b == 12 || b == 13
}

/// The bytes of `content-length`.
fn content_length_lower_vec() -> (v: Vec<u8>)
    ensures
        v@ == content_length_name(),
{
    let mut v: Vec<u8> = Vec::new();
    v.push(99);
    v.push(111);
    v.push(110);
    v.push(116);
    v.push(101);
    v.push(110);
    v.push(116);
    v.push(45);
    v.push(108);
    v.push(101);
    v.push(110);
    v.push(103);
    v.push(116);
    v.push(104);
    proof {
        assert(v@ =~= content_length_name());
    }
    v
}

/// Whether `s[lo..hi]`, ASCII-lowercased, equals `expect`.
fn eq_lower(s: &Vec<u8>, lo: usize, hi: usize, expect: &Vec<u8>) -> (r: bool)
    requires
        lo <= hi <= s@.len(),
    ensures
        r == (lower_seq(s@.subrange(lo as int, hi as int)) == expect@),
{
    let ghost sub = s@.subrange(lo as int, hi as int);
    if hi - lo != expect.len() {
        proof {
            assert(lower_seq(sub).len() == sub.len());
        }
        return false;
    }
    let mut k: usize = 0;
    while k < expect.len()
        invariant
            lo <= hi <= s@.len(),
            hi - lo == expect@.len(),
            sub == s@.subrange(lo as int, hi as int),
            0 <= k <= expect@.len(),
            forall|i: int| 0 <= i < k ==> lower_seq(sub)[i] == expect@[i],
        decreases expect@.len() - k,
    {
        let c = lower_byte(s[lo + k]);
        proof {
            assert(lower_seq(sub)[k as int] == lower(sub[k as int]));
            assert(sub[k as int] == s@[lo + k]);
        }
        if c != expect[k] {
            proof {
                assert(lower_seq(sub)[k as int] != expect@[k as int]);
            }
            return false;
        }
        k = k + 1;
    }
    proof {
        assert(lower_seq(sub) =~= expect@);
    }
    true
}

/// The body step of `parse_frame`, entered when the header block is done.
fn parse_body(input: &Vec<u8>, pos: usize, clen: Option<Vec<u8>>, eof: bool) -> (r: FrameResult<
    Vec<u8>,
    usize,
>)
    requires
        pos <= input@.len(),
    ensures
        frame_view(r) == spec_body(input@, pos as int, opt_view(clen), eof),
{
    match clen {
        None => FrameResult::Fail(FrameError::MissingContentLength),
        Some(v) => {
            match parse_dec(&v) {
                None => FrameResult::Fail(FrameError::InvalidContentLength),
                Some(len) => {
                    if input.len() - pos >= len {
                        FrameResult::Frame {
                            body: copy_range(input, pos, pos + len),
                            consumed: pos + len,
                        }
                    } else if eof {
                        FrameResult::Fail(FrameError::TruncatedBody)
                    } else {
                        FrameResult::Incomplete
                    }
                },
            }
        },
    }
}

/// Looks for one complete frame at the front of `input`, the bytes read
/// from the stream so far; `eof` says whether the stream has ended.
/// `Frame` reports the body and how many bytes of `input` the frame
/// occupied, for the caller to discard before the next call.
pub fn parse_frame(input: &Vec<u8>, eof: bool) -> (r: FrameResult<Vec<u8>, usize>)
    ensures
        frame_view(r) == spec_parse_frame(input@, eof),
{
    let n = input.len();
    let mut pos: usize = 0;
    let mut have_header = false;
    let mut clen: Option<Vec<u8>> = None;
    loop
        invariant
            0 <= pos <= n,
            n == input@.len(),
            spec_parse_frame(input@, eof) == spec_parse_headers(
                input@,
                pos as int,
                have_header,
                opt_view(clen),
                eof,
            ),
        decreases n - pos + 1,
    {
        let ghost hh0 = have_header;
        let ghost clen0 = opt_view(clen);
        let lf_opt = find_byte(input, pos, n, LF);
        proof {
            match lf_opt {
                Some(i) => lemma_find_from_found(input@, pos as int, LF, i as int),
                None => lemma_find_from_none(input@, pos as int, LF),
            }
        }
        let found = lf_opt.is_some();
        if !found && !eof {
            return FrameResult::Incomplete;
        }
        if !found && pos == n {
            if have_header {
                return FrameResult::Fail(FrameError::TruncatedHeaders);
            }
            return FrameResult::NoMessage;
        }
        let content_end = match lf_opt {
            Some(i) => i,
            None => n,
        };
        let next = match lf_opt {
            Some(i) => i + 1,
            None => n,
        };
        let line_hi = trim_line_end(input, pos, content_end);
        let ghost trimmed = drop_trailing(
            input@.subrange(pos as int, content_end as int),
            line_end_pred(),
        );
        proof {
            assert(trimmed == input@.subrange(pos as int, line_hi as int));
        }
        if line_hi == pos {
            if have_header {
                return parse_body(input, next, clen, eof);
            }
        } else {
            let colon = find_byte(input, pos, line_hi, COLON);
            proof {
                match colon {
                    Some(ci) => {
                        assert(forall|k: int|
                            0 <= k < ci - pos ==> trimmed[k] == input@[pos + k] && input@[pos + k]
                                != COLON);
                        lemma_find_from_found(trimmed, 0, COLON, ci - pos as int);
                    },
                    None => {
                        assert(forall|k: int|
                            0 <= k < trimmed.len() ==> trimmed[k] == input@[pos + k] && input@[pos
                                + k] != COLON);
                        lemma_find_from_none(trimmed, 0, COLON);
                    },
                }
            }
            match colon {
                None => {},
                Some(ci) => {
                    let (nl, nh) = trim_range(input, pos, ci);
                    let (vl, vh) = trim_range(input, ci + 1, line_hi);
                    proof {
                        assert(trimmed.subrange(0, ci - pos as int) =~= input@.subrange(
                            pos as int,
                            ci as int,
                        ));
                        assert(trimmed.subrange(ci + 1 - pos as int, trimmed.len() as int)
                            =~= input@.subrange(ci + 1 as int, line_hi as int));
                    }
                    let cl_expect = content_length_lower_vec();
                    if eq_lower(input, nl, nh, &cl_expect) {
                        clen = Some(copy_range(input, vl, vh));
                    }
                    have_header = true;
                },
            }
        }
        proof {
            assert(spec_parse_headers(input@, pos as int, hh0, clen0, eof) == spec_parse_headers(
                input@,
                next as int,
                have_header,
                opt_view(clen),
                eof,
            ));
        }
        pos = next;
    }
}

/// The full wire form of one message: the length header line, a blank
/// line, then the body bytes.
pub open spec fn frame_bytes(body: Seq<u8>) -> Seq<u8> {
    header_prefix() + dec_bytes(body.len()) + seq![13u8, 10u8, 13u8, 10u8] + body
}

/// The bytes of `Content-Length: `.
fn header_prefix_vec() -> (v: Vec<u8>)
    ensures
        v@ == header_prefix(),
{
    let mut v: Vec<u8> = Vec::new();
    v.push(67);
    v.push(111);
    v.push(110);
    v.push(116);
    v.push(101);
    v.push(110);
    v.push(116);
    v.push(45);
    v.push(76);
    v.push(101);
    v.push(110);
    v.push(103);
    v.push(116);
    v.push(104);
    v.push(58);
    v.push(32);
    proof {
        assert(v@ =~= header_prefix());
    }
    v
}

/// Wraps a serialized body in a length-prefixed frame, ready to be written
/// to the stream and flushed.
pub fn encode_frame(body: &Vec<u8>) -> (r: Vec<u8>)
    ensures
        r@ == frame_bytes(body@),
{
    let mut out = header_prefix_vec();
    let mut digits = u64_to_dec(body.len() as u64);
    out.append(&mut digits);
    out.push(13);
    out.push(10);
    out.push(13);
    out.push(10);
    let ghost head = out@;
    let mut i: usize = 0;
    while i < body.len()
        invariant
            0 <= i <= body@.len(),
            out@ == head + body@.take(i as int),
        decreases body@.len() - i,
    {
        out.push(body[i]);
        proof {
            assert(head + body@.take(i + 1) =~= (head + body@.take(i as int)).push(
                body@[i as int],
            ));
        }
        i = i + 1;
    }
    proof {
        assert(body@.take(body@.len() as int) =~= body@);
        assert(out@ =~= frame_bytes(body@));
    }
    out
}

/// Reading a stream that ended before any bytes arrived yields the
/// explicit no-message outcome, not an error.
pub proof fn lemma_empty_stream_no_message()
    ensures
        spec_parse_frame(Seq::<u8>::empty(), true) == FrameResult::<Seq<u8>, int>::NoMessage,
{
}

/// Framing round trip: a frame encoded for `body` and laid at the front of
/// a stream parses back to exactly `body`, consuming exactly the frame.
pub proof fn lemma_frame_round_trip(body: Seq<u8>, tail: Seq<u8>, eof: bool)
    requires
        body.len() <= usize::MAX,
    ensures
        spec_parse_frame(frame_bytes(body) + tail, eof) == (FrameResult::Frame {
            body: body,
            consumed: frame_bytes(body).len() as int,
        }),
{
    let digits = dec_bytes(body.len());
    crate::decimal::lemma_dec_bytes_ok(body.len());
    let dlen = digits.len() as int;
    let input = frame_bytes(body) + tail;
    let cr1 = 16 + dlen;
    let lf1 = cr1 + 1;
    let cr2 = cr1 + 2;
    let lf2 = cr1 + 3;
    let bodypos = cr1 + 4;

    // where every byte of the input sits
    assert(input.len() == bodypos + body.len() + tail.len());
    assert(forall|k: int| 0 <= k < 16 ==> input[k] == header_prefix()[k]);
    assert(forall|k: int| 0 <= k < dlen ==> input[16 + k] == digits[k]);
    assert(input[cr1] == 13 && input[lf1] == 10 && input[cr2] == 13 && input[lf2] == 10);
    assert(forall|k: int| 0 <= k < body.len() ==> input[bodypos + k] == body[k]);

    // the prefix bytes, pointwise
    assert(forall|k: int|
        0 <= k < 16 ==> header_prefix()[k] != 10 && header_prefix()[k] != 13);
    assert(forall|k: int| 0 <= k < 14 ==> header_prefix()[k] != 58);
    assert(header_prefix()[14] == 58);
    assert(forall|k: int| 0 <= k < dlen ==> is_digit(digits[k]));
    assert(forall|k: int| 0 <= k < dlen ==> digits[k] != 10 && digits[k] != 58 && !is_ws(
        digits[k],
    ));

    // line 1: the first line feed ends the header line
    assert(forall|k: int| 0 <= k < lf1 ==> input[k] != 10);
    lemma_find_from_found(input, 0, 10, lf1);

    let line1 = input.subrange(0, cr1 + 1);
    let trimmed1 = drop_trailing(line1, line_end_pred());
    assert(is_line_end(line1[cr1]));
    assert(!is_line_end(line1[cr1 - 1]));
    lemma_drop_trailing_is(line1, line_end_pred(), cr1);
    let headline = line1.subrange(0, cr1);
    assert(trimmed1 == headline);
    assert(headline.len() == cr1);

    // its colon splits name and value
    assert(headline[14] == 58);
    assert(forall|k: int| 0 <= k < 14 ==> headline[k] != 58);
    lemma_find_from_found(headline, 0, 58, 14);

    // the name is already trimmed, and lowercases to `content-length`
    let name_raw = headline.subrange(0, 14);
    assert(!is_ws(name_raw[13]) && !is_ws(name_raw[0]));
    lemma_drop_trailing_is(name_raw, ws_pred(), 14);
    assert(name_raw.subrange(0, 14) =~= name_raw);
    lemma_drop_leading_is(name_raw, ws_pred(), 0);
    assert(trim_ws(name_raw) == name_raw);
    assert(lower_seq(name_raw) =~= content_length_name());

    // the value is one space then the digits; trimming leaves the digits
    let value_raw = headline.subrange(15, cr1);
    assert(value_raw.len() == dlen + 1);
    assert(value_raw[0] == 32);
    assert(forall|k: int| 0 <= k < dlen ==> value_raw[1 + k] == digits[k]);
    assert(!is_ws(value_raw[value_raw.len() - 1]));
    lemma_drop_trailing_is(value_raw, ws_pred(), value_raw.len() as int);
    assert(value_raw.subrange(0, value_raw.len() as int) =~= value_raw);
    assert(!is_ws(value_raw[1]));
    lemma_drop_leading_is(value_raw, ws_pred(), 1);
    assert(trim_ws(value_raw) =~= digits);

    // after line 1 the parser holds the recorded length
    assert(spec_parse_frame(input, eof) == spec_parse_headers(input, lf1 + 1, true, Some(digits), eof));

    // line 2 is blank: the header block is complete
    assert(input[cr2] != 10);
    lemma_find_from_found(input, cr2, 10, lf2);
    let line2 = input.subrange(cr2, cr2 + 1);
    assert(is_line_end(line2[0]));
    lemma_drop_trailing_is(line2, line_end_pred(), 0);
    assert(drop_trailing(line2, line_end_pred()).len() == 0);
    assert(spec_parse_headers(input, lf1 + 1, true, Some(digits), eof) == spec_body(
        input,
        bodypos,
        Some(digits),
        eof,
    ));

    // the declared length takes exactly the body bytes
    assert(dec_val(digits) == body.len());
    assert(input.len() - bodypos >= body.len());
    assert(input.subrange(bodypos, bodypos + body.len()) =~= body);
    assert(frame_bytes(body).len() == bodypos + body.len());
}

} // verus!


