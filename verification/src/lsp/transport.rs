//! The language server transport's logic: framing of JSON-RPC messages on
//! the server's standard streams (a `Content-Length` header counting the
//! UTF-8 bytes of the body, a blank line, then the body).

use vstd::prelude::*;
use std::collections::HashMap;
use vstd::utf8::{decode_utf8, encode_utf8, valid_utf8};
use crate::lsp::hierarchy::{
    call_de, code_lenses_of, item_de, parse_call_hierarchy_items, parse_code_lenses,
    parse_incoming_calls, parse_outgoing_calls, parse_single_code_lens,
    parse_type_hierarchy_items, records_or_empty, resolved_lens_of,
};
use crate::lsp::json::{as_array, as_str, get, lemma_models, models, Json, JsonValue};
use crate::lsp::parse::{
    code_actions_of, completions_of, diagnostics_of, filter_map, goto_of, hover_text_of,
    inlay_hints_of, lemma_filter_map_step, parse_code_actions, parse_completion_items,
    parse_diagnostics, parse_edit_array, parse_goto_result, parse_hover_content,
    parse_inlay_hints, parse_prepare_rename, parse_progress, parse_references,
    parse_rename_edits, parse_show_message, parse_signature_help, parse_workspace_symbols,
    prepare_rename_of, progress_of, references_of, rename_edits_of, show_message_of,
    signature_help_of, str_member, edit_array_of, workspace_symbols_of,
};
use crate::lsp::symbols::{document_symbols_of, outline_views, parse_document_symbols};
use crate::lsp::tokens::{parse_semantic_tokens, semantic_tokens_of};
use crate::lsp::types::{LspResponse};
use crate::launcher::{find_char_from, find_from, lemma_find_from};
use crate::perf::memory::{lemma_decimal, parse_u64, parse_u64_spec};
use crate::text::{
    ascii_lower_chars, ascii_lower_seq, chars_eq, decimal, fmt_u64, push_str, str_chars,
    string_from_chars, trim, trim_end, trim_start, trimmed,
};

verus! {

// ─── Writing frames ─────────────────────────────────────────────────────────

/// The header of a frame whose body holds `n` bytes, with the blank line
/// that ends it.
pub open spec fn header_text(n: nat) -> Seq<char> {
    "Content-Length: "@ + decimal(n) + "\r\n\r\n"@
}

/// The bytes of the frame that carries `body`.
pub open spec fn frame_bytes(body: Seq<char>) -> Seq<u8> {
    encode_utf8(header_text(encode_utf8(body).len()) + body)
}

/// The frame carrying `content`: its header counts the UTF-8 bytes of the
/// content, not its characters.
pub fn frame_message(content: &str) -> (r: Vec<u8>)
    requires
        encode_utf8(content@).len() <= usize::MAX,
    ensures
        r@ == frame_bytes(content@),
{
    let n = content.len();
    let mut text = String::new();
    push_str(&mut text, "Content-Length: ");
    let digits = fmt_u64(n as u64);
    push_str(&mut text, digits.as_str());
    push_str(&mut text, "\r\n\r\n");
    push_str(&mut text, content);
    let bytes = text.as_str().as_bytes();
    vstd::slice::slice_to_vec(bytes)
}

// ─── Reading frames ─────────────────────────────────────────────────────────

/// Why a frame could not be read.
#[derive(Debug, Clone, Copy, PartialEq, Eq, Structural)]
pub enum FrameError {
    /// A header line is not UTF-8.
    InvalidHeader,
    /// The headers ended without a usable `Content-Length`.
    MissingContentLength,
    /// The stream ended inside the body.
    UnexpectedEof,
    /// The body is not UTF-8.
    InvalidBody,
}

/// The position just past the first line feed at or after `p`, or the end.
pub open spec fn line_end(s: Seq<u8>, p: int) -> int
    decreases s.len() - p,
{
    if p < 0 || p >= s.len() {
        s.len() as int
    } else if s[p] == 10u8 {
        p + 1
    } else {
        line_end(s, p + 1)
    }
}

/// The line starting at `p` is non-empty, ends after its first line feed or at
/// the end of the stream, and holds no other line feed.
pub proof fn lemma_line_end(s: Seq<u8>, p: int)
    requires
        0 <= p < s.len(),
    ensures
        p < line_end(s, p) <= s.len(),
        line_end(s, p) < s.len() ==> s[line_end(s, p) - 1] == 10u8,
        forall|k: int| p <= k < line_end(s, p) - 1 ==> s[k] != 10u8,
    decreases s.len() - p,
{
    if s[p] == 10u8 {
    } else if p + 1 < s.len() {
        lemma_line_end(s, p + 1);
    } else {
        assert(line_end(s, p + 1) == s.len());
    }
}

/// `usize::from_str`: an optional `+`, then decimal digits, within range.
pub open spec fn parse_usize_spec(s: Seq<char>) -> Option<usize> {
    match parse_u64_spec(s) {
        Some(v) => if v <= usize::MAX { Some(v as usize) } else { None },
        None => None,
    }
}

/// The `Content-Length` after header line `line`: a line whose name (the
/// text before its first `:`) is `Content-Length` in any ASCII case sets it
/// to its trimmed value parsed as a number, or unsets it if that fails;
/// other lines leave it as it was.
pub open spec fn content_length_after(line: Seq<char>, current: Option<usize>) -> Option<usize> {
    match find_from(line, ':', 0) {
        Some(k) => if ascii_lower_seq(line.take(k)) == "content-length"@ {
            parse_usize_spec(trimmed(line.skip(k + 1)))
        } else {
            current
        },
        None => current,
    }
}

/// Where reading the headers from `p` stops.
pub enum HeaderScan {
    /// The stream ended (after `int`) before the blank line.
    End(int),
    /// The header line ending at `int` is not UTF-8.
    Invalid(int),
    /// The blank line ends at `int`; the `Content-Length` read so far.
    Done(int, Option<usize>),
}

/// Reading header lines from `p` with `Content-Length` `len` so far. A
/// final line that the stream ends inside still counts as read.
pub open spec fn scan_headers(s: Seq<u8>, p: int, len: Option<usize>) -> HeaderScan
    decreases s.len() - p,
{
    if p < 0 || p >= s.len() {
        HeaderScan::End(s.len() as int)
    } else {
        let q = line_end(s, p);
        let line = s.subrange(p, q);
        proof {
            lemma_line_end(s, p);
        }
        if !valid_utf8(line) {
            HeaderScan::Invalid(q)
        } else if s[q - 1] != 10u8 {
            HeaderScan::End(q)
        } else if decode_utf8(line) == seq!['\r', '\n'] || decode_utf8(line) == seq!['\n'] {
            HeaderScan::Done(q, len)
        } else {
            scan_headers(s, q, content_length_after(decode_utf8(line), len))
        }
    }
}

/// Reading one frame from position `p` of a stream that holds exactly `s`:
/// the outcome (the body; nothing when the stream ends before a frame
/// begins or inside its headers; or an error) and the position reached.
pub open spec fn frame_read(s: Seq<u8>, p: int) -> (Result<Option<Seq<char>>, FrameError>, int) {
    match scan_headers(s, p, None) {
        HeaderScan::End(q) => (Ok(None), q),
        HeaderScan::Invalid(q) => (Err(FrameError::InvalidHeader), q),
        HeaderScan::Done(b, None) => (Err(FrameError::MissingContentLength), b),
        HeaderScan::Done(b, Some(n)) => if b + n > s.len() {
            (Err(FrameError::UnexpectedEof), s.len() as int)
        } else if !valid_utf8(s.subrange(b, b + n)) {
            (Err(FrameError::InvalidBody), b + n)
        } else {
            (Ok(Some(decode_utf8(s.subrange(b, b + n)))), b + n)
        },
    }
}

/// `std::str::from_utf8`: the text of `bytes` when they are well-formed
/// UTF-8 (the standard's definition, as vstd states it), else nothing.
#[verifier::external_body]
pub(crate) fn utf8_text(bytes: &[u8]) -> (r: Option<String>)
    ensures
        r is Some <==> valid_utf8(bytes@),
        r matches Some(t) ==> t@ == decode_utf8(bytes@),
{
    match std::str::from_utf8(bytes) {
        Ok(t) => Some(t.to_string()),
        Err(_) => None,
    }
}

/// `usize::from_str` on characters.
fn parse_usize(s: &[char]) -> (r: Option<usize>)
    ensures
        r == parse_usize_spec(s@),
{
    match parse_u64(s) {
        Some(v) => if v <= usize::MAX as u64 { Some(v as usize) } else { None },
        None => None,
    }
}

/// The `Content-Length` after one header line, as `content_length_after`.
pub fn content_length_after_line(line: &[char], current: Option<usize>) -> (r: Option<usize>)
    ensures
        r == content_length_after(line@, current),
{
    let found = find_char_from(line, ':', 0);
    proof {
        lemma_find_from(line@, ':', 0);
    }
    match found {
        Some(k) => {
            let name = ascii_lower_chars(vstd::slice::slice_subrange(line, 0, k));
            let target = str_chars("content-length");
            assert(line@.subrange(0, k as int) == line@.take(k as int));
            if chars_eq(name.as_slice(), target.as_slice()) {
                assert(k < line@.len());
                assert(k < line.len());
                let value = string_from_chars(vstd::slice::slice_subrange(line, k + 1, line.len()));
                assert(line@.subrange(k + 1, line@.len() as int) == line@.skip(k + 1));
                let t = trim(value.as_str());
                parse_usize(str_chars(t.as_str()).as_slice())
            } else {
                current
            }
        },
        None => current,
    }
}

/// The end of the line that starts at `p`, as `line_end`.
fn find_line_end(s: &[u8], p: usize) -> (q: usize)
    requires
        p < s.len(),
    ensures
        q == line_end(s@, p as int),
{
    let mut i: usize = p;
    while i < s.len() && s[i] != 10u8
        invariant
            p <= i <= s.len(),
            line_end(s@, p as int) == line_end(s@, i as int),
        decreases s.len() - i,
    {
        i = i + 1;
    }
    if i < s.len() { i + 1 } else { i }
}

/// Reads one frame from position `p` of a stream holding exactly `s`, as
/// `frame_read`.
pub fn read_frame_at(s: &[u8], p: usize) -> (r: (Result<Option<String>, FrameError>, usize))
    requires
        p <= s.len(),
    ensures
        r.1 == frame_read(s@, p as int).1,
        match (r.0, frame_read(s@, p as int).0) {
            (Ok(Some(body)), Ok(Some(spec_body))) => body@ == spec_body,
            (Ok(None), Ok(None)) => true,
            (Err(e), Err(spec_e)) => e == spec_e,
            _ => false,
        },
{
    let mut pos: usize = p;
    let mut len: Option<usize> = None;
    let ghost start = scan_headers(s@, p as int, None);
    let mut body_start: usize = 0;
    loop
        invariant_except_break
            pos <= s.len(),
            start == scan_headers(s@, p as int, None),
            scan_headers(s@, p as int, None) == scan_headers(s@, pos as int, len),
        ensures
            body_start <= s.len(),
            scan_headers(s@, p as int, None) == HeaderScan::Done(body_start as int, len),
        decreases s.len() - pos,
    {
        if pos >= s.len() {
            return (Ok(None), s.len());
        }
        let q = find_line_end(s, pos);
        proof {
            lemma_line_end(s@, pos as int);
        }
        let line = vstd::slice::slice_subrange(s, pos, q);
        match utf8_text(line) {
            None => {
                return (Err(FrameError::InvalidHeader), q);
            },
            Some(text) => {
                if s[q - 1] != 10u8 {
                    return (Ok(None), q);
                }
                let chars = str_chars(text.as_str());
                if (chars.len() == 2 && chars[0] == '\r' && chars[1] == '\n') || (chars.len() == 1
                    && chars[0] == '\n') {
                    proof {
                        if chars.len() == 2 {
                            assert(chars@ =~= seq!['\r', '\n']);
                        } else {
                            assert(chars@ =~= seq!['\n']);
                        }
                    }
                    body_start = q;
                    break;
                }
                proof {
                    assert(chars@ != seq!['\r', '\n']) by {
                        if chars@ == seq!['\r', '\n'] {
                            assert(chars@[0] == '\r' && chars@[1] == '\n');
                        }
                    }
                    assert(chars@ != seq!['\n']) by {
                        if chars@ == seq!['\n'] {
                            assert(chars@[0] == '\n');
                        }
                    }
                }
                len = content_length_after_line(chars.as_slice(), len);
                pos = q;
            },
        }
    }
    match len {
        None => (Err(FrameError::MissingContentLength), body_start),
        Some(n) => {
            if n > s.len() - body_start {
                (Err(FrameError::UnexpectedEof), s.len())
            } else {
                let body = vstd::slice::slice_subrange(s, body_start, body_start + n);
                match utf8_text(body) {
                    None => (Err(FrameError::InvalidBody), body_start + n),
                    Some(text) => (Ok(Some(text)), body_start + n),
                }
            }
        },
    }
}

/// An in-memory byte stream read frame by frame.
pub struct FrameCursor {
    bytes: Vec<u8>,
    pos: usize,
}

impl FrameCursor {
    #[verifier::type_invariant]
    spec fn inv(self) -> bool {
        self.pos <= self.bytes.len()
    }

    /// The bytes of the stream.
    pub closed spec fn bytes(self) -> Seq<u8> {
        self.bytes@
    }

    /// How far the stream has been read.
    pub closed spec fn pos(self) -> int {
        self.pos as int
    }

    /// A stream holding `bytes`, read from the start.
    pub fn new(bytes: Vec<u8>) -> (r: Self)
        ensures
            r.bytes() == bytes@,
            r.pos() == 0,
    {
        FrameCursor { bytes, pos: 0 }
    }

    /// Reads the next frame, as `frame_read` from the current position.
    pub fn read_frame(&mut self) -> (r: Result<Option<String>, FrameError>)
        ensures
            final(self).bytes() == old(self).bytes(),
            final(self).pos() == frame_read(old(self).bytes(), old(self).pos()).1,
            match (r, frame_read(old(self).bytes(), old(self).pos()).0) {
                (Ok(Some(body)), Ok(Some(spec_body))) => body@ == spec_body,
                (Ok(None), Ok(None)) => true,
                (Err(e), Err(spec_e)) => e == spec_e,
                _ => false,
            },
    {
        proof {
            use_type_invariant(&*self);
        }
        let (result, next) = read_frame_at(self.bytes.as_slice(), self.pos);
        proof {
            lemma_frame_read_bounds(self.bytes@, self.pos as int);
        }
        self.pos = next;
        result
    }
}

proof fn lemma_scan_bounds(s: Seq<u8>, p: int, len: Option<usize>)
    requires
        0 <= p <= s.len(),
    ensures
        match scan_headers(s, p, len) {
            HeaderScan::End(q) => p <= q <= s.len(),
            HeaderScan::Invalid(q) => p <= q <= s.len(),
            HeaderScan::Done(q, _) => p <= q <= s.len(),
        },
    decreases s.len() - p,
{
    if p < s.len() {
        lemma_line_end(s, p);
        let q = line_end(s, p);
        let line = s.subrange(p, q);
        if valid_utf8(line) && s[q - 1] == 10u8 && !(decode_utf8(line) == seq!['\r', '\n']
            || decode_utf8(line) == seq!['\n']) {
            lemma_scan_bounds(s, q, content_length_after(decode_utf8(line), len));
        }
    }
}

proof fn lemma_frame_read_bounds(s: Seq<u8>, p: int)
    requires
        0 <= p <= s.len(),
    ensures
        p <= frame_read(s, p).1 <= s.len(),
{
    lemma_scan_bounds(s, p, None);
}

// ─── Writing then reading ───────────────────────────────────────────────────

proof fn lemma_encode_concat(a: Seq<char>, b: Seq<char>)
    ensures
        encode_utf8(a + b) == encode_utf8(a) + encode_utf8(b),
    decreases a.len(),
{
    if a.len() == 0 {
        assert(a + b == b);
    } else {
        assert((a + b).drop_first() == a.drop_first() + b);
        lemma_encode_concat(a.drop_first(), b);
    }
}

proof fn lemma_line_end_at(s: Seq<u8>, p: int, q: int)
    requires
        0 <= p < q <= s.len(),
        s[q - 1] == 10u8,
        forall|k: int| p <= k < q - 1 ==> s[k] != 10u8,
    ensures
        line_end(s, p) == q,
    decreases q - p,
{
    if p < q - 1 {
        lemma_line_end_at(s, p + 1, q);
    }
}

/// The first header line of a frame whose body holds `n` bytes.
pub open spec fn length_line(n: nat) -> Seq<char> {
    "Content-Length: "@ + decimal(n) + seq!['\r', '\n']
}

proof fn lemma_length_line(n: nat)
    requires
        n <= usize::MAX,
    ensures
        header_text(n) == length_line(n) + seq!['\r', '\n'],
        length_line(n).len() == 18 + decimal(n).len(),
        vstd::utf8::is_ascii_chars(length_line(n)),
        length_line(n).last() == '\n',
        forall|k: int| 0 <= k < length_line(n).len() - 1 ==> #[trigger] length_line(n)[k] != '\n',
        length_line(n) != seq!['\r', '\n'] && length_line(n) != seq!['\n'],
        content_length_after(length_line(n), None) == Some(n as usize),
{
    let d = decimal(n);
    lemma_decimal(n);
    reveal_strlit("Content-Length: ");
    reveal_strlit("\r\n\r\n");
    reveal_strlit("content-length");
    let h1 = length_line(n);
    assert(header_text(n) =~= h1 + seq!['\r', '\n']);
    assert forall|i: int| 0 <= i < h1.len() implies '\0' <= #[trigger] h1[i] <= '\u{7f}' by {
        if 16 <= i < 16 + d.len() {
            assert(h1[i] == d[i - 16]);
        }
    }
    assert forall|k: int| 0 <= k < h1.len() - 1 implies #[trigger] h1[k] != '\n' by {
        if 16 <= k < 16 + d.len() {
            assert(h1[k] == d[k - 16]);
        }
    }
    assert(h1.len() > 2);
    assert(h1[14] == ':');
    lemma_find_from(h1, ':', 0);
    assert(find_from(h1, ':', 0) == Some(14int));
    assert(ascii_lower_seq(h1.take(14)) =~= "content-length"@);
    let v = h1.skip(15);
    let t = d + seq!['\r', '\n'];
    assert(v =~= seq![' '] + t);
    assert(v.drop_first() =~= t);
    assert(t[0] == d[0]);
    assert(trim_start(v) == trim_start(t));
    assert(trim_start(t) == t);
    assert(t.drop_last() =~= d + seq!['\r']);
    assert((d + seq!['\r']).drop_last() =~= d);
    assert(d.last() == d[d.len() - 1]);
    assert(trim_end(t) == trim_end(d + seq!['\r']));
    assert(trim_end(d + seq!['\r']) == trim_end(d));
    assert(trim_end(d) == d);
    assert(trimmed(v) == d);
    assert(parse_u64_spec(d) == Some(n as u64));
}

/// A frame written for `body` reads back as `body`, whatever the stream
/// holds after it, and reading stops right at its end.
pub proof fn lemma_frame_roundtrip(body: Seq<char>, rest: Seq<u8>)
    requires
        encode_utf8(body).len() <= usize::MAX,
    ensures
        frame_read(frame_bytes(body) + rest, 0) == (
            Ok::<Option<Seq<char>>, FrameError>(Some(body)),
            frame_bytes(body).len() as int,
        ),
{
    lemma_frame_read_after(Seq::empty(), body, rest);
    assert(Seq::<u8>::empty() + frame_bytes(body) + rest =~= frame_bytes(body) + rest);
}

/// A frame that starts after any bytes `pre` reads back as its body when
/// reading starts where it starts, and reading stops right at its end.
#[verifier::rlimit(60)]
proof fn lemma_frame_read_after(pre: Seq<u8>, body: Seq<char>, rest: Seq<u8>)
    requires
        encode_utf8(body).len() <= usize::MAX,
    ensures
        frame_read(pre + frame_bytes(body) + rest, pre.len() as int) == (
            Ok::<Option<Seq<char>>, FrameError>(Some(body)),
            (pre.len() + frame_bytes(body).len()) as int,
        ),
{
    let n = encode_utf8(body).len();
    lemma_length_line(n);
    let h1 = length_line(n);
    let h2 = seq!['\r', '\n'];
    let h = header_text(n);
    assert(vstd::utf8::is_ascii_chars(h2));
    vstd::utf8::is_ascii_chars_encode_utf8(h1);
    vstd::utf8::is_ascii_chars_encode_utf8(h2);
    lemma_encode_concat(h, body);
    lemma_encode_concat(h1, h2);
    let e1 = encode_utf8(h1);
    let e2 = encode_utf8(h2);
    let eb = encode_utf8(body);
    let s = pre + frame_bytes(body) + rest;
    let p = pre.len() as int;
    assert(s =~= pre + e1 + e2 + eb + rest);
    let l1 = h1.len() as int;
    // The first line: the Content-Length header.
    assert forall|k: int| p <= k < p + l1 - 1 implies s[k] != 10u8 by {
        assert(s[k] == e1[k - p]);
        assert(h1[k - p] != '\n');
    }
    assert(s[p + l1 - 1] == e1[l1 - 1]);
    lemma_line_end_at(s, p, p + l1);
    assert(s.subrange(p, p + l1) =~= e1);
    vstd::utf8::encode_utf8_valid_utf8(h1);
    vstd::utf8::encode_utf8_decode_utf8(h1);
    // The second line: the blank line.
    assert(s[p + l1] == e2[0] && s[p + l1 + 1] == e2[1]);
    lemma_line_end_at(s, p + l1, p + l1 + 2);
    assert(s.subrange(p + l1, p + l1 + 2) =~= e2);
    vstd::utf8::encode_utf8_valid_utf8(h2);
    vstd::utf8::encode_utf8_decode_utf8(h2);
    let b = p + l1 + 2;
    assert(scan_headers(s, p + l1, Some(n as usize)) == HeaderScan::Done(b, Some(n as usize)));
    assert(scan_headers(s, p, None) == HeaderScan::Done(b, Some(n as usize)));
    // The body.
    assert(s.subrange(b, b + n) =~= eb);
    vstd::utf8::encode_utf8_valid_utf8(body);
    vstd::utf8::encode_utf8_decode_utf8(body);
    assert(frame_bytes(body).len() == l1 + 2 + n);
}

/// The bytes of the frames carrying `bodies`, one after another.
pub open spec fn frames_bytes(bodies: Seq<Seq<char>>) -> Seq<u8>
    decreases bodies.len(),
{
    if bodies.len() == 0 {
        Seq::empty()
    } else {
        frames_bytes(bodies.drop_last()) + frame_bytes(bodies.last())
    }
}

/// Where the frame of `bodies[i]` starts in `frames_bytes(bodies)`.
pub open spec fn frame_start(bodies: Seq<Seq<char>>, i: int) -> int {
    frames_bytes(bodies.take(i)).len() as int
}

proof fn lemma_frames_bytes_concat(a: Seq<Seq<char>>, b: Seq<Seq<char>>)
    ensures
        frames_bytes(a + b) == frames_bytes(a) + frames_bytes(b),
    decreases b.len(),
{
    if b.len() == 0 {
        assert(a + b =~= a);
        assert(frames_bytes(a) + frames_bytes(b) =~= frames_bytes(a));
    } else {
        assert((a + b).drop_last() =~= a + b.drop_last());
        lemma_frames_bytes_concat(a, b.drop_last());
        assert(frames_bytes(a) + frames_bytes(b) =~= frames_bytes(a) + frames_bytes(
            b.drop_last(),
        ) + frame_bytes(b.last()));
    }
}

/// Frames written one after another read back in turn: reading from where
/// the frame of `bodies[i]` starts gives `bodies[i]` and stops where the
/// next frame starts, and reading at the end of the stream gives nothing.
pub proof fn lemma_frames_read_in_turn(bodies: Seq<Seq<char>>)
    requires
        forall|i: int| 0 <= i < bodies.len() ==> encode_utf8(#[trigger] bodies[i]).len() <= usize::MAX,
    ensures
        forall|i: int|
            0 <= i < bodies.len() ==> #[trigger] frame_read(frames_bytes(bodies), frame_start(bodies, i))
                == (Ok::<Option<Seq<char>>, FrameError>(Some(bodies[i])), frame_start(bodies, i + 1)),
        frame_read(frames_bytes(bodies), frames_bytes(bodies).len() as int) == (
            Ok::<Option<Seq<char>>, FrameError>(None),
            frames_bytes(bodies).len() as int,
        ),
{
    assert forall|i: int| 0 <= i < bodies.len() implies #[trigger] frame_read(
        frames_bytes(bodies),
        frame_start(bodies, i),
    ) == (Ok::<Option<Seq<char>>, FrameError>(Some(bodies[i])), frame_start(bodies, i + 1)) by {
        let before = bodies.take(i);
        let after = bodies.skip(i + 1);
        let one = seq![bodies[i]];
        assert(bodies =~= before + one + after);
        assert(bodies.take(i + 1) =~= before + one);
        lemma_frames_bytes_concat(before + one, after);
        lemma_frames_bytes_concat(before, one);
        assert(one.drop_last() =~= Seq::<Seq<char>>::empty());
        assert(frames_bytes(one.drop_last()) =~= Seq::<u8>::empty());
        assert(one.last() == bodies[i]);
        assert(frames_bytes(one) =~= frame_bytes(bodies[i]));
        lemma_frame_read_after(frames_bytes(before), bodies[i], frames_bytes(after));
    }
}

// ─── Correlating responses with requests ────────────────────────────────────

/// What a pending request asked for, with the caller's correlation id.
#[derive(Debug)]
pub enum RequestKind {
    Initialize,
    Completion(u64),
    Hover(u64),
    GotoDefinition(u64),
    References(u64),
    PrepareRename(u64),
    Rename(u64),
    Format(u64),
    RangeFormat(u64),
    InlayHint(u64),
    SignatureHelp(u64),
    WorkspaceSymbol(u64),
    CodeAction(u64),
    Shutdown,
    DocumentSymbol { id: u64, path: String },
    CodeLens(u64),
    CodeLensResolve(u64),
    SemanticTokensFull(u64),
    SemanticTokensRange(u64),
    PrepareCallHierarchy(u64),
    IncomingCalls(u64),
    OutgoingCalls(u64),
    PrepareTypeHierarchy(u64),
    Supertypes(u64),
    Subtypes(u64),
    ExecuteCommand(u64),
}

/// What one inbound message means to the transport.
#[derive(Debug)]
pub enum ParsedMessage {
    Response(LspResponse),
    Initialized { token_types: Vec<String> },
    ShutdownAcknowledged,
    Ignored,
}

/// The semantic-token legend the server announced when it initialized.
#[derive(Debug)]
pub struct Legends {
    pub token_types: Vec<String>,
    pub token_modifiers: Vec<String>,
}

impl Legends {
    /// No legend yet.
    pub fn new() -> (r: Self)
        ensures
            r.token_types@.len() == 0,
            r.token_modifiers@.len() == 0,
    {
        Legends { token_types: Vec::new(), token_modifiers: Vec::new() }
    }
}

/// The caller's correlation id of a request kind; the lifecycle requests
/// have none.
pub open spec fn caller_id(k: RequestKind) -> Option<u64> {
    match k {
        RequestKind::Initialize => None,
        RequestKind::Shutdown => None,
        RequestKind::Completion(id) => Some(id),
        RequestKind::Hover(id) => Some(id),
        RequestKind::GotoDefinition(id) => Some(id),
        RequestKind::References(id) => Some(id),
        RequestKind::PrepareRename(id) => Some(id),
        RequestKind::Rename(id) => Some(id),
        RequestKind::Format(id) => Some(id),
        RequestKind::RangeFormat(id) => Some(id),
        RequestKind::InlayHint(id) => Some(id),
        RequestKind::SignatureHelp(id) => Some(id),
        RequestKind::WorkspaceSymbol(id) => Some(id),
        RequestKind::CodeAction(id) => Some(id),
        RequestKind::DocumentSymbol { id, .. } => Some(id),
        RequestKind::CodeLens(id) => Some(id),
        RequestKind::CodeLensResolve(id) => Some(id),
        RequestKind::SemanticTokensFull(id) => Some(id),
        RequestKind::SemanticTokensRange(id) => Some(id),
        RequestKind::PrepareCallHierarchy(id) => Some(id),
        RequestKind::IncomingCalls(id) => Some(id),
        RequestKind::OutgoingCalls(id) => Some(id),
        RequestKind::PrepareTypeHierarchy(id) => Some(id),
        RequestKind::Supertypes(id) => Some(id),
        RequestKind::Subtypes(id) => Some(id),
        RequestKind::ExecuteCommand(id) => Some(id),
    }
}

/// The strings of array member `key` of the announced legend.
pub open spec fn legend_strings(result: Json, key: Seq<char>) -> Seq<Seq<char>> {
    let legend = match get(result, "capabilities"@) {
        Some(c) => match get(c, "semanticTokensProvider"@) {
            Some(st) => get(st, "legend"@),
            None => None,
        },
        None => None,
    };
    match legend {
        Some(l) => match get(l, key) {
            Some(t) => match as_array(t) {
                Some(a) => filter_map(a, |x: Json| as_str(x)),
                None => Seq::empty(),
            },
            None => Seq::empty(),
        },
        None => Seq::empty(),
    }
}

/// The edits of a formatting result.
pub open spec fn format_edits_of(result: Json) -> Seq<crate::lsp::types::EditView> {
    match as_array(result) {
        Some(a) => edit_array_of(a),
        None => Seq::empty(),
    }
}

/// `r` answers a request of kind `kind` whose result is `result`: the
/// response of the kind's shape, carrying the caller's id, with the result
/// read as that kind's reader reads it.
pub open spec fn answers(
    r: ParsedMessage,
    kind: RequestKind,
    result: Json,
    types: Seq<Seq<char>>,
    mods: Seq<Seq<char>>,
) -> bool {
    match kind {
        RequestKind::Initialize => r matches ParsedMessage::Initialized { token_types }
            && token_types.deep_view() == legend_strings(result, "tokenTypes"@),
        RequestKind::Shutdown => r is ShutdownAcknowledged,
        RequestKind::Completion(id) => r matches ParsedMessage::Response(
            LspResponse::CompletionList { id: i, items },
        ) && i == id && items.deep_view() == completions_of(result),
        RequestKind::Hover(id) => r matches ParsedMessage::Response(
            LspResponse::HoverResult { id: i, content },
        ) && i == id && content@ == hover_text_of(result),
        RequestKind::GotoDefinition(id) => match goto_of(result) {
            Some(g) => r matches ParsedMessage::Response(
                LspResponse::GotoResult { id: i, path, line, col },
            ) && i == id && path@ == g.0 && line == g.1 && col == g.2,
            None => r matches ParsedMessage::Response(LspResponse::GotoNone { id: i }) && i == id,
        },
        RequestKind::References(id) => r matches ParsedMessage::Response(
            LspResponse::ReferencesResult { id: i, locations },
        ) && i == id && locations.deep_view() == references_of(result),
        RequestKind::PrepareRename(id) => r matches ParsedMessage::Response(
            LspResponse::PrepareRenameResult { id: i, range },
        ) && i == id && range == prepare_rename_of(result),
        RequestKind::Rename(id) => r matches ParsedMessage::Response(
            LspResponse::RenameResult { id: i, edits },
        ) && i == id && edits.deep_view() == rename_edits_of(result),
        RequestKind::DocumentSymbol { id, path } => r matches ParsedMessage::Response(
            LspResponse::SymbolList { id: i, path: p, symbols },
        ) && i == id && p@ == path@ && outline_views(symbols@) == document_symbols_of(result),
        RequestKind::Format(id) => r matches ParsedMessage::Response(
            LspResponse::FormatResult { id: i, edits },
        ) && i == id && edits.deep_view() == format_edits_of(result),
        RequestKind::RangeFormat(id) => r matches ParsedMessage::Response(
            LspResponse::FormatResult { id: i, edits },
        ) && i == id && edits.deep_view() == format_edits_of(result),
        RequestKind::InlayHint(id) => r matches ParsedMessage::Response(
            LspResponse::InlayHintResult { id: i, hints },
        ) && i == id && hints.deep_view() == inlay_hints_of(result),
        RequestKind::SignatureHelp(id) => r matches ParsedMessage::Response(
            LspResponse::SignatureHelpResult { id: i, active },
        ) && i == id && active.deep_view() == signature_help_of(result),
        RequestKind::WorkspaceSymbol(id) => r matches ParsedMessage::Response(
            LspResponse::WorkspaceSymbolResult { id: i, symbols },
        ) && i == id && symbols.deep_view() == workspace_symbols_of(result),
        RequestKind::CodeAction(id) => r matches ParsedMessage::Response(
            LspResponse::CodeActionResult { id: i, actions },
        ) && i == id && actions.deep_view() == code_actions_of(result),
        RequestKind::CodeLens(id) => r matches ParsedMessage::Response(
            LspResponse::CodeLensResult { id: i, lenses },
        ) && i == id && lenses.deep_view() == code_lenses_of(result),
        RequestKind::CodeLensResolve(id) => r matches ParsedMessage::Response(
            LspResponse::CodeLensResult { id: i, lenses },
        ) && i == id && lenses.deep_view() == resolved_lens_of(result),
        RequestKind::SemanticTokensFull(id) => r matches ParsedMessage::Response(
            LspResponse::SemanticTokensResult { id: i, tokens },
        ) && i == id && tokens.deep_view() == semantic_tokens_of(result, types, mods),
        RequestKind::SemanticTokensRange(id) => r matches ParsedMessage::Response(
            LspResponse::SemanticTokensResult { id: i, tokens },
        ) && i == id && tokens.deep_view() == semantic_tokens_of(result, types, mods),
        RequestKind::PrepareCallHierarchy(id) => r matches ParsedMessage::Response(
            LspResponse::CallHierarchyPrepareResult { id: i, items },
        ) && i == id && items.deep_view() == records_or_empty(result, |x: Json| item_de(x)),
        RequestKind::IncomingCalls(id) => r matches ParsedMessage::Response(
            LspResponse::IncomingCallsResult { id: i, calls },
        ) && i == id && calls.deep_view() == records_or_empty(
            result,
            |x: Json| call_de(x, "from"@),
        ),
        RequestKind::OutgoingCalls(id) => r matches ParsedMessage::Response(
            LspResponse::OutgoingCallsResult { id: i, calls },
        ) && i == id && calls.deep_view() == records_or_empty(result, |x: Json| call_de(x, "to"@)),
        RequestKind::PrepareTypeHierarchy(id) => r matches ParsedMessage::Response(
            LspResponse::TypeHierarchyPrepareResult { id: i, items },
        ) && i == id && items.deep_view() == records_or_empty(result, |x: Json| item_de(x)),
        RequestKind::Supertypes(id) => r matches ParsedMessage::Response(
            LspResponse::SupertypesResult { id: i, items },
        ) && i == id && items.deep_view() == records_or_empty(result, |x: Json| item_de(x)),
        RequestKind::Subtypes(id) => r matches ParsedMessage::Response(
            LspResponse::SubtypesResult { id: i, items },
        ) && i == id && items.deep_view() == records_or_empty(result, |x: Json| item_de(x)),
        RequestKind::ExecuteCommand(id) => r matches ParsedMessage::Response(
            LspResponse::RenameResult { id: i, edits },
        ) && i == id && edits@.len() == 0,
    }
}

/// `r` reports a failed request of kind `kind` with error text `message`:
/// a failed initialize means the server is unavailable, a failed shutdown
/// still ends the session, any other failure is an error for the caller.
pub open spec fn reports_error(r: ParsedMessage, kind: RequestKind, message: Seq<char>) -> bool {
    match kind {
        RequestKind::Initialize => r matches ParsedMessage::Response(
            LspResponse::ServerUnavailable { message: m },
        ) && m@ == "rust-analyzer not found \u{2014} LSP disabled"@,
        RequestKind::Shutdown => r is ShutdownAcknowledged,
        _ => r matches ParsedMessage::Response(LspResponse::Error { id: i, message: m })
            && Some(i) == caller_id(kind) && m@ == message,
    }
}

/// `r` is what a server notification `method` turns into.
pub open spec fn notification_result(r: ParsedMessage, value: Json, method: Seq<char>) -> bool {
    if method == "textDocument/publishDiagnostics"@ {
        match diagnostics_of(value) {
            Some(d) => r matches ParsedMessage::Response(
                LspResponse::Diagnostics { path, diagnostics },
            ) && path@ == d.0 && diagnostics.deep_view() == d.1,
            None => r is Ignored,
        }
    } else if method == "$/progress"@ {
        match progress_of(value) {
            Some(p) => r matches ParsedMessage::Response(
                LspResponse::Progress { token, kind, title, message, percentage },
            ) && token@ == p.0 && kind == p.1 && title@ == p.2 && message.deep_view() == p.3
                && percentage == p.4,
            None => r is Ignored,
        }
    } else if method == "window/showMessage"@ {
        match show_message_of(value) {
            Some(m) => r matches ParsedMessage::Response(
                LspResponse::ServerMessage { level, message },
            ) && level == m.0 && message@ == m.1,
            None => r is Ignored,
        }
    } else {
        r is Ignored
    }
}

/// The text of a response's `error`, or a fixed text when it has none.
pub open spec fn error_text(error: Json) -> Seq<char> {
    match str_field_of(error, "message"@) {
        Some(m) => m,
        None => "LSP request failed"@,
    }
}

/// Member `key` read as a string.
pub open spec fn str_field_of(j: Json, key: Seq<char>) -> Option<Seq<char>> {
    match get(j, key) {
        Some(v) => as_str(v),
        None => None,
    }
}

fn read_legend(result: &JsonValue, key: &str) -> (r: Vec<String>)
    ensures
        r.deep_view() == legend_strings(result.model(), key@),
{
    let legend = match result.get("capabilities") {
        Some(c) => match c.get("semanticTokensProvider") {
            Some(st) => st.get("legend"),
            None => None,
        },
        None => None,
    };
    let mut out: Vec<String> = Vec::new();
    let array = match legend {
        Some(l) => match l.get(key) {
            Some(t) => match t.as_array() {
                Some(a) => a,
                None => return out,
            },
            None => return out,
        },
        None => return out,
    };
    let ghost a = models(array@);
    let ghost f = |x: Json| as_str(x);
    proof {
        lemma_models(array@);
    }
    let mut i: usize = 0;
    while i < array.len()
        invariant
            a == models(array@),
            a.len() == array@.len(),
            forall|k: int| 0 <= k < array@.len() ==> #[trigger] a[k] == array@[k].model(),
            f == (|x: Json| as_str(x)),
            i <= array.len(),
            out.deep_view() == filter_map(a.take(i as int), f),
        decreases array.len() - i,
    {
        proof {
            lemma_filter_map_step(a, i as int, f);
        }
        let ghost before = out.deep_view();
        match array[i].as_str() {
            Some(s) => {
                out.push(s.clone());
                assert(out.deep_view() =~= before.push(as_str(a[i as int]).unwrap()));
            },
            None => {},
        }
        i = i + 1;
    }
    assert(a.take(array.len() as int) == a);
    out
}

fn copy_strings(v: &Vec<String>) -> (r: Vec<String>)
    ensures
        r.deep_view() == v.deep_view(),
{
    let mut out: Vec<String> = Vec::new();
    let mut i: usize = 0;
    while i < v.len()
        invariant
            i <= v.len(),
            out.deep_view() == v.deep_view().take(i as int),
        decreases v.len() - i,
    {
        let ghost before = out.deep_view();
        let c = v[i].clone();
        assert(c@ == v.deep_view()[i as int]);
        out.push(c);
        assert(out.deep_view() =~= before.push(c@));
        assert(v.deep_view().take(i + 1) =~= v.deep_view().take(i as int).push(v.deep_view()[i as int]));
        i = i + 1;
    }
    assert(v.deep_view().take(v.len() as int) =~= v.deep_view());
    out
}

/// The answer to a request of kind `kind` with result `result`, as
/// `answers`; an initialize result also sets the legends.
fn answer(kind: RequestKind, result: &JsonValue, legends: &mut Legends) -> (r: ParsedMessage)
    ensures
        answers(
            r,
            kind,
            result.model(),
            old(legends).token_types.deep_view(),
            old(legends).token_modifiers.deep_view(),
        ),
        legends_after(kind, result.model(), *old(legends), *final(legends)),
{
    match kind {
        RequestKind::Initialize => {
            let token_types = read_legend(result, "tokenTypes");
            let token_modifiers = read_legend(result, "tokenModifiers");
            legends.token_types = copy_strings(&token_types);
            legends.token_modifiers = token_modifiers;
            ParsedMessage::Initialized { token_types }
        },
        RequestKind::Shutdown => ParsedMessage::ShutdownAcknowledged,
        RequestKind::Completion(id) => ParsedMessage::Response(
            LspResponse::CompletionList { id, items: parse_completion_items(result) },
        ),
        RequestKind::Hover(id) => ParsedMessage::Response(
            LspResponse::HoverResult { id, content: parse_hover_content(result) },
        ),
        RequestKind::GotoDefinition(id) => match parse_goto_result(result) {
            Some((path, line, col)) => ParsedMessage::Response(
                LspResponse::GotoResult { id, path, line, col },
            ),
            None => ParsedMessage::Response(LspResponse::GotoNone { id }),
        },
        RequestKind::References(id) => ParsedMessage::Response(
            LspResponse::ReferencesResult { id, locations: parse_references(result) },
        ),
        RequestKind::PrepareRename(id) => ParsedMessage::Response(
            LspResponse::PrepareRenameResult { id, range: parse_prepare_rename(result) },
        ),
        RequestKind::Rename(id) => ParsedMessage::Response(
            LspResponse::RenameResult { id, edits: parse_rename_edits(result) },
        ),
        RequestKind::DocumentSymbol { id, path } => ParsedMessage::Response(
            LspResponse::SymbolList { id, path, symbols: parse_document_symbols(result) },
        ),
        RequestKind::Format(id) | RequestKind::RangeFormat(id) => {
            let edits = match result.as_array() {
                Some(a) => parse_edit_array(a),
                None => {
                    let v: Vec<crate::lsp::types::TextEdit> = Vec::new();
                    assert(v.deep_view() =~= Seq::<crate::lsp::types::EditView>::empty());
                    v
                },
            };
            ParsedMessage::Response(LspResponse::FormatResult { id, edits })
        },
        RequestKind::InlayHint(id) => ParsedMessage::Response(
            LspResponse::InlayHintResult { id, hints: parse_inlay_hints(result) },
        ),
        RequestKind::SignatureHelp(id) => ParsedMessage::Response(
            LspResponse::SignatureHelpResult { id, active: parse_signature_help(result) },
        ),
        RequestKind::WorkspaceSymbol(id) => ParsedMessage::Response(
            LspResponse::WorkspaceSymbolResult { id, symbols: parse_workspace_symbols(result) },
        ),
        RequestKind::CodeAction(id) => ParsedMessage::Response(
            LspResponse::CodeActionResult { id, actions: parse_code_actions(result) },
        ),
        RequestKind::CodeLens(id) => ParsedMessage::Response(
            LspResponse::CodeLensResult { id, lenses: parse_code_lenses(result) },
        ),
        RequestKind::CodeLensResolve(id) => ParsedMessage::Response(
            LspResponse::CodeLensResult { id, lenses: parse_single_code_lens(result) },
        ),
        RequestKind::SemanticTokensFull(id) | RequestKind::SemanticTokensRange(id) => {
            let tokens = parse_semantic_tokens(
                result,
                legends.token_types.as_slice(),
                legends.token_modifiers.as_slice(),
            );
            ParsedMessage::Response(LspResponse::SemanticTokensResult { id, tokens })
        },
        RequestKind::PrepareCallHierarchy(id) => ParsedMessage::Response(
            LspResponse::CallHierarchyPrepareResult {
                id,
                items: parse_call_hierarchy_items(result),
            },
        ),
        RequestKind::IncomingCalls(id) => ParsedMessage::Response(
            LspResponse::IncomingCallsResult { id, calls: parse_incoming_calls(result) },
        ),
        RequestKind::OutgoingCalls(id) => ParsedMessage::Response(
            LspResponse::OutgoingCallsResult { id, calls: parse_outgoing_calls(result) },
        ),
        RequestKind::PrepareTypeHierarchy(id) => ParsedMessage::Response(
            LspResponse::TypeHierarchyPrepareResult {
                id,
                items: parse_type_hierarchy_items(result),
            },
        ),
        RequestKind::Supertypes(id) => ParsedMessage::Response(
            LspResponse::SupertypesResult { id, items: parse_type_hierarchy_items(result) },
        ),
        RequestKind::Subtypes(id) => ParsedMessage::Response(
            LspResponse::SubtypesResult { id, items: parse_type_hierarchy_items(result) },
        ),
        RequestKind::ExecuteCommand(id) => ParsedMessage::Response(
            LspResponse::RenameResult { id, edits: Vec::new() },
        ),
    }
}

/// The failure report for a request of kind `kind`, as `reports_error`.
fn report_error(kind: RequestKind, message: String) -> (r: ParsedMessage)
    ensures
        reports_error(r, kind, message@),
{
    match kind {
        RequestKind::Initialize => {
            let m = crate::text::owned("rust-analyzer not found \u{2014} LSP disabled");
            ParsedMessage::Response(LspResponse::ServerUnavailable { message: m })
        },
        RequestKind::Shutdown => ParsedMessage::ShutdownAcknowledged,
        RequestKind::Completion(id) | RequestKind::Hover(id) | RequestKind::GotoDefinition(id)
        | RequestKind::References(id) | RequestKind::PrepareRename(id) | RequestKind::Rename(id)
        | RequestKind::Format(id) | RequestKind::RangeFormat(id) | RequestKind::InlayHint(id)
        | RequestKind::SignatureHelp(id) | RequestKind::WorkspaceSymbol(id)
        | RequestKind::CodeAction(id) | RequestKind::DocumentSymbol { id, .. }
        | RequestKind::CodeLens(id) | RequestKind::CodeLensResolve(id)
        | RequestKind::SemanticTokensFull(id) | RequestKind::SemanticTokensRange(id)
        | RequestKind::PrepareCallHierarchy(id) | RequestKind::IncomingCalls(id)
        | RequestKind::OutgoingCalls(id) | RequestKind::PrepareTypeHierarchy(id)
        | RequestKind::Supertypes(id) | RequestKind::Subtypes(id)
        | RequestKind::ExecuteCommand(id) => ParsedMessage::Response(
            LspResponse::Error { id, message },
        ),
    }
}

/// The legends after answering a request of kind `kind` with `result`: an
/// initialize result sets them, anything else keeps them.
pub open spec fn legends_after(kind: RequestKind, result: Json, before: Legends, after: Legends) -> bool {
    if kind is Initialize {
        &&& after.token_types.deep_view() == legend_strings(result, "tokenTypes"@)
        &&& after.token_modifiers.deep_view() == legend_strings(result, "tokenModifiers"@)
    } else {
        after == before
    }
}

/// The effect of one inbound message `message` (none when its body is not
/// JSON): the parsed message `r`, the pending requests before and after,
/// the legends before and after.
pub open spec fn message_outcome(
    message: Option<Json>,
    r: ParsedMessage,
    pending0: Map<u64, RequestKind>,
    pending1: Map<u64, RequestKind>,
    legends0: Legends,
    legends1: Legends,
) -> bool {
    let unchanged = pending1 == pending0 && legends1 == legends0;
    match message {
        None => r is Ignored && unchanged,
        Some(v) => match str_field_of(v, "method"@) {
            Some(method) => notification_result(r, v, method) && unchanged,
            None => match get(v, "id"@) {
                Some(idv) => match crate::lsp::json::as_u64(idv) {
                    Some(wire_id) => if pending0.contains_key(wire_id) {
                        let kind = pending0[wire_id];
                        &&& pending1 == pending0.remove(wire_id)
                        &&& match get(v, "error"@) {
                            Some(e) => reports_error(r, kind, error_text(e)) && legends1 == legends0,
                            None => {
                                let result = match get(v, "result"@) {
                                    Some(x) => x,
                                    None => Json::Null,
                                };
                                &&& answers(
                                    r,
                                    kind,
                                    result,
                                    legends0.token_types.deep_view(),
                                    legends0.token_modifiers.deep_view(),
                                )
                                &&& legends_after(kind, result, legends0, legends1)
                            },
                        }
                    } else {
                        r is Ignored && unchanged
                    },
                    None => r is Ignored && unchanged,
                },
                None => r is Ignored && unchanged,
            },
        },
    }
}

/// Interprets one inbound message (`None` when its body is not JSON), as
/// `message_outcome`.
///
/// A notification (a message with a string `method`) becomes the response
/// of its method, and pending requests stay as they are. Otherwise the
/// message answers the pending request whose wire id it carries: that
/// request leaves `pending`, and the message becomes its error report (when
/// it has an `error`) or its answer (its `result`, `null` when absent). A
/// message whose id is absent or not pending is ignored.
pub fn parse_lsp_message(
    message: Option<&JsonValue>,
    pending: &mut HashMap<u64, RequestKind>,
    legends: &mut Legends,
) -> (r: ParsedMessage)
    ensures
        message_outcome(
            crate::lsp::json::opt_model(message),
            r,
            old(pending)@,
            final(pending)@,
            *old(legends),
            *final(legends),
        ),
{
    broadcast use vstd::std_specs::hash::group_hash_axioms;

    let value = match message {
        Some(v) => v,
        None => return ParsedMessage::Ignored,
    };
    match str_member(value, "method") {
        Some(method) => {
            let m = method.as_str();
            if crate::text::str_eq(m, "textDocument/publishDiagnostics") {
                return match parse_diagnostics(value) {
                    Some((path, diagnostics)) => ParsedMessage::Response(
                        LspResponse::Diagnostics { path, diagnostics },
                    ),
                    None => ParsedMessage::Ignored,
                };
            } else if crate::text::str_eq(m, "$/progress") {
                return match parse_progress(value) {
                    Some((token, kind, title, message, percentage)) => ParsedMessage::Response(
                        LspResponse::Progress { token, kind, title, message, percentage },
                    ),
                    None => ParsedMessage::Ignored,
                };
            } else if crate::text::str_eq(m, "window/showMessage") {
                return match parse_show_message(value) {
                    Some((level, message)) => ParsedMessage::Response(
                        LspResponse::ServerMessage { level, message },
                    ),
                    None => ParsedMessage::Ignored,
                };
            } else {
                return ParsedMessage::Ignored;
            }
        },
        None => {},
    }
    let wire_id = match value.get("id") {
        Some(idv) => match idv.as_u64() {
            Some(n) => n,
            None => return ParsedMessage::Ignored,
        },
        None => return ParsedMessage::Ignored,
    };
    let kind = match pending.remove(&wire_id) {
        Some(k) => k,
        None => {
            assert(pending@ =~= old(pending)@);
            return ParsedMessage::Ignored;
        },
    };
    match value.get("error") {
        Some(error) => {
            let message = match str_member(error, "message") {
                Some(m) => m,
                None => crate::text::owned("LSP request failed"),
            };
            return report_error(kind, message);
        },
        None => {},
    }
    let null = JsonValue::Null;
    let result = match value.get("result") {
        Some(x) => x,
        None => &null,
    };
    answer(kind, result, legends)
}

} // verus!
