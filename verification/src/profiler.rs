//! The profiler panel's run status, the events its profiling process
//! reports, and the colour key of a flame-graph frame. The process, the
//! SVG and the drawing stay with the caller; times are nanoseconds.

use vstd::prelude::*;
use vstd::utf8::{decode_utf8, encode_utf8, valid_utf8};
use crate::perf::memory::{parse_u64, parse_u64_spec};
use crate::text::{
    contains_seq, fixed_point, fmt_fixed, occurs_at, owned, push_str, str_chars, string_from_chars, trim,
    trimmed,
};

verus! {

/// Where a profiling run stands.
#[derive(Debug, Clone, PartialEq, Eq)]
pub enum ProfilerStatus {
    Idle,
    /// Running since `started_ns`.
    Running { started_ns: u64 },
    /// Finished after `elapsed_ns`.
    Done { elapsed_ns: u64 },
    Error(String),
}

/// What the profiling process reports.
#[derive(Debug, Clone, PartialEq, Eq)]
pub enum ProfilerEvent {
    /// A line of its output.
    Line(String),
    /// It ended, with the flame graph it produced (if any) and its error
    /// (if it failed).
    Done { svg_path: Option<String>, error: Option<String> },
}

/// How long a run may take before it is given up, in seconds.
pub const TIMEOUT_SECS: u64 = 60;

/// Nanoseconds from `from` to `to`, no less than zero.
pub open spec fn since(from: u64, to: u64) -> u64 {
    if to >= from {
        (to - from) as u64
    } else {
        0
    }
}

/// The status label at `now_ns`: seconds with one decimal for a run.
pub open spec fn status_label(s: ProfilerStatus, now_ns: u64) -> Seq<char> {
    match s {
        ProfilerStatus::Idle => "Idle"@,
        ProfilerStatus::Running { started_ns } => "Running... ("@ + fixed_point(
            since(started_ns, now_ns) as nat,
            1_000_000_000,
            1,
        ) + "s)"@,
        ProfilerStatus::Done { elapsed_ns } => "Done ("@ + fixed_point(
            elapsed_ns as nat,
            1_000_000_000,
            1,
        ) + "s)"@,
        ProfilerStatus::Error(e) => "Error: "@ + e@,
    }
}

impl ProfilerStatus {
    /// The status as the panel shows it at `now_ns`, as `status_label`.
    pub fn label(&self, now_ns: u64) -> (r: String)
        ensures
            r@ == status_label(*self, now_ns),
    {
        match self {
            ProfilerStatus::Idle => owned("Idle"),
            ProfilerStatus::Running { started_ns } => {
                let elapsed = if now_ns >= *started_ns {
                    now_ns - *started_ns
                } else {
                    0
                };
                let mut s = owned("Running... (");
                push_str(&mut s, fmt_fixed(elapsed, 1_000_000_000, 1).as_str());
                push_str(&mut s, "s)");
                s
            },
            ProfilerStatus::Done { elapsed_ns } => {
                let mut s = owned("Done (");
                push_str(&mut s, fmt_fixed(*elapsed_ns, 1_000_000_000, 1).as_str());
                push_str(&mut s, "s)");
                s
            },
            ProfilerStatus::Error(e) => {
                let mut s = owned("Error: ");
                push_str(&mut s, e.as_str());
                s
            },
        }
    }

    /// Whether a run is going on.
    pub fn is_running(&self) -> (r: bool)
        ensures
            r == (*self is Running),
    {
        match self {
            ProfilerStatus::Running { .. } => true,
            _ => false,
        }
    }

    /// Whether a profile may be started: only in a trusted workspace that is
    /// open, and not while a run is going on.
    pub fn can_run(&self, trusted: bool, has_workspace: bool) -> (r: bool)
        ensures
            r == (trusted && has_workspace && !(*self is Running)),
    {
        trusted && has_workspace && !self.is_running()
    }

    /// Whether a run has taken longer than `TIMEOUT_SECS` at `now_ns`.
    pub open spec fn timed_out_spec(&self, now_ns: u64) -> bool {
        *self matches ProfilerStatus::Running { started_ns } && since(started_ns, now_ns) / 1_000_000_000
            > TIMEOUT_SECS
    }

    /// Whether a run has taken longer than `TIMEOUT_SECS` at `now_ns`, as
    /// `timed_out_spec`.
    pub fn timed_out(&self, now_ns: u64) -> (r: bool)
        ensures
            r == self.timed_out_spec(now_ns),
    {
        match self {
            ProfilerStatus::Running { started_ns } => {
                let elapsed = if now_ns >= *started_ns {
                    now_ns - *started_ns
                } else {
                    0
                };
                elapsed / 1_000_000_000 > TIMEOUT_SECS
            },
            _ => false,
        }
    }
}

/// When the run that just ended began: its start when one was running,
/// else `now_ns`.
pub open spec fn run_start(status: ProfilerStatus, now_ns: u64) -> u64 {
    match status {
        ProfilerStatus::Running { started_ns } => started_ns,
        _ => now_ns,
    }
}

/// The status once the process ended at `now_ns` with `error`, having
/// produced a flame graph or not: done (timed from the run's start)
/// whenever a flame graph came, else the error, else the complaint that
/// none was produced.
pub fn finish_status(status: &ProfilerStatus, now_ns: u64, produced: bool, error: Option<String>) -> (r:
    ProfilerStatus)
    ensures
        produced ==> r == (ProfilerStatus::Done {
            elapsed_ns: since(run_start(*status, now_ns), now_ns),
        }),
        !produced && error is Some ==> r == ProfilerStatus::Error(error->0),
        !produced && error is None ==> (r matches ProfilerStatus::Error(m) && m@
            == "flamegraph.svg not produced"@),
{
    let start = match status {
        ProfilerStatus::Running { started_ns } => *started_ns,
        _ => now_ns,
    };
    if produced {
        let elapsed = if now_ns >= start {
            now_ns - start
        } else {
            0
        };
        ProfilerStatus::Done { elapsed_ns: elapsed }
    } else {
        match error {
            Some(e) => ProfilerStatus::Error(e),
            None => ProfilerStatus::Error(owned("flamegraph.svg not produced")),
        }
    }
}

/// Appends a line of process output to the log.
pub fn append_log(log: &mut String, line: &str)
    ensures
        final(log)@ == old(log)@ + line@ + seq!['\n'],
{
    push_str(log, line);
    crate::text::push_char(log, '\n');
}

/// The colour key of a function name: over its UTF-8 bytes, each step adds
/// to the key the key times 31 plus the byte, all wrapping.
pub open spec fn name_hash(bytes: Seq<u8>) -> u32
    decreases bytes.len(),
{
    if bytes.len() == 0 {
        0
    } else {
        let acc = name_hash(bytes.drop_last());
        acc.wrapping_add(acc.wrapping_mul(31).wrapping_add(bytes.last() as u32))
    }
}

/// The colour key of a frame's function name, as `name_hash`.
pub fn frame_hash(func_name: &str) -> (r: u32)
    ensures
        r == name_hash(encode_utf8(func_name@)),
{
    let bytes = func_name.as_bytes();
    let mut h: u32 = 0;
    let mut i: usize = 0;
    while i < bytes.len()
        invariant
            i <= bytes@.len(),
            bytes@ == encode_utf8(func_name@),
            h == name_hash(bytes@.take(i as int)),
        decreases bytes.len() - i,
    {
        assert(bytes@.take(i + 1).drop_last() =~= bytes@.take(i as int));
        h = h.wrapping_add(h.wrapping_mul(31).wrapping_add(bytes[i] as u32));
        i = i + 1;
    }
    assert(bytes@.take(bytes.len() as int) =~= bytes@);
    h
}

/// The status after a check at `now_ns`: a run that has taken longer than
/// `TIMEOUT_SECS` is given up with an error; any other status stays.
pub fn check_timeout(status: ProfilerStatus, now_ns: u64) -> (r: ProfilerStatus)
    ensures
        status.timed_out_spec(now_ns) ==> (r matches ProfilerStatus::Error(m) && m@
            == "Timed out after 60s"@),
        !status.timed_out_spec(now_ns) ==> r == status,
{
    if status.timed_out(now_ns) {
        ProfilerStatus::Error(owned("Timed out after 60s"))
    } else {
        status
    }
}

/// The largest sample count among a flame graph's frames, 0 for none.
pub fn max_samples(samples: &[u32]) -> (r: u32)
    ensures
        forall|i: int| 0 <= i < samples@.len() ==> samples@[i] <= r,
        samples@.len() == 0 ==> r == 0,
        samples@.len() > 0 ==> exists|i: int| 0 <= i < samples@.len() && samples@[i] == r,
{
    let mut best: u32 = 0;
    let mut i: usize = 0;
    while i < samples.len()
        invariant
            i <= samples@.len(),
            forall|k: int| 0 <= k < i ==> samples@[k] <= best,
            i == 0 ==> best == 0,
            i > 0 ==> exists|k: int| 0 <= k < i && samples@[k] == best,
        decreases samples@.len() - i,
    {
        if samples[i] > best || i == 0 {
            best = samples[i];
        }
        i = i + 1;
    }
    best
}

// ─── Flame graph SVG ────────────────────────────────────────────────────────

/// The first position at or after `from` where `needle` occurs in `s`
/// (`str::find` from that position).
pub open spec fn find_in<T>(s: Seq<T>, needle: Seq<T>, from: int) -> Option<int>
    decreases s.len() - from,
{
    if from < 0 || from + needle.len() > s.len() {
        None
    } else if s.subrange(from, from + needle.len()) == needle {
        Some(from)
    } else {
        proof {
            if needle.len() == 0 {
                assert(s.subrange(from, from) =~= needle);
            }
        }
        find_in(s, needle, from + 1)
    }
}

/// The last position at or before `i` where `needle` occurs in `s`.
pub open spec fn rfind_from<T>(s: Seq<T>, needle: Seq<T>, i: int) -> Option<int>
    decreases i + 1,
{
    if i < 0 {
        None
    } else if i + needle.len() <= s.len() && s.subrange(i, i + needle.len()) == needle {
        Some(i)
    } else {
        rfind_from(s, needle, i - 1)
    }
}

/// The last position where `needle` occurs in `s` (`str::rfind`).
pub open spec fn rfind_in<T>(s: Seq<T>, needle: Seq<T>) -> Option<int> {
    rfind_from(s, needle, s.len() - needle.len())
}

/// `find_in` finds an occurrence at or after its start.
pub proof fn lemma_find_in<T>(s: Seq<T>, needle: Seq<T>, from: int)
    ensures
        find_in(s, needle, from) matches Some(i) ==> from <= i && i + needle.len() <= s.len()
            && s.subrange(i, i + needle.len()) == needle,
    decreases s.len() - from,
{
    if !(from < 0 || from + needle.len() > s.len()) && s.subrange(from, from + needle.len()) != needle {
        if needle.len() == 0 {
            assert(s.subrange(from, from) =~= needle);
        }
        lemma_find_in(s, needle, from + 1);
    }
}

proof fn lemma_rfind_from<T>(s: Seq<T>, needle: Seq<T>, i: int)
    ensures
        rfind_from(s, needle, i) matches Some(k) ==> 0 <= k <= i && k + needle.len() <= s.len()
            && s.subrange(k, k + needle.len()) == needle,
    decreases i + 1,
{
    if i >= 0 && !(i + needle.len() <= s.len() && s.subrange(i, i + needle.len()) == needle) {
        lemma_rfind_from(s, needle, i - 1);
    }
}

fn bytes_at(s: &[u8], needle: &[u8], i: usize) -> (r: bool)
    requires
        i + needle@.len() <= s@.len(),
    ensures
        r == (s@.subrange(i as int, i + needle@.len()) == needle@),
{
    let mut k: usize = 0;
    while k < needle.len()
        invariant
            i + needle.len() <= s.len(),
            k <= needle@.len(),
            forall|j: int| 0 <= j < k ==> s@[i + j] == needle@[j],
        decreases needle@.len() - k,
    {
        if s[i + k] != needle[k] {
            assert(s@.subrange(i as int, i + needle@.len())[k as int] != needle@[k as int]);
            return false;
        }
        k = k + 1;
    }
    assert(s@.subrange(i as int, i + needle@.len()) =~= needle@);
    true
}

/// Where `needle` next occurs in `s` from `from`, as `find_in`.
fn find_bytes(s: &[u8], needle: &[u8], from: usize) -> (r: Option<usize>)
    ensures
        match r {
            Some(i) => find_in(s@, needle@, from as int) == Some(i as int),
            None => find_in(s@, needle@, from as int) is None,
        },
{
    if from > s.len() || needle.len() > s.len() - from {
        return None;
    }
    let mut i = from;
    while needle.len() <= s.len() - i
        invariant
            from <= i <= s@.len(),
            find_in(s@, needle@, from as int) == find_in(s@, needle@, i as int),
        decreases s@.len() - i,
    {
        if bytes_at(s, needle, i) {
            return Some(i);
        }
        if needle.len() == 0 {
            assert(s@.subrange(i as int, i as int) =~= needle@);
        }
        i = i + 1;
    }
    None
}

/// Where `needle` next occurs in `s` from `from`, as `find_in`.
fn find_chars(s: &[char], needle: &[char], from: usize) -> (r: Option<usize>)
    ensures
        match r {
            Some(i) => find_in(s@, needle@, from as int) == Some(i as int),
            None => find_in(s@, needle@, from as int) is None,
        },
{
    if from > s.len() || needle.len() > s.len() - from {
        return None;
    }
    let mut i = from;
    while needle.len() <= s.len() - i
        invariant
            from <= i <= s@.len(),
            find_in(s@, needle@, from as int) == find_in(s@, needle@, i as int),
        decreases s@.len() - i,
    {
        if occurs_at(s, needle, i) {
            return Some(i);
        }
        if needle.len() == 0 {
            assert(s@.subrange(i as int, i as int) =~= needle@);
        }
        i = i + 1;
    }
    None
}

/// Where `needle` last occurs in `s`, as `rfind_in`.
fn rfind_chars(s: &[char], needle: &[char]) -> (r: Option<usize>)
    ensures
        match r {
            Some(i) => rfind_in(s@, needle@) == Some(i as int),
            None => rfind_in(s@, needle@) is None,
        },
{
    if needle.len() > s.len() {
        return None;
    }
    let mut i: usize = s.len() - needle.len();
    loop
        invariant
            i + needle@.len() <= s@.len(),
            rfind_in(s@, needle@) == rfind_from(s@, needle@, i as int),
        decreases i,
    {
        if occurs_at(s, needle, i) {
            return Some(i);
        }
        if i == 0 {
            assert(rfind_from(s@, needle@, -1) is None);
            return None;
        }
        i = i - 1;
    }
}

/// The text of well-formed UTF-8 bytes.
pub open spec fn text_of(b: Seq<u8>) -> Option<Seq<char>> {
    if valid_utf8(b) {
        Some(decode_utf8(b))
    } else {
        None
    }
}

/// The value of attribute `name` in the bytes of an SVG tag: what follows
/// the first `name="` up to the next `"`.
pub open spec fn attr_value(tag: Seq<u8>, name: Seq<u8>) -> Option<Seq<u8>> {
    let needle = name + seq![61u8, 34u8];
    match find_in(tag, needle, 0) {
        None => None,
        Some(i) => match find_in(tag, seq![34u8], i + needle.len()) {
            None => None,
            Some(e) => Some(tag.subrange(i + needle.len(), e)),
        },
    }
}

/// The text of attribute `name` of a tag.
pub open spec fn attr_text(tag: Seq<u8>, name: Seq<u8>) -> Option<Seq<char>> {
    match attr_value(tag, name) {
        Some(v) => text_of(v),
        None => None,
    }
}

pub open spec fn rect_open() -> Seq<u8> {
    seq![60u8, 114u8, 101u8, 99u8, 116u8, 32u8]
}

pub open spec fn group_close() -> Seq<u8> {
    seq![60u8, 47u8, 103u8, 62u8]
}

pub open spec fn title_open() -> Seq<u8> {
    seq![60u8, 116u8, 105u8, 116u8, 108u8, 101u8, 62u8]
}

pub open spec fn title_close() -> Seq<u8> {
    seq![60u8, 47u8, 116u8, 105u8, 116u8, 108u8, 101u8, 62u8]
}

/// A frame as its SVG writes it: the texts of its rectangle's `x`, `y`
/// and `width`, and its title.
pub type SvgFrameView = (Option<Seq<char>>, Option<Seq<char>>, Option<Seq<char>>, Seq<char>);

/// Where the search for a rectangle's title ends: at the next `</g>`, or
/// else 512 bytes on (or at the end).
pub open spec fn region_end(s: Seq<u8>, te: int) -> int {
    match find_in(s, group_close(), te) {
        Some(i) => i,
        None => if te + 512 < s.len() { te + 512 } else { s.len() as int },
    }
}

/// The title of the rectangle whose tag ends at `te`: the text between the
/// first `<title>` lying wholly before the region's end and the next
/// `</title>`.
pub open spec fn title_after(s: Seq<u8>, te: int) -> Option<Seq<char>> {
    match find_in(s, title_open(), te) {
        Some(ts) => if ts + 7 <= region_end(s, te) {
            match find_in(s, title_close(), ts + 7) {
                Some(e) => text_of(s.subrange(ts + 7, e)),
                None => None,
            }
        } else {
            None
        },
        None => None,
    }
}

/// The frames of an SVG from byte `pos` on: each `<rect ` whose tag closes
/// and that has a title, in order; the scan stops at a tag that does not
/// close.
pub open spec fn frames_from(s: Seq<u8>, pos: int) -> Seq<SvgFrameView>
    decreases s.len() - pos,
{
    if pos < 0 || pos > s.len() {
        Seq::empty()
    } else {
        match find_in(s, rect_open(), pos) {
            None => Seq::empty(),
            Some(rs) => match find_in(s, seq![62u8], rs) {
                None => Seq::empty(),
                Some(gt) => {
                    proof {
                        lemma_find_in(s, rect_open(), pos);
                        lemma_find_in(s, seq![62u8], rs);
                    }
                    let te = gt + 1;
                    let tag = s.subrange(rs, te);
                    let rest = frames_from(s, te);
                    match title_after(s, te) {
                        Some(t) => seq![
                            (
                                attr_text(tag, seq![120u8]),
                                attr_text(tag, seq![121u8]),
                                attr_text(tag, seq![119u8, 105u8, 100u8, 116u8, 104u8]),
                                t,
                            ),
                        ] + rest,
                        None => rest,
                    }
                },
            },
        }
    }
}

/// A frame of a flame graph as its SVG writes it.
#[derive(Debug, Clone, PartialEq, Eq)]
pub struct SvgFrame {
    /// The text of the rectangle's `x`, if it has one.
    pub x: Option<String>,
    /// The text of the rectangle's `y`, if it has one.
    pub y: Option<String>,
    /// The text of the rectangle's `width`, if it has one.
    pub width: Option<String>,
    /// The frame's title.
    pub title: String,
}

pub open spec fn svg_frame_view(f: SvgFrame) -> SvgFrameView {
    (opt_view(f.x), opt_view(f.y), opt_view(f.width), f.title@)
}

pub open spec fn opt_view(o: Option<String>) -> Option<Seq<char>> {
    match o {
        Some(s) => Some(s@),
        None => None,
    }
}

fn decoded(bytes: &[u8]) -> (r: Option<String>)
    ensures
        opt_view(r) == text_of(bytes@),
{
    crate::lsp::transport::utf8_text(bytes)
}

fn attr_of(tag: &[u8], name: &[u8]) -> (r: Option<String>)
    ensures
        opt_view(r) == attr_text(tag@, name@),
{
    let mut needle: Vec<u8> = Vec::new();
    let mut k: usize = 0;
    while k < name.len()
        invariant
            k <= name@.len(),
            needle@ == name@.take(k as int),
        decreases name@.len() - k,
    {
        needle.push(name[k]);
        assert(name@.take(k + 1) =~= name@.take(k as int).push(name@[k as int]));
        k = k + 1;
    }
    needle.push(61u8);
    needle.push(34u8);
    assert(needle@ =~= name@ + seq![61u8, 34u8]);
    let quote: [u8; 1] = [34u8];
    assert(quote@ =~= seq![34u8]);
    match find_bytes(tag, needle.as_slice(), 0) {
        None => None,
        Some(i) => {
            proof {
                lemma_find_in(tag@, needle@, 0);
            }
            assert(i + needle.len() <= tag.len());
            let start = i + needle.len();
            match find_bytes(tag, &quote, start) {
                None => None,
                Some(e) => {
                    proof {
                        lemma_find_in(tag@, seq![34u8], start as int);
                    }
                    let v = vstd::slice::slice_subrange(tag, start, e);
                    decoded(v)
                },
            }
        },
    }
}

/// The frames of a flame graph's SVG, as `frames_from` from its start.
pub fn svg_frames(svg: &str) -> (r: Vec<SvgFrame>)
    ensures
        r@.map_values(|f: SvgFrame| svg_frame_view(f)) == frames_from(encode_utf8(svg@), 0),
{
    let s = svg.as_bytes();
    let ghost sb = s@;
    assert(sb == encode_utf8(svg@));
    let rect: [u8; 6] = [60u8, 114u8, 101u8, 99u8, 116u8, 32u8];
    let gt: [u8; 1] = [62u8];
    let gclose: [u8; 4] = [60u8, 47u8, 103u8, 62u8];
    let topen: [u8; 7] = [60u8, 116u8, 105u8, 116u8, 108u8, 101u8, 62u8];
    let tclose: [u8; 8] = [60u8, 47u8, 116u8, 105u8, 116u8, 108u8, 101u8, 62u8];
    let xname: [u8; 1] = [120u8];
    let yname: [u8; 1] = [121u8];
    let wname: [u8; 5] = [119u8, 105u8, 100u8, 116u8, 104u8];
    assert(rect@ =~= rect_open());
    assert(gt@ =~= seq![62u8]);
    assert(gclose@ =~= group_close());
    assert(topen@ =~= title_open());
    assert(tclose@ =~= title_close());
    assert(xname@ =~= seq![120u8]);
    assert(yname@ =~= seq![121u8]);
    assert(wname@ =~= seq![119u8, 105u8, 100u8, 116u8, 104u8]);
    let mut frames: Vec<SvgFrame> = Vec::new();
    let mut pos: usize = 0;
    loop
        invariant
            pos <= sb.len(),
            s@ == sb,
            rect@ == rect_open(),
            gt@ == seq![62u8],
            gclose@ == group_close(),
            topen@ == title_open(),
            tclose@ == title_close(),
            xname@ == seq![120u8],
            yname@ == seq![121u8],
            wname@ == seq![119u8, 105u8, 100u8, 116u8, 104u8],
            frames@.map_values(|f: SvgFrame| svg_frame_view(f)) + frames_from(sb, pos as int) == frames_from(sb, 0),
        ensures
            frames@.map_values(|f: SvgFrame| svg_frame_view(f)) == frames_from(sb, 0),
        decreases sb.len() - pos,
    {
        let ghost before = frames@.map_values(|f: SvgFrame| svg_frame_view(f));
        let rs = match find_bytes(s, &rect, pos) {
            Some(rs) => rs,
            None => {
                assert(frames_from(sb, pos as int) =~= Seq::<SvgFrameView>::empty());
                assert(before + frames_from(sb, pos as int) =~= before);
                break;
            },
        };
        proof {
            lemma_find_in(sb, rect_open(), pos as int);
        }
        let close = match find_bytes(s, &gt, rs) {
            Some(g) => g,
            None => {
                assert(frames_from(sb, pos as int) =~= Seq::<SvgFrameView>::empty());
                assert(before + frames_from(sb, pos as int) =~= before);
                break;
            },
        };
        proof {
            lemma_find_in(sb, seq![62u8], rs as int);
        }
        assert(find_in(sb, seq![62u8], rs as int) == Some(close as int));
        assert(close + 1 <= s.len());
        let te = close + 1;
        let tag = vstd::slice::slice_subrange(s, rs, te);
        let region = match find_bytes(s, &gclose, te) {
            Some(i) => i,
            None => if te < s.len() && 512 < s.len() - te { te + 512 } else { s.len() },
        };
        assert(region == region_end(sb, te as int));
        let mut title: Option<String> = None;
        match find_bytes(s, &topen, te) {
            Some(ts) => {
                proof {
                    lemma_find_in(sb, title_open(), te as int);
                }
                assert(ts + 7 <= s.len());
                if ts + 7 <= region {
                    match find_bytes(s, &tclose, ts + 7) {
                        Some(e) => {
                            proof {
                                lemma_find_in(sb, title_close(), ts + 7);
                            }
                            title = decoded(vstd::slice::slice_subrange(s, ts + 7, e));
                        },
                        None => {},
                    }
                }
            },
            None => {},
        }
        assert(opt_view(title) == title_after(sb, te as int));
        match title {
            Some(t) => {
                let frame = SvgFrame {
                    x: attr_of(tag, &xname),
                    y: attr_of(tag, &yname),
                    width: attr_of(tag, &wname),
                    title: t,
                };
                frames.push(frame);
                assert(frames@.map_values(|f: SvgFrame| svg_frame_view(f)) =~= before.push(svg_frame_view(frame)));
                assert(frames_from(sb, pos as int) =~= seq![svg_frame_view(frame)] + frames_from(sb, te as int));
                assert(before.push(svg_frame_view(frame)) + frames_from(sb, te as int) =~= before + (seq![
                    svg_frame_view(frame),
                ] + frames_from(sb, te as int)));
            },
            None => {},
        }
        pos = te;
    }
    frames
}

/// A frame's title as plain values: the function's full name, its last
/// `::` segment, the sample count, the text of the percentage, and the
/// name again when it looks like a path.
pub type TitleView = (Seq<char>, Seq<char>, u32, Seq<char>, Option<Seq<char>>);

pub open spec fn samples_word() -> Seq<char> {
    seq![' ', 's', 'a', 'm', 'p', 'l', 'e', 's']
}

/// The part of a name after its last `::` (the whole name when it has
/// none).
pub open spec fn last_segment(name: Seq<char>) -> Seq<char> {
    match rfind_in(name, seq![':', ':']) {
        Some(k) => name.skip(k + 2),
        None => name,
    }
}

/// The name, when it holds a `/` or a `\`.
pub open spec fn path_hint(name: Seq<char>) -> Option<Seq<char>> {
    if contains_seq(name, seq!['/']) || contains_seq(name, seq!['\\']) {
        Some(name)
    } else {
        None
    }
}

/// A title's function name (before its last ` (`, trimmed), the text
/// after that ` (`, and the sample count (the trimmed text before the
/// first ` samples` there, as `u32::from_str`), when all are there.
pub open spec fn title_stats(t: Seq<char>) -> Option<(Seq<char>, Seq<char>, u32)> {
    match rfind_in(t, seq![' ', '(']) {
        None => None,
        Some(sep) => {
            let stats = t.skip(sep + 2);
            match find_in(stats, samples_word(), 0) {
                None => None,
                Some(se) => match parse_u64_spec(trimmed(stats.take(se))) {
                    Some(n) => if n <= u32::MAX {
                        Some((trimmed(t.take(sep)), stats, n as u32))
                    } else {
                        None
                    },
                    None => None,
                },
            }
        },
    }
}

/// Whether the title's percentage sign comes before the character after
/// its comma, where the percentage cannot be cut out.
pub open spec fn percent_before_comma(t: Seq<char>) -> bool {
    match title_stats(t) {
        Some((_, stats, _)) => match (find_in(stats, seq![','], 0), find_in(stats, seq!['%'], 0)) {
            (Some(c), Some(p)) => c + 1 > p,
            _ => false,
        },
        None => false,
    }
}

/// A frame's title `name (N samples, P%)` in parts: the percentage is the
/// trimmed text between the first comma and the first `%` after the ` (`.
pub open spec fn title_parts(t: Seq<char>) -> Option<TitleView> {
    match title_stats(t) {
        None => None,
        Some((func, stats, n)) => match (find_in(stats, seq![','], 0), find_in(stats, seq!['%'], 0)) {
            (Some(c), Some(p)) => Some(
                (func, last_segment(func), n, trimmed(stats.subrange(c + 1, p)), path_hint(func)),
            ),
            _ => None,
        },
    }
}

/// A flame graph frame's title in parts.
#[derive(Debug, Clone, PartialEq, Eq)]
pub struct FrameTitle {
    /// The function's full name, with its module path.
    pub func_name: String,
    /// The last segment of the name, after its last `::`.
    pub short_name: String,
    pub samples: u32,
    /// The text of the percentage of all samples.
    pub pct: String,
    /// The name, when it looks like a file path.
    pub file_hint: Option<String>,
}

pub open spec fn frame_title_view(f: FrameTitle) -> TitleView {
    (f.func_name@, f.short_name@, f.samples, f.pct@, opt_view(f.file_hint))
}

/// The head of a title, as `title_stats`: the function name, the position
/// after ` (`, and the sample count.
fn title_head(t: &[char]) -> (r: Option<(String, usize, u32)>)
    ensures
        match r {
            Some((f, at, n)) => at <= t@.len() && title_stats(t@) == Some((f@, t@.skip(at as int), n)),
            None => title_stats(t@) is None,
        },
{
    let sep_needle: [char; 2] = [' ', '('];
    assert(sep_needle@ =~= seq![' ', '(']);
    let sep = match rfind_chars(t, &sep_needle) {
        Some(k) => k,
        None => return None,
    };
    proof {
        lemma_rfind_from(t@, seq![' ', '('], t@.len() - 2);
    }
    assert(rfind_in(t@, seq![' ', '(']) == Some(sep as int));
    assert(seq![' ', '('].len() == 2);
    assert(sep + 2 <= t@.len());
    assert(t@.len() == t.len());
    let head = vstd::slice::slice_subrange(t, 0, sep);
    assert(head@ =~= t@.take(sep as int));
    let func = trim(string_from_chars(head).as_str());
    let at = sep + 2;
    let stats = vstd::slice::slice_subrange(t, at, t.len());
    assert(stats@ =~= t@.skip(at as int));
    let word: [char; 8] = [' ', 's', 'a', 'm', 'p', 'l', 'e', 's'];
    assert(word@ =~= samples_word());
    let se = match find_chars(stats, &word, 0) {
        Some(e) => e,
        None => return None,
    };
    proof {
        lemma_find_in(stats@, samples_word(), 0);
    }
    let count_text = vstd::slice::slice_subrange(stats, 0, se);
    assert(count_text@ =~= stats@.take(se as int));
    let count = trim(string_from_chars(count_text).as_str());
    let digits = str_chars(count.as_str());
    match parse_u64(digits.as_slice()) {
        Some(n) => if n <= 0xffff_ffff {
            Some((func, at, n as u32))
        } else {
            None
        },
        None => None,
    }
}

/// Whether a title's percentage cannot be cut out, as
/// `percent_before_comma`.
pub fn title_percent_before_comma(title: &str) -> (r: bool)
    ensures
        r == percent_before_comma(title@),
{
    let t = str_chars(title);
    match title_head(t.as_slice()) {
        None => false,
        Some((_, at, _)) => {
            let stats = vstd::slice::slice_subrange(t.as_slice(), at, t.len());
            assert(stats@ =~= t@.skip(at as int));
            let comma: [char; 1] = [','];
            let percent: [char; 1] = ['%'];
            assert(comma@ =~= seq![',']);
            assert(percent@ =~= seq!['%']);
            match (find_chars(stats, &comma, 0), find_chars(stats, &percent, 0)) {
                (Some(c), Some(p)) => c >= p,
                _ => false,
            }
        },
    }
}

/// A frame's title in parts, as `title_parts`. A title whose percentage
/// sign comes before the character after its comma is not taken.
pub fn split_title(title: &str) -> (r: Option<FrameTitle>)
    requires
        !percent_before_comma(title@),
    ensures
        match r {
            Some(f) => title_parts(title@) == Some(frame_title_view(f)),
            None => title_parts(title@) is None,
        },
{
    let t = str_chars(title);
    let (func, at, samples) = match title_head(t.as_slice()) {
        Some(h) => h,
        None => return None,
    };
    let stats = vstd::slice::slice_subrange(t.as_slice(), at, t.len());
    assert(stats@ =~= t@.skip(at as int));
    let comma: [char; 1] = [','];
    let percent: [char; 1] = ['%'];
    assert(comma@ =~= seq![',']);
    assert(percent@ =~= seq!['%']);
    let (c, p) = match (find_chars(stats, &comma, 0), find_chars(stats, &percent, 0)) {
        (Some(c), Some(p)) => (c, p),
        _ => return None,
    };
    proof {
        lemma_find_in(stats@, seq![','], 0);
        lemma_find_in(stats@, seq!['%'], 0);
    }
    let pct_chars = vstd::slice::slice_subrange(stats, c + 1, p);
    let pct = trim(string_from_chars(pct_chars).as_str());
    let fc = str_chars(func.as_str());
    let colons: [char; 2] = [':', ':'];
    assert(colons@ =~= seq![':', ':']);
    let short_name = match rfind_chars(fc.as_slice(), &colons) {
        Some(k) => {
            proof {
                lemma_rfind_from(fc@, seq![':', ':'], fc@.len() - 2);
            }
            assert(rfind_in(fc@, seq![':', ':']) == Some(k as int));
            assert(seq![':', ':'].len() == 2);
            assert(k + 2 <= fc@.len());
            assert(fc@.len() == fc.len());
            let tail = vstd::slice::slice_subrange(fc.as_slice(), k + 2, fc.len());
            assert(tail@ =~= fc@.skip(k + 2));
            string_from_chars(tail)
        },
        None => func.clone(),
    };
    let slash: [char; 1] = ['/'];
    let backslash: [char; 1] = ['\\'];
    assert(slash@ =~= seq!['/']);
    assert(backslash@ =~= seq!['\\']);
    let file_hint = if crate::text::contains_chars(fc.as_slice(), &slash) || crate::text::contains_chars(
        fc.as_slice(),
        &backslash,
    ) {
        Some(func.clone())
    } else {
        None
    };
    Some(FrameTitle { func_name: func, short_name, samples, pct, file_hint })
}

} // verus!
