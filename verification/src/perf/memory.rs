//! Resident set size (RSS) measurement support and byte-count formatting.
//!
//! The platform query itself is I/O and is made by the application; the
//! library parses what it read (Linux: the `VmRSS` line of
//! `/proc/self/status`).

use vstd::prelude::*;
use crate::git::diff::{split_lines, split_lines_of, lemma_join_split};
use crate::text::{decimal, fixed_point, fmt_fixed, fmt_u64, push_str, is_prefix, starts_with_chars, str_chars, is_whitespace, unicode_whitespace};

verus! {

broadcast use vstd::string::group_string_axioms;

pub open spec fn kib() -> nat { 1024 }
pub open spec fn mib() -> nat { 1024 * 1024 }
pub open spec fn gib() -> nat { 1024 * 1024 * 1024 }

/// How a byte count is shown: GB with two decimals, MB with one, whole KB,
/// or bytes (decimals rounded half to even).
pub open spec fn bytes_text(b: nat) -> Seq<char> {
    if b >= gib() {
        fixed_point(b, gib(), 2) + " GB"@
    } else if b >= mib() {
        fixed_point(b, mib(), 1) + " MB"@
    } else if b >= kib() {
        decimal(b / kib()) + " KB"@
    } else {
        decimal(b) + " B"@
    }
}

/// Formats a byte count as a human-readable string (B / KB / MB / GB).
pub fn format_bytes(bytes: u64) -> (r: String)
    ensures
        r@ == bytes_text(bytes as nat),
{
    let kb: u64 = 1024;
    let mb: u64 = 1024 * 1024;
    let gb: u64 = 1024 * 1024 * 1024;
    if bytes >= gb {
        let mut s = fmt_fixed(bytes, gb, 2);
        push_str(&mut s, " GB");
        s
    } else if bytes >= mb {
        let mut s = fmt_fixed(bytes, mb, 1);
        push_str(&mut s, " MB");
        s
    } else if bytes >= kb {
        let mut s = fmt_u64(bytes / kb);
        push_str(&mut s, " KB");
        s
    } else {
        let mut s = fmt_u64(bytes);
        push_str(&mut s, " B");
        s
    }
}

// ─── Parsing `/proc/self/status` ─────────────────────────────────────────────

/// The value of a decimal digit character, if it is one.
pub open spec fn digit_value(c: char) -> Option<nat> {
    if '0' <= c && c <= '9' { Some((c as u32 - 48) as nat) } else { None }
}

/// The value of a run of decimal digits.
pub open spec fn digits_value(s: Seq<char>) -> nat
    decreases s.len(),
{
    if s.len() == 0 {
        0
    } else {
        10 * digits_value(s.drop_last()) + match digit_value(s.last()) {
            Some(d) => d,
            None => 0,
        }
    }
}

pub open spec fn all_digits(s: Seq<char>) -> bool {
    forall|i: int| 0 <= i < s.len() ==> (#[trigger] digit_value(s[i])) is Some
}

/// `u64::from_str`: an optional `+`, then one or more digits, in range.
pub open spec fn parse_u64_spec(s: Seq<char>) -> Option<u64> {
    let body = if s.len() > 0 && s[0] == '+' { s.skip(1) } else { s };
    if body.len() > 0 && all_digits(body) && digits_value(body) <= u64::MAX {
        Some(digits_value(body) as u64)
    } else {
        None
    }
}

/// The decimal numeral of `n` is a non-empty run of digits whose value is `n`.
pub proof fn lemma_decimal(n: nat)
    ensures
        decimal(n).len() >= 1,
        all_digits(decimal(n)),
        digits_value(decimal(n)) == n,
        forall|i: int| 0 <= i < decimal(n).len() ==> '0' <= #[trigger] decimal(n)[i] <= '9',
    decreases n,
{
    if n < 10 {
        assert(digit_value(decimal(n)[0]) == Some(n));
        assert(decimal(n).drop_last().len() == 0);
        assert(digits_value(decimal(n).drop_last()) == 0);
    } else {
        lemma_decimal(n / 10);
        let prev = decimal(n / 10);
        let d = decimal(n);
        assert(d.drop_last() == prev);
        assert(digit_value(d.last()) == Some((n % 10) as nat));
        assert(digits_value(d) == 10 * digits_value(prev) + (n % 10));
        assert(10 * (n / 10) + n % 10 == n);
        assert forall|i: int| 0 <= i < d.len() implies (#[trigger] digit_value(d[i])) is Some by {
            if i < prev.len() {
                assert(d[i] == prev[i]);
            }
        }
        assert forall|i: int| 0 <= i < d.len() implies '0' <= #[trigger] d[i] <= '9' by {
            if i < prev.len() {
                assert(d[i] == prev[i]);
            }
        }
    }
}

/// Parses an unsigned decimal integer as `u64::from_str` does.
pub fn parse_u64(s: &[char]) -> (r: Option<u64>)
    ensures
        r == parse_u64_spec(s@),
{
    let start: usize = if s.len() > 0 && s[0] == '+' { 1 } else { 0 };
    let body = vstd::slice::slice_subrange(s, start, s.len());
    assert(body@ == (if s@.len() > 0 && s@[0] == '+' { s@.skip(1) } else { s@ }));
    if body.len() == 0 {
        return None;
    }
    let mut v: u64 = 0;
    let mut i: usize = 0;
    while i < body.len()
        invariant
            i <= body.len(),
            v == digits_value(body@.take(i as int)),
            all_digits(body@.take(i as int)),
            body@.len() > 0,
            body@ == (if s@.len() > 0 && s@[0] == '+' { s@.skip(1) } else { s@ }),
        decreases body.len() - i,
    {
        let c = body[i];
        assert(c == body@[i as int]);
        assert(body@.take(i + 1).drop_last() == body@.take(i as int));
        assert(body@.take(i + 1).last() == c);
        if !('0' <= c && c <= '9') {
            assert(!all_digits(body@)) by {
                assert(digit_value(body@[i as int]) is None);
            }
            assert(parse_u64_spec(s@) is None);
            return None;
        }
        let d: u64 = ((c as u32) - 48) as u64;
        if v > (u64::MAX - d) / 10 {
            proof {
                assert(v * 10 + d > u64::MAX);
                assert(digits_value(body@.take(i + 1)) == 10 * v + d);
                assert(all_digits(body@.take(i + 1))) by {
                    assert forall|k: int| 0 <= k < i + 1 implies (#[trigger] digit_value(body@.take(i + 1)[k])) is Some by {
                        if k < i {
                            assert(body@.take(i + 1)[k] == body@.take(i as int)[k]);
                        }
                    }
                }
                lemma_digits_value_grows(body@, i as int + 1);
            }
            assert(parse_u64_spec(s@) is None);
            return None;
        }
        v = v * 10 + d;
        i = i + 1;
        assert(all_digits(body@.take(i as int))) by {
            assert forall|k: int| 0 <= k < i implies (#[trigger] digit_value(body@.take(i as int)[k])) is Some by {
                if k < i - 1 {
                    assert(body@.take(i as int)[k] == body@.take(i - 1)[k]);
                }
            }
        }
    }
    assert(body@.take(body.len() as int) == body@);
    Some(v)
}

proof fn lemma_digits_value_grows(s: Seq<char>, k: int)
    requires
        0 <= k <= s.len(),
        all_digits(s.take(k)),
    ensures
        digits_value(s.take(k)) <= digits_value(s) || !all_digits(s),
    decreases s.len() - k,
{
    if k < s.len() {
        if all_digits(s.take(k + 1)) {
            assert(s.take(k + 1).drop_last() == s.take(k));
            lemma_digits_value_grows(s, k + 1);
        } else {
            assert(!all_digits(s)) by {
                let j = choose|j: int| 0 <= j < k + 1 && !(#[trigger] digit_value(s.take(k + 1)[j]) is Some);
                assert(s.take(k + 1)[j] == s[j]);
            }
        }
    } else {
        assert(s.take(k) == s);
    }
}

/// `str::lines`: the text split at `\n`, a `\r` before each `\n` removed,
/// and no final empty line after a trailing newline.
pub open spec fn text_lines(s: Seq<char>) -> Seq<Seq<char>> {
    let ls = split_lines(s);
    let kept = if ls.last().len() == 0 { ls.drop_last() } else { ls };
    Seq::new(kept.len(), |i: int| if i < ls.len() - 1 { strip_cr(kept[i]) } else { kept[i] })
}

pub open spec fn strip_cr(l: Seq<char>) -> Seq<char> {
    if l.len() > 0 && l.last() == '\r' { l.drop_last() } else { l }
}

/// The first white-space-separated token of `s`, if any.
pub open spec fn first_token(s: Seq<char>) -> Option<Seq<char>>
    decreases s.len(),
{
    if s.len() == 0 {
        None
    } else if unicode_whitespace(s[0]) {
        first_token(s.skip(1))
    } else {
        Some(token_prefix(s))
    }
}

/// The leading run of non-white-space characters.
pub open spec fn token_prefix(s: Seq<char>) -> Seq<char>
    decreases s.len(),
{
    if s.len() == 0 || unicode_whitespace(s[0]) {
        Seq::empty()
    } else {
        seq![s[0]] + token_prefix(s.skip(1))
    }
}

/// Index of the first line starting with `VmRSS:`, if any.
pub open spec fn vmrss_line(ls: Seq<Seq<char>>) -> Option<int> {
    if exists|i: int| 0 <= i < ls.len() && is_prefix("VmRSS:"@, #[trigger] ls[i]) {
        Some(choose|i: int| 0 <= i < ls.len() && is_prefix("VmRSS:"@, #[trigger] ls[i]) && forall|j: int|
            0 <= j < i ==> !is_prefix("VmRSS:"@, #[trigger] ls[j]))
    } else {
        None
    }
}

/// The kibibyte count on the first `VmRSS:` line, if it parses.
pub open spec fn vmrss_kib(text: Seq<char>) -> Option<u64> {
    let ls = text_lines(text);
    match vmrss_line(ls) {
        None => None,
        Some(i) => match first_token(ls[i].skip(6)) {
            None => None,
            Some(t) => parse_u64_spec(t),
        },
    }
}

fn first_token_of(s: &[char], from: usize) -> (r: Option<Vec<char>>)
    requires
        from <= s.len(),
    ensures
        match r {
            Some(t) => first_token(s@.skip(from as int)) == Some(t@),
            None => first_token(s@.skip(from as int)) is None,
        },
{
    let mut i = from;
    while i < s.len() && is_whitespace(s[i])
        invariant
            from <= i <= s.len(),
            first_token(s@.skip(from as int)) == first_token(s@.skip(i as int)),
        decreases s.len() - i,
    {
        assert(s@.skip(i as int).skip(1) == s@.skip(i + 1));
        i = i + 1;
    }
    if i == s.len() {
        return None;
    }
    let start = i;
    let mut tok: Vec<char> = Vec::new();
    assert(s@.skip(start as int)[0] == s@[start as int]);
    while i < s.len() && !is_whitespace(s[i])
        invariant
            start <= i <= s.len(),
            start < s.len(),
            !unicode_whitespace(s@[start as int]),
            tok@ == s@.subrange(start as int, i as int),
            token_prefix(s@.skip(start as int)) == tok@ + token_prefix(s@.skip(i as int)),
        decreases s.len() - i,
    {
        assert(s@.skip(i as int).skip(1) == s@.skip(i + 1));
        assert(s@.skip(i as int)[0] == s@[i as int]);
        tok.push(s[i]);
        i = i + 1;
    }
    proof {
        if i < s.len() {
            assert(s@.skip(i as int)[0] == s@[i as int]);
        }
        assert(token_prefix(s@.skip(i as int)) =~= Seq::<char>::empty());
    }
    Some(tok)
}

/// Resident set size in bytes from the text of `/proc/self/status`: the
/// first `VmRSS:` line's kibibyte count times 1024.
pub fn rss_from_proc_status(text: &str) -> (r: Option<u64>)
    requires
        match vmrss_kib(text@) {
            Some(k) => k <= u64::MAX / 1024,
            None => true,
        },
    ensures
        r == match vmrss_kib(text@) {
            Some(k) => Some((k * 1024) as u64),
            None => None,
        },
{
    match vmrss_kib_of(text) {
        Some(k) => Some(k * 1024),
        None => None,
    }
}

/// As `rss_from_proc_status`, for any text: nothing also when the byte
/// count would not fit in a `u64`.
pub fn rss_from_proc_status_checked(text: &str) -> (r: Option<u64>)
    ensures
        r == match vmrss_kib(text@) {
            Some(k) => if k <= u64::MAX / 1024 {
                Some((k * 1024) as u64)
            } else {
                None
            },
            None => None,
        },
{
    match vmrss_kib_of(text) {
        Some(k) => if k <= u64::MAX / 1024 {
            Some(k * 1024)
        } else {
            None
        },
        None => None,
    }
}

/// The kibibyte count on the first `VmRSS:` line, as `vmrss_kib`.
pub fn vmrss_kib_of(text: &str) -> (r: Option<u64>)
    ensures
        r == vmrss_kib(text@),
{
    let raw = split_lines_of(text);
    let ghost ls = split_lines(text@);
    proof {
        lemma_join_split(text@);
    }
    let n = raw.len();
    let count = if raw[n - 1].len() == 0 { n - 1 } else { n };
    let ghost tl = text_lines(text@);
    assert(tl.len() == count);
    let prefix = str_chars("VmRSS:");
    let mut i: usize = 0;
    while i < count
        invariant
            i <= count <= n,
            n == raw@.len(),
            n >= 1,
            tl == text_lines(text@),
            tl.len() == count,
            ls == split_lines(text@),
            raw@.map_values(|l: Vec<char>| l@) == ls,
            prefix@ == "VmRSS:"@,
            forall|j: int| 0 <= j < i ==> !is_prefix("VmRSS:"@, #[trigger] tl[j]),
        decreases count - i,
    {
        let line = &raw[i];
        let mut len = line.len();
        if i < n - 1 && len > 0 && line[len - 1] == '\r' {
            len = len - 1;
        }
        let l = vstd::slice::slice_subrange(line.as_slice(), 0, len);
        assert(l@ == tl[i as int]) by {
            assert(line@ == ls[i as int]);
            assert(tl[i as int] == (if i < ls.len() - 1 { strip_cr(ls[i as int]) } else { ls[i as int] }));
        }
        if starts_with_chars(l, prefix.as_slice()) {
            proof {
                assert(vmrss_line(tl) == Some(i as int)) by {
                    assert(is_prefix("VmRSS:"@, tl[i as int]));
                    let w = choose|w: int| 0 <= w < tl.len() && is_prefix("VmRSS:"@, #[trigger] tl[w]) && forall|j: int|
                        0 <= j < w ==> !is_prefix("VmRSS:"@, #[trigger] tl[j]);
                    assert(w == i);
                }
                reveal_strlit("VmRSS:");
            }
            let tok = first_token_of(l, 6);
            match tok {
                None => return None,
                Some(t) => {
                    match parse_u64(t.as_slice()) {
                        None => return None,
                        Some(kb) => {
                            assert(vmrss_kib(text@) == Some(kb));
                            return Some(kb);
                        },
                    }
                },
            }
        }
        i = i + 1;
    }
    assert(vmrss_line(tl) is None);
    None
}

} // verus!
