//! Cursor positions and the conversion between LSP UTF-16 columns and
//! character indices.

use vstd::prelude::*;
use crate::text::str_chars;

verus! {

/// A zero-based LSP position: line and UTF-16 column.
#[derive(Debug, Clone, Copy, PartialEq, Eq, Hash, Structural)]
pub struct LspPosition {
    pub line: u32,
    pub character: u32,
}

impl LspPosition {
    pub fn new(line: u32, character: u32) -> (r: Self)
        ensures
            r == (LspPosition { line, character }),
    {
        LspPosition { line, character }
    }
}

/// UTF-16 code units of one character: 2 outside the Basic Multilingual
/// Plane, 1 inside it.
pub open spec fn utf16_width(c: char) -> nat {
    if (c as u32) >= 0x10000 { 2 } else { 1 }
}

/// UTF-16 length of a character sequence.
pub open spec fn utf16_len(s: Seq<char>) -> nat
    decreases s.len(),
{
    if s.len() == 0 { 0 } else { utf16_len(s.drop_last()) + utf16_width(s.last()) }
}

/// The number of leading characters of `s` that end at or before UTF-16
/// column `col` (a column inside a surrogate pair falls back to the start of
/// that character; a column past the end gives the character count).
pub open spec fn chars_within(s: Seq<char>, col: nat) -> nat
    decreases s.len(),
{
    if s.len() == 0 {
        0
    } else if utf16_len(s) <= col {
        s.len()
    } else {
        chars_within(s.drop_last(), col)
    }
}

proof fn lemma_utf16_monotone(s: Seq<char>, k: int)
    requires
        0 <= k <= s.len(),
    ensures
        utf16_len(s.take(k)) <= utf16_len(s),
    decreases s.len() - k,
{
    if k < s.len() {
        assert(s.drop_last().take(k) == s.take(k));
        lemma_utf16_monotone(s.drop_last(), k);
    } else {
        assert(s.take(k) == s);
    }
}

proof fn lemma_chars_within_take(s: Seq<char>, col: nat, k: int)
    requires
        0 <= k <= s.len(),
        forall|j: int| k < j <= s.len() ==> utf16_len(#[trigger] s.take(j)) > col,
    ensures
        chars_within(s, col) == chars_within(s.take(k), col),
    decreases s.len() - k,
{
    if k < s.len() {
        assert(s.take(s.len() as int) == s);
        assert(utf16_len(s.take(s.len() as int)) > col);
        let t = s.drop_last();
        assert forall|j: int| k < j <= t.len() implies utf16_len(#[trigger] t.take(j)) > col by {
            assert(t.take(j) == s.take(j));
        }
        lemma_chars_within_take(t, col, k);
        assert(t.take(k) == s.take(k));
    } else {
        assert(s.take(k) == s);
    }
}

/// Converts an LSP UTF-16 column on `line` to a character index, clamped to
/// the line's length.
pub fn decode_utf16_column(line: &str, utf16_col: u32) -> (r: usize)
    ensures
        r == chars_within(line@, utf16_col as nat),
{
    let cs = str_chars(line);
    let mut units: u64 = 0;
    let mut i: usize = 0;
    while i < cs.len()
        invariant
            i <= cs.len(),
            cs@ == line@,
            units == utf16_len(cs@.take(i as int)),
            units <= utf16_col,
            forall|j: int| 0 <= j <= i ==> utf16_len(#[trigger] cs@.take(j)) <= utf16_col,
        decreases cs.len() - i,
    {
        let c = cs[i];
        let w: u64 = if (c as u32) >= 0x10000 { 2 } else { 1 };
        proof {
            assert(cs@.take(i + 1).drop_last() == cs@.take(i as int));
            assert(cs@.take(i + 1).last() == c);
        }
        if units + w > utf16_col as u64 {
            proof {
                assert forall|j: int| i < j <= cs@.len() implies utf16_len(#[trigger] cs@.take(j)) > utf16_col by {
                    lemma_utf16_monotone(cs@.take(j), i + 1);
                    assert(cs@.take(j).take(i + 1) == cs@.take(i + 1));
                }
                lemma_chars_within_take(cs@, utf16_col as nat, i as int);
                lemma_chars_within_full(cs@.take(i as int), utf16_col as nat);
            }
            return i;
        }
        units = units + w;
        i = i + 1;
    }
    proof {
        assert(cs@.take(cs.len() as int) == cs@);
        lemma_chars_within_full(cs@, utf16_col as nat);
    }
    i
}

proof fn lemma_chars_within_full(s: Seq<char>, col: nat)
    requires
        utf16_len(s) <= col,
    ensures
        chars_within(s, col) == s.len(),
{
}

} // verus!
