//! Character-level text utilities shared by the rest of the library:
//! conversion between strings and character vectors, ASCII case folding,
//! decimal rendering of integers, and the handful of `str` methods whose
//! results the library only names.

use vstd::prelude::*;
use vstd::string::StringExecFns;

verus! {

broadcast use vstd::string::group_string_axioms;

// ─── Strings and character vectors ──────────────────────────────────────────

/// The characters of `s`, in order.
pub fn str_chars(s: &str) -> (v: Vec<char>)
    ensures
        v@ == s@,
{
    let mut v: Vec<char> = Vec::new();
    for c in iter: s.chars()
        invariant
            iter.seq() == s@,
            v@ == iter.seq().take(iter.index() as int),
    {
        v.push(c);
    }
    v
}

/// Appends one character (`String::push`).
#[verifier::external_body]
pub fn push_char(s: &mut String, c: char)
    ensures
        final(s)@ == old(s)@.push(c),
{
    s.push(c);
}

/// Appends a string slice, as `String::push_str` does.
pub fn push_str(s: &mut String, t: &str)
    ensures
        final(s)@ == old(s)@ + t@,
{
    s.append(t);
}

/// A string holding exactly the characters of `v`.
pub fn string_from_chars(v: &[char]) -> (s: String)
    ensures
        s@ == v@,
{
    let mut s = String::new();
    let mut i: usize = 0;
    while i < v.len()
        invariant
            i <= v.len(),
            s@ == v@.take(i as int),
        decreases v.len() - i,
    {
        push_char(&mut s, v[i]);
        i = i + 1;
        assert(v@.take(i as int) == v@.take((i - 1) as int).push(v@[i - 1]));
    }
    assert(v@.take(v.len() as int) == v@);
    s
}

/// A fresh `String` equal to `s`.
pub fn owned(s: &str) -> (r: String)
    ensures
        r@ == s@,
{
    s.to_owned()
}

/// Character sequences are equal.
pub fn chars_eq(a: &[char], b: &[char]) -> (r: bool)
    ensures
        r == (a@ == b@),
{
    if a.len() != b.len() {
        return false;
    }
    let mut i: usize = 0;
    while i < a.len()
        invariant
            a.len() == b.len(),
            i <= a.len(),
            forall|j: int| 0 <= j < i ==> a@[j] == b@[j],
        decreases a.len() - i,
    {
        if a[i] != b[i] {
            return false;
        }
        i = i + 1;
    }
    assert(a@ =~= b@);
    true
}

/// Two strings hold the same characters.
pub fn str_eq(a: &str, b: &str) -> (r: bool)
    ensures
        r == (a@ == b@),
{
    let x = str_chars(a);
    let y = str_chars(b);
    chars_eq(x.as_slice(), y.as_slice())
}

// ─── Sequence predicates ────────────────────────────────────────────────────

/// `p` is a prefix of `s`.
pub open spec fn is_prefix(p: Seq<char>, s: Seq<char>) -> bool {
    p.len() <= s.len() && s.take(p.len() as int) == p
}

/// `p` is a suffix of `s`.
pub open spec fn is_suffix(p: Seq<char>, s: Seq<char>) -> bool {
    p.len() <= s.len() && s.skip(s.len() - p.len()) == p
}

/// `needle` occurs in `s` as a contiguous run.
pub open spec fn contains_seq(s: Seq<char>, needle: Seq<char>) -> bool {
    exists|i: int| 0 <= i <= s.len() - needle.len() && #[trigger] s.subrange(i, i + needle.len()) == needle
}

pub fn starts_with_chars(s: &[char], p: &[char]) -> (r: bool)
    ensures
        r == is_prefix(p@, s@),
{
    if p.len() > s.len() {
        return false;
    }
    let mut i: usize = 0;
    while i < p.len()
        invariant
            p.len() <= s.len(),
            i <= p.len(),
            forall|j: int| 0 <= j < i ==> s@[j] == p@[j],
        decreases p.len() - i,
    {
        if s[i] != p[i] {
            assert(s@.take(p.len() as int)[i as int] != p@[i as int]);
            return false;
        }
        i = i + 1;
    }
    assert(s@.take(p.len() as int) =~= p@);
    true
}

pub fn ends_with_chars(s: &[char], p: &[char]) -> (r: bool)
    ensures
        r == is_suffix(p@, s@),
{
    if p.len() > s.len() {
        return false;
    }
    let off = s.len() - p.len();
    let mut i: usize = 0;
    while i < p.len()
        invariant
            p.len() <= s.len(),
            off == s.len() - p.len(),
            i <= p.len(),
            forall|j: int| 0 <= j < i ==> s@[off + j] == p@[j],
        decreases p.len() - i,
    {
        if s[off + i] != p[i] {
            assert(s@.skip(off as int)[i as int] != p@[i as int]);
            return false;
        }
        i = i + 1;
    }
    assert(s@.skip(off as int) =~= p@);
    true
}

/// `needle` occurs in `s` starting at index `i`.
pub fn occurs_at(s: &[char], needle: &[char], i: usize) -> (r: bool)
    requires
        i + needle.len() <= s.len(),
    ensures
        r == (s@.subrange(i as int, i + needle.len()) == needle@),
{
    let mut k: usize = 0;
    while k < needle.len()
        invariant
            i + needle.len() <= s.len(),
            k <= needle.len(),
            forall|j: int| 0 <= j < k ==> s@[i + j] == needle@[j],
        decreases needle.len() - k,
    {
        if s[i + k] != needle[k] {
            assert(s@.subrange(i as int, i + needle.len())[k as int] != needle@[k as int]);
            return false;
        }
        k = k + 1;
    }
    assert(s@.subrange(i as int, i + needle.len()) =~= needle@);
    true
}

/// `needle` occurs in `s` (`str::contains`; the empty needle occurs
/// everywhere).
pub fn contains_chars(s: &[char], needle: &[char]) -> (r: bool)
    ensures
        r == contains_seq(s@, needle@),
{
    if needle.len() > s.len() {
        return false;
    }
    let last = s.len() - needle.len();
    let mut i: usize = 0;
    loop
        invariant
            last == s.len() - needle.len(),
            i <= last,
            forall|j: int| 0 <= j < i ==> #[trigger] s@.subrange(j, j + needle.len()) != needle@,
        decreases last - i,
    {
        if occurs_at(s, needle, i) {
            return true;
        }
        if i == last {
            return false;
        }
        i = i + 1;
    }
}

// ─── Lexicographic order ────────────────────────────────────────────────────

/// Three-way lexicographic comparison of `a` and `b` from index `i` on, by
/// code point (the order of `str`): -1, 0 or 1.
pub open spec fn text_order_from(a: Seq<char>, b: Seq<char>, i: int) -> int
    decreases a.len() - i,
{
    if i < 0 || i >= a.len() {
        if i >= 0 && i >= b.len() { 0 } else { -1 }
    } else if i >= b.len() {
        1
    } else if a[i] < b[i] {
        -1
    } else if a[i] > b[i] {
        1
    } else {
        text_order_from(a, b, i + 1)
    }
}

/// Three-way lexicographic comparison of two strings.
pub open spec fn text_order(a: Seq<char>, b: Seq<char>) -> int {
    text_order_from(a, b, 0)
}

/// Three-way comparison of two integers.
pub open spec fn num_order(a: int, b: int) -> int {
    if a < b { -1 } else if a > b { 1 } else { 0 }
}

/// `text_order_from` takes the values -1, 0, 1; swapping its arguments negates
/// it; 0 means the two sequences agree from `i` on.
pub proof fn lemma_text_order_facts(a: Seq<char>, b: Seq<char>, i: int)
    requires
        0 <= i <= a.len(),
        i <= b.len(),
    ensures
        -1 <= text_order_from(a, b, i) <= 1,
        text_order_from(b, a, i) == -text_order_from(a, b, i),
        text_order_from(a, b, i) == 0 ==> a.skip(i) == b.skip(i),
    decreases a.len() - i,
{
    if i < a.len() && i < b.len() && a[i] == b[i] {
        lemma_text_order_facts(a, b, i + 1);
        assert(a[i] == b[i]);
        if text_order_from(a, b, i) == 0 {
            assert(a.skip(i) =~= seq![a[i]] + a.skip(i + 1));
            assert(b.skip(i) =~= seq![b[i]] + b.skip(i + 1));
        }
    } else if i >= a.len() && i >= b.len() {
        assert(a.skip(i) =~= b.skip(i));
    }
}

/// `text_order_from` is transitive where it is at most 0.
pub proof fn lemma_text_order_trans(a: Seq<char>, b: Seq<char>, c: Seq<char>, i: int)
    requires
        0 <= i,
        text_order_from(a, b, i) <= 0,
        text_order_from(b, c, i) <= 0,
    ensures
        text_order_from(a, c, i) <= 0,
    decreases a.len() - i,
{
    if i < a.len() && i < b.len() && i < c.len() && a[i] == b[i] && b[i] == c[i] {
        lemma_text_order_trans(a, b, c, i + 1);
    }
}

/// Three-way comparison of two character slices, as `text_order`.
pub fn compare_text(a: &[char], b: &[char]) -> (r: i8)
    ensures
        r == text_order(a@, b@),
{
    let mut i: usize = 0;
    while i < a.len() && i < b.len() && a[i] == b[i]
        invariant
            i <= a.len(),
            i <= b.len(),
            text_order(a@, b@) == text_order_from(a@, b@, i as int),
        decreases a.len() - i,
    {
        i = i + 1;
    }
    if i >= a.len() {
        if i >= b.len() { 0 } else { -1 }
    } else if i >= b.len() {
        1
    } else if a[i] < b[i] {
        -1
    } else {
        1
    }
}

/// Three-way comparison of two integers, as `num_order`.
pub fn compare_num(a: u32, b: u32) -> (r: i8)
    ensures
        r == num_order(a as int, b as int),
{
    if a < b { -1 } else if a > b { 1 } else { 0 }
}

// ─── ASCII case folding ─────────────────────────────────────────────────────

/// `char::to_ascii_lowercase`: A–Z map to a–z, every other character is kept.
pub open spec fn ascii_lower(c: char) -> char {
    if 'A' <= c && c <= 'Z' {
        ((c as u32) + 32) as char
    } else {
        c
    }
}

/// `str::to_ascii_lowercase` on a character sequence.
pub open spec fn ascii_lower_seq(s: Seq<char>) -> Seq<char> {
    s.map_values(|c: char| ascii_lower(c))
}

pub fn ascii_lower_char(c: char) -> (r: char)
    ensures
        r == ascii_lower(c),
{
    if 'A' <= c && c <= 'Z' {
        let b: u8 = (c as u32) as u8;
        assert(b as u32 == c as u32);
        let r = (b + 32) as char;
        assert(r as u32 == c as u32 + 32);
        r
    } else {
        c
    }
}

pub fn ascii_lower_chars(s: &[char]) -> (r: Vec<char>)
    ensures
        r@ == ascii_lower_seq(s@),
{
    let mut r: Vec<char> = Vec::new();
    let mut i: usize = 0;
    while i < s.len()
        invariant
            i <= s.len(),
            r@ == ascii_lower_seq(s@.take(i as int)),
        decreases s.len() - i,
    {
        r.push(ascii_lower_char(s[i]));
        i = i + 1;
        assert(ascii_lower_seq(s@.take(i as int)) =~= ascii_lower_seq(s@.take((i - 1) as int)).push(
            ascii_lower(s@[i - 1]),
        ));
    }
    assert(s@.take(s.len() as int) == s@);
    r
}

// ─── Decimal rendering ──────────────────────────────────────────────────────

/// The ASCII digit for `d < 10`.
pub open spec fn digit_char(d: nat) -> char {
    ((d + 48) as u32) as char
}

/// Base-10 rendering of `n` with no sign and no leading zeros.
pub open spec fn decimal(n: nat) -> Seq<char>
    decreases n,
{
    if n < 10 {
        seq![digit_char(n)]
    } else {
        decimal(n / 10).push(digit_char(n % 10))
    }
}

/// `s` left-padded with `'0'` to at least `width` characters.
pub open spec fn zero_pad(s: Seq<char>, width: nat) -> Seq<char> {
    if s.len() >= width {
        s
    } else {
        Seq::new((width - s.len()) as nat, |i: int| '0') + s
    }
}

pub fn digit(d: u64) -> (c: char)
    requires
        d < 10,
    ensures
        c == digit_char(d as nat),
{
    let b: u8 = (d as u8) + 48;
    b as char
}

/// Renders `n` in base 10 (`u64`'s `Display`).
pub fn fmt_u64(n: u64) -> (s: String)
    ensures
        s@ == decimal(n as nat),
    decreases n,
{
    if n < 10 {
        let mut s = String::new();
        push_char(&mut s, digit(n));
        s
    } else {
        let mut s = fmt_u64(n / 10);
        push_char(&mut s, digit(n % 10));
        s
    }
}

/// Renders `n` in base 10, left-padded with zeros to `width` characters.
pub fn fmt_u64_padded(n: u64, width: usize) -> (s: String)
    ensures
        s@ == zero_pad(decimal(n as nat), width as nat),
{
    let digits = fmt_u64(n);
    let len = digits.as_str().unicode_len();
    if len >= width {
        return digits;
    }
    let mut s = String::new();
    let mut i: usize = 0;
    while i < width - len
        invariant
            len < width,
            i <= width - len,
            s@ == Seq::new(i as nat, |k: int| '0'),
        decreases width - len - i,
    {
        push_char(&mut s, '0');
        i = i + 1;
        assert(s@ =~= Seq::new(i as nat, |k: int| '0'));
    }
    push_str(&mut s, digits.as_str());
    assert(s@ =~= zero_pad(decimal(n as nat), width as nat));
    s
}

// ─── Fixed-point rendering ──────────────────────────────────────────────────

pub open spec fn pow10(p: nat) -> nat
    decreases p,
{
    if p == 0 { 1 } else { 10 * pow10((p - 1) as nat) }
}

/// `n / d` rounded to the nearest integer, ties to the even neighbour.
pub open spec fn div_round_half_even(n: nat, d: nat) -> nat
    recommends
        d > 0,
{
    let q = n / d;
    let r = n % d;
    if 2 * r > d {
        q + 1
    } else if 2 * r < d {
        q
    } else if q % 2 == 0 {
        q
    } else {
        q + 1
    }
}

/// `n / d` rendered with `p` decimals (`p > 0`), rounded half to even: the
/// integer part, a dot, and the fraction zero-padded to `p` digits.
pub open spec fn fixed_point(n: nat, d: nat, p: nat) -> Seq<char>
    recommends
        d > 0,
        p > 0,
{
    let scaled = div_round_half_even(n * pow10(p), d);
    decimal(scaled / pow10(p)) + seq!['.'] + zero_pad(decimal(scaled % pow10(p)), p)
}

/// Renders `n / d` with `p` decimals, rounding ties to even.
pub fn fmt_fixed(n: u64, d: u64, p: u32) -> (s: String)
    requires
        d >= 2,
        0 < p <= 4,
    ensures
        s@ == fixed_point(n as nat, d as nat, p as nat),
{
    proof {
        reveal_with_fuel(pow10, 5);
    }
    let scale: u128 = if p == 1 {
        10
    } else if p == 2 {
        100
    } else if p == 3 {
        1000
    } else {
        10000
    };
    assert(scale == pow10(p as nat));
    assert(10 <= scale <= 10000);
    assert((n as u128) * scale <= 0xffff_ffff_ffff_ffffu128 * 10000) by (nonlinear_arith)
        requires
            scale <= 10000,
            n as u128 <= 0xffff_ffff_ffff_ffffu128,
    {
    }
    let num: u128 = (n as u128) * scale;
    let q: u128 = num / (d as u128);
    let r: u128 = num % (d as u128);
    assert(q <= num) by (nonlinear_arith)
        requires
            q == num / (d as u128),
            d >= 1,
    {
    }
    let rounded: u128 = if 2 * r > d as u128 {
        q + 1
    } else if 2 * r < d as u128 {
        q
    } else if q % 2 == 0 {
        q
    } else {
        q + 1
    };
    assert(rounded == div_round_half_even(n as nat * pow10(p as nat), d as nat));
    assert(q * (d as u128) <= num) by (nonlinear_arith)
        requires
            q == num / (d as u128),
            d >= 1,
    {
    }
    let int_part: u64 = (rounded / scale) as u64;
    let frac: u64 = (rounded % scale) as u64;
    if num == 0 {
        assert(q == 0 && r == 0) by (nonlinear_arith)
            requires
                num == 0,
                q == num / (d as u128),
                r == num % (d as u128),
                d >= 1,
        {
        }
    }
    assert(rounded <= num) by (nonlinear_arith)
        requires
            rounded <= q + 1,
            q * (d as u128) <= num,
            num == (n as u128) * scale,
            d >= 2,
            scale >= 10,
            num == 0 ==> rounded == 0,
    {
    }
    assert(rounded / scale <= n as u128) by (nonlinear_arith)
        requires
            rounded <= num,
            num == (n as u128) * scale,
            scale >= 1,
    {
    }
    let mut s = fmt_u64(int_part);
    push_char(&mut s, '.');
    let f = fmt_u64_padded(frac, p as usize);
    push_str(&mut s, f.as_str());
    s
}

proof fn lemma_pow10_positive(p: nat)
    ensures
        pow10(p) >= 1,
    decreases p,
{
    if p > 0 {
        lemma_pow10_positive((p - 1) as nat);
    }
}

// ─── Named results of `str` methods ─────────────────────────────────────────

/// What `str::to_lowercase` returns for a string holding `s`.
pub uninterp spec fn unicode_lowercase(s: Seq<char>) -> Seq<char>;

/// The Unicode White_Space property (`char::is_whitespace`): tab through
/// carriage return, space, next line, no-break space, ogham space mark, the
/// spaces from en quad to hair space, line and paragraph separators, narrow
/// no-break space, medium mathematical space and ideographic space.
pub open spec fn unicode_whitespace(c: char) -> bool {
    let u = c as u32;
    (0x09 <= u <= 0x0d) || u == 0x20 || u == 0x85 || u == 0xa0 || u == 0x1680 || (0x2000 <= u
        <= 0x200a) || u == 0x2028 || u == 0x2029 || u == 0x202f || u == 0x205f || u == 0x3000
}

/// Whether a character is white space, as `unicode_whitespace`.
pub fn is_whitespace(c: char) -> (r: bool)
    ensures
        r == unicode_whitespace(c),
{
    let u = c as u32;
    (0x09 <= u && u <= 0x0d) || u == 0x20 || u == 0x85 || u == 0xa0 || u == 0x1680 || (0x2000 <= u
        && u <= 0x200a) || u == 0x2028 || u == 0x2029 || u == 0x202f || u == 0x205f || u == 0x3000
}

/// `s` without its leading white space.
pub open spec fn trim_start(s: Seq<char>) -> Seq<char>
    decreases s.len(),
{
    if s.len() > 0 && unicode_whitespace(s[0]) {
        trim_start(s.drop_first())
    } else {
        s
    }
}

/// `s` without its trailing white space.
pub open spec fn trim_end(s: Seq<char>) -> Seq<char>
    decreases s.len(),
{
    if s.len() > 0 && unicode_whitespace(s.last()) {
        trim_end(s.drop_last())
    } else {
        s
    }
}

/// `s` without leading and trailing white space (`str::trim`).
pub open spec fn trimmed(s: Seq<char>) -> Seq<char> {
    trim_end(trim_start(s))
}

/// Trimming ASCII text leaves ASCII text.
pub proof fn lemma_trimmed_ascii(s: Seq<char>)
    requires
        vstd::utf8::is_ascii_chars(s),
    ensures
        vstd::utf8::is_ascii_chars(trimmed(s)),
{
    lemma_trim_start_ascii(s);
    lemma_trim_end_ascii(trim_start(s));
}

proof fn lemma_trim_start_ascii(s: Seq<char>)
    requires
        vstd::utf8::is_ascii_chars(s),
    ensures
        vstd::utf8::is_ascii_chars(trim_start(s)),
    decreases s.len(),
{
    if s.len() > 0 && unicode_whitespace(s[0]) {
        assert forall|i: int| 0 <= i < s.drop_first().len() implies '\0' <= #[trigger] s.drop_first()[i]
            <= '\u{7f}' by {
            assert(s.drop_first()[i] == s[i + 1]);
        }
        lemma_trim_start_ascii(s.drop_first());
    }
}

proof fn lemma_trim_end_ascii(s: Seq<char>)
    requires
        vstd::utf8::is_ascii_chars(s),
    ensures
        vstd::utf8::is_ascii_chars(trim_end(s)),
    decreases s.len(),
{
    if s.len() > 0 && unicode_whitespace(s.last()) {
        assert forall|i: int| 0 <= i < s.drop_last().len() implies '\0' <= #[trigger] s.drop_last()[i]
            <= '\u{7f}' by {
            assert(s.drop_last()[i] == s[i]);
        }
        lemma_trim_end_ascii(s.drop_last());
    }
}

/// `str::to_lowercase`: Unicode lower-casing. Its result is named by
/// `unicode_lowercase`, a function of the input's characters; of ASCII text
/// the contract also states that it is ASCII lower-casing, the Unicode
/// lower-case mapping of `A` to `Z` (every other ASCII character maps to
/// itself).
#[verifier::external_body]
pub fn to_lowercase(s: &str) -> (r: String)
    ensures
        r@ == unicode_lowercase(s@),
        vstd::utf8::is_ascii_chars(s@) ==> r@ == ascii_lower_seq(s@),
{
    s.to_lowercase()
}

/// The characters of `s` without leading and trailing white space.
pub fn trim(s: &str) -> (r: String)
    ensures
        r@ == trimmed(s@),
{
    let v = str_chars(s);
    let mut a: usize = 0;
    assert(v@.skip(0) == v@);
    while a < v.len() && is_whitespace(v[a])
        invariant
            a <= v.len(),
            trim_start(v@) == trim_start(v@.skip(a as int)),
        decreases v.len() - a,
    {
        assert(v@.skip(a as int).drop_first() == v@.skip(a + 1));
        a = a + 1;
    }
    let mut b: usize = v.len();
    let ghost t = v@.skip(a as int);
    assert(trim_start(v@) == t) by {
        if a < v.len() {
            assert(t[0] == v@[a as int]);
        } else {
            assert(t.len() == 0);
        }
    }
    while b > a && is_whitespace(v[b - 1])
        invariant
            a <= b <= v.len(),
            t == v@.skip(a as int),
            trim_end(t) == trim_end(v@.subrange(a as int, b as int)),
        decreases b,
    {
        assert(v@.subrange(a as int, b as int).drop_last() == v@.subrange(a as int, b - 1));
        b = b - 1;
    }
    let w = vstd::slice::slice_subrange(v.as_slice(), a, b);
    proof {
        let u = v@.subrange(a as int, b as int);
        assert(u.len() > 0 ==> u.last() == v@[b - 1]);
        assert(trim_end(u) == u);
        assert(v@.skip(a as int).subrange(0, (b - a) as int) == u);
    }
    string_from_chars(w)
}

} // verus!
