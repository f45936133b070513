//! The library's model of file paths: `/`-separated character strings.
//!
//! `file_name` is the last component (trailing separators ignored, `..` and
//! the empty component have none); `extension` is the text after the last
//! `.` of the file name, provided that dot is not its first character.

use vstd::prelude::*;
use crate::text::{
    owned, push_char, push_str,
    compare_text, lemma_text_order_facts, lemma_text_order_trans, num_order, str_chars, text_order,
};

verus! {

/// Index of the last occurrence of `c` in `s`, or -1.
pub open spec fn rfind(s: Seq<char>, c: char) -> int
    decreases s.len(),
{
    if s.len() == 0 {
        -1
    } else if s.last() == c {
        s.len() - 1
    } else {
        rfind(s.drop_last(), c)
    }
}

pub proof fn lemma_rfind(s: Seq<char>, c: char)
    ensures
        -1 <= rfind(s, c) < s.len(),
        rfind(s, c) >= 0 ==> s[rfind(s, c)] == c,
        forall|j: int| rfind(s, c) < j < s.len() ==> s[j] != c,
    decreases s.len(),
{
    if s.len() > 0 && s.last() != c {
        lemma_rfind(s.drop_last(), c);
        assert forall|j: int| rfind(s, c) < j < s.len() implies s[j] != c by {
            if j < s.len() - 1 {
                assert(s[j] == s.drop_last()[j]);
            }
        }
    }
}

/// `s` without its trailing `/` characters.
pub open spec fn strip_trailing_seps(s: Seq<char>) -> Seq<char>
    decreases s.len(),
{
    if s.len() > 0 && s.last() == '/' {
        strip_trailing_seps(s.drop_last())
    } else {
        s
    }
}

/// The text after the last separator (trailing separators ignored).
pub open spec fn last_component(p: Seq<char>) -> Seq<char> {
    let s = strip_trailing_seps(p);
    s.skip(rfind(s, '/') + 1)
}

/// The final component of a path, if it names a file or directory.
pub open spec fn file_name(p: Seq<char>) -> Option<Seq<char>> {
    let n = last_component(p);
    if n.len() == 0 || n == seq!['.', '.'] {
        None
    } else {
        Some(n)
    }
}

/// The extension of a file name: the text after its last `.`, unless that
/// dot is its first character or there is none.
pub open spec fn name_extension(n: Seq<char>) -> Option<Seq<char>> {
    let i = rfind(n, '.');
    if i <= 0 {
        None
    } else {
        Some(n.skip(i + 1))
    }
}

/// The extension of a path's file name.
pub open spec fn extension(p: Seq<char>) -> Option<Seq<char>> {
    match file_name(p) {
        Some(n) => name_extension(n),
        None => None,
    }
}

/// The path without its final component (`""` for a bare name).
pub open spec fn parent(p: Seq<char>) -> Seq<char> {
    let s = strip_trailing_seps(p);
    let i = rfind(s, '/');
    if i < 0 {
        Seq::empty()
    } else if i == 0 {
        seq!['/']
    } else {
        s.take(i)
    }
}

pub fn rfind_char(s: &[char], c: char) -> (r: Option<usize>)
    ensures
        match r {
            Some(i) => rfind(s@, c) == i,
            None => rfind(s@, c) == -1,
        },
{
    let mut i: usize = s.len();
    assert(s@.take(i as int) == s@);
    while i > 0
        invariant
            i <= s.len(),
            rfind(s@, c) == rfind(s@.take(i as int), c),
        decreases i,
    {
        assert(s@.take(i as int).drop_last() == s@.take(i - 1));
        if s[i - 1] == c {
            return Some(i - 1);
        }
        i = i - 1;
    }
    None
}

pub fn strip_trailing_seps_len(s: &[char]) -> (n: usize)
    ensures
        n <= s.len(),
        s@.take(n as int) == strip_trailing_seps(s@),
{
    let mut n: usize = s.len();
    assert(s@.take(n as int) == s@);
    while n > 0 && s[n - 1] == '/'
        invariant
            n <= s.len(),
            strip_trailing_seps(s@) == strip_trailing_seps(s@.take(n as int)),
        decreases n,
    {
        assert(s@.take(n as int).drop_last() == s@.take(n - 1));
        n = n - 1;
    }
    n
}

/// The characters of the path's last component.
pub fn last_component_chars(p: &[char]) -> (r: Vec<char>)
    ensures
        r@ == last_component(p@),
{
    let n = strip_trailing_seps_len(p);
    let s = vstd::slice::slice_subrange(p, 0, n);
    let i = rfind_char(s, '/');
    proof { lemma_rfind(s@, '/'); }
    let start = match i { Some(i) => i + 1, None => 0 };
    let mut r: Vec<char> = Vec::new();
    let mut k = start;
    while k < n
        invariant
            start <= k <= n,
            n == s.len(),
            r@ == s@.subrange(start as int, k as int),
        decreases n - k,
    {
        r.push(s[k]);
        k = k + 1;
    }
    assert(s@.skip(start as int) == s@.subrange(start as int, n as int));
    r
}

/// The final component of a path, if any (`Path::file_name`).
pub fn file_name_chars(p: &[char]) -> (r: Option<Vec<char>>)
    ensures
        match r {
            Some(v) => file_name(p@) == Some(v@),
            None => file_name(p@) is None,
        },
{
    let n = last_component_chars(p);
    if n.len() == 0 || (n.len() == 2 && n[0] == '.' && n[1] == '.') {
        assert(n.len() == 2 ==> n@ =~= seq!['.', '.'] || !(n[0] == '.' && n[1] == '.'));
        None
    } else {
        assert(n@.len() == 2 ==> n@ != seq!['.', '.']);
        Some(n)
    }
}

/// The extension of a file name (`Path::extension` on a bare name).
pub fn name_extension_chars(n: &[char]) -> (r: Option<Vec<char>>)
    ensures
        match r {
            Some(v) => name_extension(n@) == Some(v@),
            None => name_extension(n@) is None,
        },
{
    let i = rfind_char(n, '.');
    proof { lemma_rfind(n@, '.'); }
    match i {
        Some(i) if i > 0 => {
            assert(i < n@.len());
            assert(i < n.len());
            let rest = vstd::slice::slice_subrange(n, i + 1, n.len());
            let v = vstd::slice::slice_to_vec(rest);
            assert(v@ == n@.skip(i + 1));
            Some(v)
        },
        _ => None,
    }
}

/// The extension of a path's file name (`Path::extension`).
pub fn extension_chars(p: &[char]) -> (r: Option<Vec<char>>)
    ensures
        match r {
            Some(v) => extension(p@) == Some(v@),
            None => extension(p@) is None,
        },
{
    match file_name_chars(p) {
        Some(n) => name_extension_chars(n.as_slice()),
        None => None,
    }
}

/// The path without its final component (`Path::parent`, `""` at the top).
pub fn parent_chars(p: &[char]) -> (r: Vec<char>)
    ensures
        r@ == parent(p@),
{
    let n = strip_trailing_seps_len(p);
    let s = vstd::slice::slice_subrange(p, 0, n);
    let i = rfind_char(s, '/');
    proof { lemma_rfind(s@, '/'); }
    match i {
        None => Vec::new(),
        Some(0) => {
            let mut v = Vec::new();
            v.push('/');
            assert(v@ =~= seq!['/']);
            v
        },
        Some(i) => {
            let t = vstd::slice::slice_subrange(s, 0, i);
            vstd::slice::slice_to_vec(t)
        },
    }
}

// ─── Components and their order ─────────────────────────────────────────────

/// The pieces of `s` between occurrences of `sep` (always at least one).
pub open spec fn split_on(s: Seq<char>, sep: char) -> Seq<Seq<char>>
    decreases s.len(),
{
    if s.len() == 0 {
        seq![Seq::<char>::empty()]
    } else {
        let t = split_on(s.drop_last(), sep);
        if s.last() == sep {
            t.push(Seq::<char>::empty())
        } else {
            t.update(t.len() - 1, t.last().push(s.last()))
        }
    }
}

proof fn lemma_split_nonempty(s: Seq<char>, sep: char)
    ensures
        split_on(s, sep).len() >= 1,
    decreases s.len(),
{
    if s.len() > 0 {
        lemma_split_nonempty(s.drop_last(), sep);
    }
}

/// Component kinds, in the order paths compare them: the root, `.`, `..`,
/// and a name.
pub open spec fn root_dir() -> nat { 1 }
pub open spec fn cur_dir() -> nat { 2 }
pub open spec fn parent_dir() -> nat { 3 }
pub open spec fn normal() -> nat { 4 }

/// The component a `/`-separated piece stands for: empty pieces and `.`
/// vanish, except a `.` that begins a path without a root.
pub open spec fn component_of(seg: Seq<char>, leading: bool) -> Option<(nat, Seq<char>)> {
    if seg.len() == 0 {
        None
    } else if seg == seq!['.'] {
        if leading { Some((cur_dir(), Seq::<char>::empty())) } else { None }
    } else if seg == seq!['.', '.'] {
        Some((parent_dir(), Seq::<char>::empty()))
    } else {
        Some((normal(), seg))
    }
}

/// The components of the pieces, in order.
pub open spec fn components_of_pieces(segs: Seq<Seq<char>>, rooted: bool) -> Seq<(nat, Seq<char>)>
    decreases segs.len(),
{
    if segs.len() == 0 {
        Seq::empty()
    } else {
        let prev = components_of_pieces(segs.drop_last(), rooted);
        match component_of(segs.last(), !rooted && segs.len() == 1) {
            Some(c) => prev.push(c),
            None => prev,
        }
    }
}

/// The components of a path (`Path::components`): the root if it starts
/// with `/`, then its names, `..` and a leading `.`.
pub open spec fn path_components(p: Seq<char>) -> Seq<(nat, Seq<char>)> {
    let rooted = p.len() > 0 && p[0] == '/';
    let root = if rooted {
        seq![(root_dir(), Seq::<char>::empty())]
    } else {
        Seq::<(nat, Seq<char>)>::empty()
    };
    root + components_of_pieces(split_on(p, '/'), rooted)
}

/// Three-way comparison of two components: by kind, then by name.
pub open spec fn component_order(a: (nat, Seq<char>), b: (nat, Seq<char>)) -> int {
    if a.0 != b.0 {
        num_order(a.0 as int, b.0 as int)
    } else {
        text_order(a.1, b.1)
    }
}

/// Lexicographic comparison of component sequences from index `i` on.
pub open spec fn components_order_from(
    a: Seq<(nat, Seq<char>)>,
    b: Seq<(nat, Seq<char>)>,
    i: int,
) -> int
    decreases a.len() - i,
{
    if i < 0 || i >= a.len() {
        if i >= 0 && i >= b.len() { 0 } else { -1 }
    } else if i >= b.len() {
        1
    } else if component_order(a[i], b[i]) != 0 {
        component_order(a[i], b[i])
    } else {
        components_order_from(a, b, i + 1)
    }
}

/// The order of paths (`Ord for Path`): component by component.
pub open spec fn path_order(a: Seq<char>, b: Seq<char>) -> int {
    components_order_from(path_components(a), path_components(b), 0)
}

proof fn lemma_component_order(a: (nat, Seq<char>), b: (nat, Seq<char>), c: (nat, Seq<char>))
    ensures
        -1 <= component_order(a, b) <= 1,
        component_order(b, a) == -component_order(a, b),
        component_order(a, b) == 0 ==> a == b,
        component_order(a, b) <= 0 && component_order(b, c) <= 0 ==> component_order(a, c) <= 0,
{
    lemma_text_order_facts(a.1, b.1, 0);
    lemma_text_order_facts(b.1, c.1, 0);
    lemma_text_order_facts(a.1, c.1, 0);
    assert(a.1.skip(0) == a.1);
    assert(b.1.skip(0) == b.1);
    if component_order(a, b) <= 0 && component_order(b, c) <= 0 && a.0 == b.0 && b.0 == c.0 {
        lemma_text_order_trans(a.1, b.1, c.1, 0);
    }
}

proof fn lemma_components_order_basic(a: Seq<(nat, Seq<char>)>, b: Seq<(nat, Seq<char>)>, i: int)
    requires
        0 <= i,
    ensures
        -1 <= components_order_from(a, b, i) <= 1,
        components_order_from(b, a, i) == -components_order_from(a, b, i),
    decreases a.len() - i,
{
    if i < a.len() && i < b.len() {
        lemma_component_order(a[i], b[i], b[i]);
        if component_order(a[i], b[i]) == 0 {
            lemma_components_order_basic(a, b, i + 1);
        }
    }
}

proof fn lemma_components_order_trans(
    a: Seq<(nat, Seq<char>)>,
    b: Seq<(nat, Seq<char>)>,
    c: Seq<(nat, Seq<char>)>,
    i: int,
)
    requires
        0 <= i,
        components_order_from(a, b, i) <= 0,
        components_order_from(b, c, i) <= 0,
    ensures
        components_order_from(a, c, i) <= 0,
    decreases a.len() - i,
{
    if i < a.len() {
        lemma_component_order(a[i], b[i], c[i]);
        lemma_component_order(b[i], c[i], c[i]);
        lemma_component_order(a[i], c[i], c[i]);
        lemma_component_order(b[i], a[i], a[i]);
        if component_order(a[i], b[i]) == 0 && component_order(b[i], c[i]) == 0 {
            lemma_components_order_trans(a, b, c, i + 1);
        }
    }
}

/// `path_order` takes the values -1, 0, 1, is negated by swapping the paths,
/// and is transitive where it is at most 0.
pub proof fn lemma_path_order(a: Seq<char>, b: Seq<char>, c: Seq<char>)
    ensures
        -1 <= path_order(a, b) <= 1,
        path_order(b, a) == -path_order(a, b),
        path_order(a, b) <= 0 && path_order(b, c) <= 0 ==> path_order(a, c) <= 0,
{
    lemma_components_order_basic(path_components(a), path_components(b), 0);
    if path_order(a, b) <= 0 && path_order(b, c) <= 0 {
        lemma_components_order_trans(path_components(a), path_components(b), path_components(c), 0);
    }
}

/// The pieces of `s` between `sep` characters (`str::split`).
pub fn split_chars(s: &[char], sep: char) -> (r: Vec<Vec<char>>)
    ensures
        r@.map_values(|v: Vec<char>| v@) == split_on(s@, sep),
{
    let mut done: Vec<Vec<char>> = Vec::new();
    let mut cur: Vec<char> = Vec::new();
    let mut i: usize = 0;
    while i < s.len()
        invariant
            i <= s.len(),
            done@.map_values(|v: Vec<char>| v@).push(cur@) == split_on(s@.take(i as int), sep),
        decreases s.len() - i,
    {
        let ghost before = done@.map_values(|v: Vec<char>| v@).push(cur@);
        proof {
            assert(s@.take(i + 1).drop_last() == s@.take(i as int));
            lemma_split_nonempty(s@.take(i as int), sep);
        }
        if s[i] == sep {
            done.push(cur);
            cur = Vec::new();
            assert(done@.map_values(|v: Vec<char>| v@) == before);
        } else {
            cur.push(s[i]);
            assert(done@.map_values(|v: Vec<char>| v@).push(cur@) =~= before.update(
                before.len() - 1,
                before.last().push(s@[i as int]),
            ));
        }
        i = i + 1;
    }
    assert(s@.take(s.len() as int) == s@);
    done.push(cur);
    done
}

/// The view of executable components.
pub open spec fn components_view(v: Seq<(u8, Vec<char>)>) -> Seq<(nat, Seq<char>)> {
    v.map_values(|c: (u8, Vec<char>)| (c.0 as nat, c.1@))
}

/// The components of a path, as `path_components`.
pub fn path_components_of(p: &[char]) -> (r: Vec<(u8, Vec<char>)>)
    ensures
        components_view(r@) == path_components(p@),
{
    let rooted = p.len() > 0 && p[0] == '/';
    let segs = split_chars(p, '/');
    let ghost sv = split_on(p@, '/');
    let mut out: Vec<(u8, Vec<char>)> = Vec::new();
    if rooted {
        out.push((1, Vec::new()));
    }
    let ghost root = components_view(out@);
    assert(root == (if rooted {
        seq![(root_dir(), Seq::<char>::empty())]
    } else {
        Seq::<(nat, Seq<char>)>::empty()
    }));
    let mut k: usize = 0;
    while k < segs.len()
        invariant
            segs@.map_values(|v: Vec<char>| v@) == sv,
            sv == split_on(p@, '/'),
            rooted == (p@.len() > 0 && p@[0] == '/'),
            k <= segs.len(),
            root == (if rooted {
                seq![(root_dir(), Seq::<char>::empty())]
            } else {
                Seq::<(nat, Seq<char>)>::empty()
            }),
            components_view(out@) == root + components_of_pieces(sv.take(k as int), rooted),
        decreases segs.len() - k,
    {
        let seg = &segs[k];
        assert(seg@ == sv[k as int]);
        assert(sv.take(k + 1).drop_last() == sv.take(k as int));
        assert(sv.take(k + 1).last() == sv[k as int]);
        let ghost prev = components_view(out@);
        if seg.len() == 0 {
        } else if seg.len() == 1 && seg[0] == '.' {
            assert(seg@ =~= seq!['.']);
            if !rooted && k == 0 {
                out.push((2, Vec::new()));
                assert(components_view(out@) =~= prev.push((cur_dir(), Seq::<char>::empty())));
            }
        } else if seg.len() == 2 && seg[0] == '.' && seg[1] == '.' {
            assert(seg@ =~= seq!['.', '.']);
            out.push((3, Vec::new()));
            assert(components_view(out@) =~= prev.push((parent_dir(), Seq::<char>::empty())));
        } else {
            assert(seg@ != seq!['.']) by {
                if seg@ == seq!['.'] { assert(seg@[0] == '.'); }
            }
            assert(seg@ != seq!['.', '.']) by {
                if seg@ == seq!['.', '.'] { assert(seg@[0] == '.' && seg@[1] == '.'); }
            }
            let copy = vstd::slice::slice_to_vec(seg.as_slice());
            out.push((4, copy));
            assert(components_view(out@) =~= prev.push((normal(), seg@)));
        }
        k = k + 1;
    }
    assert(sv.take(segs@.len() as int) == sv);
    out
}

/// Three-way comparison of two paths, as `path_order`.
pub fn compare_paths(a: &str, b: &str) -> (r: i8)
    ensures
        r == path_order(a@, b@),
{
    let ca = path_components_of(str_chars(a).as_slice());
    let cb = path_components_of(str_chars(b).as_slice());
    let ghost va = components_view(ca@);
    let ghost vb = components_view(cb@);
    let mut i: usize = 0;
    while i < ca.len() && i < cb.len()
        invariant
            va == components_view(ca@),
            vb == components_view(cb@),
            va == path_components(a@),
            vb == path_components(b@),
            i <= ca.len(),
            i <= cb.len(),
            path_order(a@, b@) == components_order_from(va, vb, i as int),
        decreases ca.len() - i,
    {
        let x = &ca[i];
        let y = &cb[i];
        assert(va[i as int] == (x.0 as nat, x.1@));
        assert(vb[i as int] == (y.0 as nat, y.1@));
        if x.0 != y.0 {
            return if x.0 < y.0 { -1 } else { 1 };
        }
        let t = compare_text(x.1.as_slice(), y.1.as_slice());
        if t != 0 {
            return t;
        }
        i = i + 1;
    }
    if i >= ca.len() {
        if i >= cb.len() { 0 } else { -1 }
    } else {
        1
    }
}

// ─── Joining ────────────────────────────────────────────────────────────────

/// `a` joined with `b` (`Path::join`): `b` when it starts at the root,
/// else `b` after `a` with one separator between them (none when `a` is
/// empty or already ends with one).
pub open spec fn join(a: Seq<char>, b: Seq<char>) -> Seq<char> {
    if b.len() > 0 && b[0] == '/' {
        b
    } else if a.len() == 0 || a.last() == '/' {
        a + b
    } else {
        a + seq!['/'] + b
    }
}

/// Two paths joined, as `join`.
pub fn join_path(a: &str, b: &str) -> (r: String)
    ensures
        r@ == join(a@, b@),
{
    let bc = str_chars(b);
    if bc.len() > 0 && bc[0] == '/' {
        return owned(b);
    }
    let ac = str_chars(a);
    let mut out = owned(a);
    if !(ac.len() == 0 || ac[ac.len() - 1] == '/') {
        push_char(&mut out, '/');
    }
    push_str(&mut out, b);
    out
}

} // verus!
