//! Tags.

use vstd::prelude::*;
use crate::text::{compare_text, lemma_text_order_facts, lemma_text_order_trans, str_chars, text_order};

verus! {

/// A single tag.
#[derive(Debug, Clone)]
pub struct TagInfo {
    pub name: String,
    /// Abbreviated hash of the tagged object.
    pub short_oid: String,
    /// Annotation message for annotated tags; empty for lightweight tags.
    pub message: String,
}

/// `s` with `t` placed after every tag whose name is not ordered after its.
pub open spec fn insert_tag(s: Seq<TagInfo>, t: TagInfo) -> Seq<TagInfo>
    decreases s.len(),
{
    if s.len() == 0 {
        seq![t]
    } else if text_order(s.last().name@, t.name@) <= 0 {
        s.push(t)
    } else {
        insert_tag(s.drop_last(), t).push(s.last())
    }
}

/// The tags sorted by name, tags of the same name in their first order.
pub open spec fn sort_by_name(s: Seq<TagInfo>) -> Seq<TagInfo>
    decreases s.len(),
{
    if s.len() == 0 {
        Seq::empty()
    } else {
        insert_tag(sort_by_name(s.drop_last()), s.last())
    }
}

/// Sorts tags by name, as `sort_by_name`.
pub fn sort_tags(tags: Vec<TagInfo>) -> (r: Vec<TagInfo>)
    ensures
        r@ == sort_by_name(tags@),
{
    let ghost all = tags@;
    let count = tags.len();
    let mut rest = tags;
    let mut out: Vec<TagInfo> = Vec::new();
    let mut n: usize = 0;
    assert(all.skip(0) =~= all);
    while rest.len() > 0
        invariant
            n + rest@.len() == all.len(),
            all.len() == count,
            rest@ == all.skip(n as int),
            out@ == sort_by_name(all.take(n as int)),
        decreases rest@.len(),
    {
        let ghost old_rest = rest@;
        let t = rest.remove(0);
        assert(old_rest[0] == all[n as int]);
        assert(rest@ =~= all.skip(n + 1));
        let ghost sorted = out@;
        assert(sorted.take(out.len() as int) =~= sorted);
        assert(sorted.skip(out.len() as int) =~= Seq::<TagInfo>::empty());
        let tc = str_chars(t.name.as_str());
        let mut j: usize = out.len();
        while j > 0 && compare_text(str_chars(out[j - 1].name.as_str()).as_slice(), tc.as_slice()) > 0
            invariant
                j <= out@.len(),
                sorted == out@,
                tc@ == t.name@,
                insert_tag(sorted, t) == insert_tag(sorted.take(j as int), t) + sorted.skip(j as int),
            decreases j,
        {
            let ghost p = sorted.take(j as int);
            assert(p.drop_last() =~= sorted.take(j - 1));
            assert(p.last() == sorted[j - 1]);
            assert(sorted.skip(j - 1) =~= seq![sorted[j - 1]] + sorted.skip(j as int));
            assert(insert_tag(sorted.take(j - 1), t).push(sorted[j - 1]) + sorted.skip(j as int)
                =~= insert_tag(sorted.take(j - 1), t) + sorted.skip(j - 1));
            j = j - 1;
        }
        proof {
            let p = sorted.take(j as int);
            if j > 0 {
                assert(p.last() == sorted[j - 1]);
            }
            assert(insert_tag(p, t) == p.push(t));
        }
        out.insert(j, t);
        assert(out@ =~= sorted.take(j as int).push(t) + sorted.skip(j as int));
        assert(all.take(n + 1).drop_last() =~= all.take(n as int));
        n = n + 1;
    }
    assert(all.take(n as int) =~= all);
    out
}

/// The tags of `s` are in order of their names.
pub open spec fn by_name(s: Seq<TagInfo>) -> bool {
    forall|i: int, j: int| 0 <= i <= j < s.len() ==> text_order(s[i].name@, s[j].name@) <= 0
}

proof fn lemma_order_trans(a: Seq<char>, b: Seq<char>, c: Seq<char>)
    requires
        text_order(a, b) <= 0,
        text_order(b, c) <= 0,
    ensures
        text_order(a, c) <= 0,
{
    lemma_text_order_trans(a, b, c, 0);
}

proof fn lemma_insert_tag(s: Seq<TagInfo>, e: TagInfo)
    requires
        by_name(s),
    ensures
        by_name(insert_tag(s, e)),
        insert_tag(s, e).to_multiset() == s.to_multiset().insert(e),
        insert_tag(s, e).len() == s.len() + 1,
        forall|i: int|
            0 <= i < insert_tag(s, e).len() ==> (#[trigger] insert_tag(s, e)[i] == e || s.contains(
                insert_tag(s, e)[i],
            )),
    decreases s.len(),
{
    broadcast use vstd::multiset::group_multiset_axioms, vstd::seq_lib::group_seq_properties;

    if s.len() == 0 {
        assert(seq![e].to_multiset() =~= Seq::<TagInfo>::empty().to_multiset().insert(e));
        lemma_text_order_facts(e.name@, e.name@, 0);
    } else if text_order(s.last().name@, e.name@) <= 0 {
        let r = s.push(e);
        assert forall|i: int, j: int| 0 <= i <= j < r.len() implies text_order(r[i].name@, r[j].name@)
            <= 0 by {
            if j == s.len() {
                if i < s.len() {
                    assert(text_order(s[i].name@, s[s.len() - 1].name@) <= 0);
                    lemma_order_trans(s[i].name@, s.last().name@, e.name@);
                } else {
                    lemma_text_order_facts(e.name@, e.name@, 0);
                }
            } else {
                assert(r[i] == s[i] && r[j] == s[j]);
            }
        }
        assert forall|i: int| 0 <= i < r.len() implies (#[trigger] r[i] == e || s.contains(r[i])) by {
            if i < s.len() {
                assert(s[i] == r[i]);
            }
        }
    } else {
        let t = s.drop_last();
        assert(by_name(t)) by {
            assert forall|i: int, j: int| 0 <= i <= j < t.len() implies text_order(t[i].name@, t[j].name@)
                <= 0 by {
                assert(t[i] == s[i] && t[j] == s[j]);
            }
        }
        lemma_insert_tag(t, e);
        let u = insert_tag(t, e);
        let l = s.last();
        assert(s =~= t.push(l));
        lemma_text_order_facts(l.name@, e.name@, 0);
        let r = u.push(l);
        assert forall|i: int, j: int| 0 <= i <= j < r.len() implies text_order(r[i].name@, r[j].name@)
            <= 0 by {
            if j == u.len() {
                if i < u.len() {
                    if u[i] != e {
                        assert(t.contains(u[i]));
                        let k = choose|k: int| 0 <= k < t.len() && t[k] == u[i];
                        assert(s[k] == t[k]);
                        assert(text_order(s[k].name@, s[s.len() - 1].name@) <= 0);
                    }
                } else {
                    lemma_text_order_facts(l.name@, l.name@, 0);
                }
            } else {
                assert(r[i] == u[i] && r[j] == u[j]);
            }
        }
        assert forall|i: int| 0 <= i < r.len() implies (#[trigger] r[i] == e || s.contains(r[i])) by {
            if i < u.len() {
                if u[i] != e {
                    assert(t.contains(u[i]));
                    let k = choose|k: int| 0 <= k < t.len() && t[k] == u[i];
                    assert(s[k] == t[k]);
                }
            } else {
                assert(s[s.len() - 1] == l);
            }
        }
    }
}

/// Sorting puts the tags in order of their names, losing and adding none.
pub proof fn lemma_sort_by_name(s: Seq<TagInfo>)
    ensures
        by_name(sort_by_name(s)),
        sort_by_name(s).to_multiset() == s.to_multiset(),
    decreases s.len(),
{
    broadcast use vstd::multiset::group_multiset_axioms, vstd::seq_lib::group_seq_properties;

    if s.len() > 0 {
        lemma_sort_by_name(s.drop_last());
        lemma_insert_tag(sort_by_name(s.drop_last()), s.last());
        assert(s =~= s.drop_last().push(s.last()));
    }
}

} // verus!
