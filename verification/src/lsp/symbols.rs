//! Document symbols: the hierarchical `DocumentSymbol[]` shape read as an
//! outline tree, and the flat `SymbolInformation[]` shape nested by
//! container name.

use vstd::prelude::*;
use crate::lsp::json::{
    as_array, as_u64, depth, get, lemma_depth_parts, lemma_models, models, Json, JsonValue,
};
use crate::lsp::parse::{str_field, str_member};
use crate::lsp::types::{OutlineNode, SymbolKind};
use crate::text::str_eq;

verus! {

/// The abstract view of an outline node.
pub struct OutlineView {
    pub name: Seq<char>,
    pub kind: SymbolKind,
    pub line: usize,
    pub end_line: usize,
    pub children: Seq<OutlineView>,
    pub expanded: bool,
}

/// The view of a node with its subtree.
pub open spec fn outline_view(n: OutlineNode) -> OutlineView
    decreases n, 0nat,
{
    OutlineView {
        name: n.name@,
        kind: n.kind,
        line: n.line,
        end_line: n.end_line,
        children: outline_views(n.children@),
        expanded: n.expanded,
    }
}

/// The views of a sequence of nodes.
pub open spec fn outline_views(s: Seq<OutlineNode>) -> Seq<OutlineView>
    decreases s, 1nat,
{
    if s.len() == 0 {
        Seq::empty()
    } else {
        outline_views(s.drop_last()).push(outline_view(s.last()))
    }
}

proof fn lemma_push_view(s: Seq<OutlineNode>, n: OutlineNode)
    ensures
        outline_views(s.push(n)) == outline_views(s).push(outline_view(n)),
{
    assert(s.push(n).drop_last() == s);
}

/// `SymbolKind` numbers as the outline's kinds (method, constructor and
/// function are functions; namespace and package are modules).
pub open spec fn outline_kind_of(kind: u64) -> SymbolKind {
    match kind {
        12 | 6 | 9 => SymbolKind::Function,
        23 => SymbolKind::Struct,
        10 => SymbolKind::Enum,
        11 => SymbolKind::Trait,
        19 => SymbolKind::Impl,
        14 => SymbolKind::Constant,
        2 | 3 => SymbolKind::Module,
        8 => SymbolKind::Field,
        _ => SymbolKind::Other,
    }
}

/// The outline kind of a `SymbolKind` number, as `outline_kind_of`.
pub fn map_lsp_kind_to_custom(kind: u64) -> (r: SymbolKind)
    ensures
        r == outline_kind_of(kind),
{
    match kind {
        12 | 6 | 9 => SymbolKind::Function,
        23 => SymbolKind::Struct,
        10 => SymbolKind::Enum,
        11 => SymbolKind::Trait,
        19 => SymbolKind::Impl,
        14 => SymbolKind::Constant,
        2 | 3 => SymbolKind::Module,
        8 => SymbolKind::Field,
        _ => SymbolKind::Other,
    }
}

/// The `line` of position member `end` of a range.
pub open spec fn line_of(range: Json, end: Seq<char>) -> Option<usize> {
    match get(range, end) {
        Some(p) => match get(p, "line"@) {
            Some(l) => match as_u64(l) {
                Some(n) => Some(n as usize),
                None => None,
            },
            None => None,
        },
        None => None,
    }
}

// ─── Hierarchical symbols ───────────────────────────────────────────────────

/// One `DocumentSymbol`: name, kind, the lines of its range, and its
/// children when they read as hierarchical symbols.
pub open spec fn doc_symbol_of(item: Json) -> Option<OutlineView>
    decreases depth(item), 2nat, 0nat,
{
    match (str_field(item, "name"@), get(item, "kind"@), get(item, "range"@)) {
        (Some(name), Some(k), Some(range)) => match (
            as_u64(k),
            line_of(range, "start"@),
            line_of(range, "end"@),
        ) {
            (Some(kind_num), Some(sl), Some(el)) => {
                let children = match get(item, "children"@) {
                    Some(cv) => {
                        proof {
                            lemma_depth_parts(item, "children"@);
                        }
                        match hierarchical_of(cv) {
                            Some(c) => c,
                            None => Seq::empty(),
                        }
                    },
                    None => Seq::empty(),
                };
                Some(
                    OutlineView {
                        name,
                        kind: outline_kind_of(kind_num),
                        line: sl,
                        end_line: el,
                        children,
                        expanded: false,
                    },
                )
            },
            _ => None,
        },
        _ => None,
    }
}

/// The well-formed symbols among `a`, each shallower than `bound`.
pub open spec fn doc_symbols_in(a: Seq<Json>, bound: nat) -> Seq<OutlineView>
    decreases bound, 1nat, a.len(),
{
    if a.len() == 0 {
        Seq::empty()
    } else {
        let prev = doc_symbols_in(a.drop_last(), bound);
        if depth(a.last()) < bound {
            match doc_symbol_of(a.last()) {
                Some(n) => prev.push(n),
                None => prev,
            }
        } else {
            prev
        }
    }
}

/// An array read as hierarchical symbols: unless its first element has no
/// `range` (then it is not of this shape), its well-formed symbols.
pub open spec fn hierarchical_of(val: Json) -> Option<Seq<OutlineView>>
    decreases depth(val), 3nat, 0nat,
{
    match as_array(val) {
        Some(arr) => if arr.len() > 0 && get(arr[0], "range"@) is None {
            None
        } else {
            Some(doc_symbols_in(arr, depth(val)))
        },
        None => None,
    }
}

fn line_member(range: &JsonValue, end: &str) -> (r: Option<usize>)
    ensures
        r == line_of(range.model(), end@),
{
    match range.get(end) {
        Some(p) => match p.get("line") {
            Some(l) => match l.as_u64() {
                Some(n) => Some(n as usize),
                None => None,
            },
            None => None,
        },
        None => None,
    }
}

/// One `DocumentSymbol`, as `doc_symbol_of`.
pub fn parse_single_document_symbol(item: &JsonValue) -> (r: Option<OutlineNode>)
    ensures
        match r {
            Some(n) => doc_symbol_of(item.model()) == Some(outline_view(n)),
            None => doc_symbol_of(item.model()) is None,
        },
    decreases depth(item.model()), 0nat,
{
    let name = match str_member(item, "name") {
        Some(n) => n,
        None => return None,
    };
    let k = match item.get("kind") {
        Some(k) => k,
        None => return None,
    };
    let range = match item.get("range") {
        Some(r) => r,
        None => return None,
    };
    let kind_num = match k.as_u64() {
        Some(n) => n,
        None => return None,
    };
    let start_line = match line_member(range, "start") {
        Some(l) => l,
        None => return None,
    };
    let end_line = match line_member(range, "end") {
        Some(l) => l,
        None => return None,
    };
    let kind = map_lsp_kind_to_custom(kind_num);
    let mut children: Vec<OutlineNode> = Vec::new();
    match item.get("children") {
        Some(children_val) => {
            proof {
                lemma_depth_parts(item.model(), "children"@);
            }
            match parse_hierarchical_symbols(children_val) {
                Some(parsed) => {
                    children = parsed;
                },
                None => {},
            }
        },
        None => {},
    }
    assert(outline_views(Seq::<OutlineNode>::empty()) =~= Seq::<OutlineView>::empty());
    Some(OutlineNode { name, kind, line: start_line, end_line, children, expanded: false })
}

/// An array read as hierarchical symbols, as `hierarchical_of`.
pub fn parse_hierarchical_symbols(val: &JsonValue) -> (r: Option<Vec<OutlineNode>>)
    ensures
        match r {
            Some(v) => hierarchical_of(val.model()) == Some(outline_views(v@)),
            None => hierarchical_of(val.model()) is None,
        },
    decreases depth(val.model()), 1nat,
{
    let arr = match val.as_array() {
        Some(a) => a,
        None => return None,
    };
    let ghost a = models(arr@);
    let ghost bound = depth(val.model());
    proof {
        lemma_models(arr@);
        lemma_depth_parts(val.model(), ""@);
    }
    if arr.len() > 0 && arr[0].get("range").is_none() {
        return None;
    }
    let mut nodes: Vec<OutlineNode> = Vec::new();
    let mut i: usize = 0;
    while i < arr.len()
        invariant
            a == models(arr@),
            a.len() == arr@.len(),
            forall|k: int| 0 <= k < arr@.len() ==> #[trigger] a[k] == arr@[k].model(),
            bound == depth(val.model()),
            as_array(val.model()) == Some(a),
            forall|k: int| 0 <= k < a.len() ==> #[trigger] depth(a[k]) < bound,
            i <= arr.len(),
            outline_views(nodes@) == doc_symbols_in(a.take(i as int), bound),
        decreases arr.len() - i,
    {
        proof {
            assert(a.take(i + 1).drop_last() == a.take(i as int));
            assert(a.take(i + 1).last() == a[i as int]);
            assert(depth(a[i as int]) < bound);
        }
        match parse_single_document_symbol(&arr[i]) {
            Some(node) => {
                proof {
                    lemma_push_view(nodes@, node);
                }
                nodes.push(node);
            },
            None => {},
        }
        i = i + 1;
    }
    assert(a.take(arr.len() as int) == a);
    Some(nodes)
}

// ─── Flat symbols ───────────────────────────────────────────────────────────

/// A flat symbol: name, kind, start and end lines, container name.
pub type FlatView = (Seq<char>, SymbolKind, usize, usize, Option<Seq<char>>);

/// One `SymbolInformation`: name, kind, the lines of its location's range,
/// container name.
pub open spec fn flat_symbol_of(item: Json) -> Option<FlatView> {
    match (str_field(item, "name"@), get(item, "kind"@), get(item, "location"@)) {
        (Some(name), Some(k), Some(location)) => match (as_u64(k), get(location, "range"@)) {
            (Some(kind_num), Some(range)) => match (
                line_of(range, "start"@),
                line_of(range, "end"@),
            ) {
                (Some(sl), Some(el)) => Some(
                    (name, outline_kind_of(kind_num), sl, el, str_field(item, "containerName"@)),
                ),
                _ => None,
            },
            _ => None,
        },
        _ => None,
    }
}

/// The well-formed flat symbols among the first `k` elements.
pub open spec fn flat_symbols_upto(a: Seq<Json>, k: int) -> Seq<FlatView>
    decreases k,
{
    if k <= 0 || k > a.len() {
        Seq::empty()
    } else {
        let prev = flat_symbols_upto(a, k - 1);
        match flat_symbol_of(a[k - 1]) {
            Some(s) => prev.push(s),
            None => prev,
        }
    }
}

/// The nodes of the first `k` symbols whose container is `name`, each with
/// its own children below it, `fuel` levels deep.
pub open spec fn children_upto(raw: Seq<FlatView>, name: Seq<char>, fuel: nat, k: int) -> Seq<
    OutlineView,
>
    decreases fuel, k,
{
    if k <= 0 || k > raw.len() {
        Seq::empty()
    } else {
        let prev = children_upto(raw, name, fuel, k - 1);
        let s = raw[k - 1];
        if s.4 == Some(name) {
            prev.push(
                OutlineView {
                    name: s.0,
                    kind: s.1,
                    line: s.2,
                    end_line: s.3,
                    children: if fuel == 0 {
                        Seq::empty()
                    } else {
                        children_upto(raw, s.0, (fuel - 1) as nat, raw.len() as int)
                    },
                    expanded: false,
                },
            )
        } else {
            prev
        }
    }
}

/// Whether some symbol is named `c`.
pub open spec fn has_name(raw: Seq<FlatView>, c: Seq<char>) -> bool {
    exists|j: int| 0 <= j < raw.len() && (#[trigger] raw[j]).0 == c
}

/// The top-level nodes among the first `k` symbols: those without a
/// container, or whose container is not the name of any symbol; each with
/// its children nested by container name.
pub open spec fn top_upto(raw: Seq<FlatView>, k: int) -> Seq<OutlineView>
    decreases k,
{
    if k <= 0 || k > raw.len() {
        Seq::empty()
    } else {
        let prev = top_upto(raw, k - 1);
        let s = raw[k - 1];
        let is_top = match s.4 {
            None => true,
            Some(c) => !has_name(raw, c),
        };
        if is_top {
            prev.push(
                OutlineView {
                    name: s.0,
                    kind: s.1,
                    line: s.2,
                    end_line: s.3,
                    children: children_upto(raw, s.0, raw.len() as nat, raw.len() as int),
                    expanded: false,
                },
            )
        } else {
            prev
        }
    }
}

/// A flat symbol array nested by container name. Nesting goes as many
/// levels deep as there are symbols; a deeper chain must repeat a name, and
/// then it would never end.
pub open spec fn flat_outline_of(val: Json) -> Seq<OutlineView> {
    match as_array(val) {
        Some(a) => {
            let raw = flat_symbols_upto(a, a.len() as int);
            top_upto(raw, raw.len() as int)
        },
        None => Seq::empty(),
    }
}

/// A `textDocument/documentSymbol` result: hierarchical symbols when the
/// result has that shape, else flat symbols nested by container.
pub open spec fn document_symbols_of(result: Json) -> Seq<OutlineView> {
    if result is Null {
        Seq::empty()
    } else {
        match hierarchical_of(result) {
            Some(nodes) => nodes,
            None => flat_outline_of(result),
        }
    }
}

type FlatSymbol = (String, SymbolKind, usize, usize, Option<String>);

spec fn flat_view(s: FlatSymbol) -> FlatView {
    (s.0@, s.1, s.2, s.3, s.4.deep_view())
}

spec fn flat_views(s: Seq<FlatSymbol>) -> Seq<FlatView> {
    s.map_values(|x: FlatSymbol| flat_view(x))
}

fn parse_single_flat_symbol(item: &JsonValue) -> (r: Option<FlatSymbol>)
    ensures
        match r {
            Some(s) => flat_symbol_of(item.model()) == Some(flat_view(s)),
            None => flat_symbol_of(item.model()) is None,
        },
{
    let name = match str_member(item, "name") {
        Some(n) => n,
        None => return None,
    };
    let k = match item.get("kind") {
        Some(k) => k,
        None => return None,
    };
    let location = match item.get("location") {
        Some(l) => l,
        None => return None,
    };
    let kind_num = match k.as_u64() {
        Some(n) => n,
        None => return None,
    };
    let range = match location.get("range") {
        Some(r) => r,
        None => return None,
    };
    let start_line = match line_member(range, "start") {
        Some(l) => l,
        None => return None,
    };
    let end_line = match line_member(range, "end") {
        Some(l) => l,
        None => return None,
    };
    let container = str_member(item, "containerName");
    Some((name, map_lsp_kind_to_custom(kind_num), start_line, end_line, container))
}

fn build_children(raw: &Vec<FlatSymbol>, name: &str, fuel: usize) -> (r: Vec<OutlineNode>)
    ensures
        outline_views(r@) == children_upto(flat_views(raw@), name@, fuel as nat, raw@.len() as int),
    decreases fuel,
{
    let ghost rv = flat_views(raw@);
    let mut out: Vec<OutlineNode> = Vec::new();
    let mut k: usize = 0;
    while k < raw.len()
        invariant
            rv == flat_views(raw@),
            rv.len() == raw@.len(),
            k <= raw.len(),
            outline_views(out@) == children_upto(rv, name@, fuel as nat, k as int),
        decreases raw.len() - k,
    {
        let s = &raw[k];
        assert(rv[k as int] == flat_view(raw@[k as int]));
        let matches = match &s.4 {
            Some(c) => str_eq(c.as_str(), name),
            None => false,
        };
        if matches {
            let children = if fuel == 0 {
                Vec::new()
            } else {
                build_children(raw, s.0.as_str(), fuel - 1)
            };
            assert(fuel == 0 ==> outline_views(children@) =~= Seq::<OutlineView>::empty());
            let node = OutlineNode {
                name: s.0.clone(),
                kind: s.1,
                line: s.2,
                end_line: s.3,
                children,
                expanded: false,
            };
            proof {
                lemma_push_view(out@, node);
            }
            out.push(node);
        }
        k = k + 1;
    }
    out
}

fn name_exists(raw: &Vec<FlatSymbol>, c: &str) -> (r: bool)
    ensures
        r == has_name(flat_views(raw@), c@),
{
    let ghost rv = flat_views(raw@);
    let mut j: usize = 0;
    while j < raw.len()
        invariant
            rv == flat_views(raw@),
            rv.len() == raw@.len(),
            j <= raw.len(),
            forall|i: int| 0 <= i < j ==> (#[trigger] rv[i]).0 != c@,
        decreases raw.len() - j,
    {
        assert(rv[j as int] == flat_view(raw@[j as int]));
        if str_eq(raw[j].0.as_str(), c) {
            assert(rv[j as int].0 == c@);
            return true;
        }
        j = j + 1;
    }
    false
}

/// A flat symbol array, as `flat_outline_of`.
pub fn parse_flat_symbols(val: &JsonValue) -> (r: Vec<OutlineNode>)
    ensures
        outline_views(r@) == flat_outline_of(val.model()),
{
    let arr = match val.as_array() {
        Some(a) => a,
        None => {
            assert(outline_views(Seq::<OutlineNode>::empty()) =~= Seq::<OutlineView>::empty());
            return Vec::new();
        },
    };
    let ghost a = models(arr@);
    proof {
        lemma_models(arr@);
    }
    let mut raw: Vec<FlatSymbol> = Vec::new();
    let mut i: usize = 0;
    while i < arr.len()
        invariant
            a == models(arr@),
            a.len() == arr@.len(),
            forall|k: int| 0 <= k < arr@.len() ==> #[trigger] a[k] == arr@[k].model(),
            i <= arr.len(),
            flat_views(raw@) == flat_symbols_upto(a, i as int),
        decreases arr.len() - i,
    {
        match parse_single_flat_symbol(&arr[i]) {
            Some(s) => {
                let ghost before = raw@;
                raw.push(s);
                assert(flat_views(raw@) =~= flat_views(before).push(flat_view(s)));
            },
            None => {},
        }
        i = i + 1;
    }
    let ghost rv = flat_views(raw@);
    let mut top: Vec<OutlineNode> = Vec::new();
    let mut k: usize = 0;
    while k < raw.len()
        invariant
            rv == flat_views(raw@),
            rv.len() == raw@.len(),
            k <= raw.len(),
            outline_views(top@) == top_upto(rv, k as int),
        decreases raw.len() - k,
    {
        let s = &raw[k];
        assert(rv[k as int] == flat_view(raw@[k as int]));
        let is_top = match &s.4 {
            None => true,
            Some(c) => !name_exists(&raw, c.as_str()),
        };
        if is_top {
            let children = build_children(&raw, s.0.as_str(), raw.len());
            let node = OutlineNode {
                name: s.0.clone(),
                kind: s.1,
                line: s.2,
                end_line: s.3,
                children,
                expanded: false,
            };
            proof {
                lemma_push_view(top@, node);
            }
            top.push(node);
        }
        k = k + 1;
    }
    top
}

/// A document-symbol result, as `document_symbols_of`.
pub fn parse_document_symbols(result: &JsonValue) -> (r: Vec<OutlineNode>)
    ensures
        outline_views(r@) == document_symbols_of(result.model()),
{
    if result.is_null() {
        assert(outline_views(Seq::<OutlineNode>::empty()) =~= Seq::<OutlineView>::empty());
        return Vec::new();
    }
    match parse_hierarchical_symbols(result) {
        Some(nodes) => nodes,
        None => parse_flat_symbols(result),
    }
}

} // verus!
