//! Results the transport reads as typed records: call and type hierarchy
//! items, calls, and code lenses. Records are read the way a derived
//! deserializer reads them: an object with the required members (others
//! ignored), or an array holding the fields in declaration order.

use vstd::prelude::*;
use crate::lsp::json::{
    as_array, as_str, as_u64, clone_json, get, lemma_models, models, opt_model, Json,
    JsonNumber, JsonValue,
};
use crate::lsp::parse::{filter_map, lemma_filter_map_step, str_field, str_member};
use crate::lsp::types::{
    CallHierarchyItem, CallView, CodeLensEntry, CodeLensItem, HierarchyItemView, IncomingCall,
    LensEntryView, LensItemView, LspPositionWire, LspRange, OutgoingCall, TypeHierarchyItem,
};
use crate::text::owned;

verus! {

// ─── Typed fields ───────────────────────────────────────────────────────────

/// A `u32`: a non-negative integer in range.
pub open spec fn u32_de(j: Json) -> Option<u32> {
    match as_u64(j) {
        Some(n) => if n <= u32::MAX { Some(n as u32) } else { None },
        None => None,
    }
}

/// A position record: `line` and `character`.
pub open spec fn position_de(j: Json) -> Option<LspPositionWire> {
    match j {
        Json::Object(_) => match (get(j, "line"@), get(j, "character"@)) {
            (Some(l), Some(c)) => match (u32_de(l), u32_de(c)) {
                (Some(a), Some(b)) => Some(LspPositionWire { line: a, character: b }),
                _ => None,
            },
            _ => None,
        },
        Json::Array(a) => if a.len() == 2 {
            match (u32_de(a[0]), u32_de(a[1])) {
                (Some(x), Some(y)) => Some(LspPositionWire { line: x, character: y }),
                _ => None,
            }
        } else {
            None
        },
        _ => None,
    }
}

/// A range record: `start` and `end`.
pub open spec fn range_de(j: Json) -> Option<LspRange> {
    match j {
        Json::Object(_) => match (get(j, "start"@), get(j, "end"@)) {
            (Some(s), Some(e)) => match (position_de(s), position_de(e)) {
                (Some(a), Some(b)) => Some(LspRange { start: a, end: b }),
                _ => None,
            },
            _ => None,
        },
        Json::Array(a) => if a.len() == 2 {
            match (position_de(a[0]), position_de(a[1])) {
                (Some(x), Some(y)) => Some(LspRange { start: x, end: y }),
                _ => None,
            }
        } else {
            None
        },
        _ => None,
    }
}

/// An optional string field: absent or `null` is none; another non-string
/// value does not fit.
pub open spec fn opt_string_de(v: Option<Json>) -> Option<Option<Seq<char>>> {
    match v {
        None => Some(None),
        Some(Json::Null) => Some(None),
        Some(Json::Str(s)) => Some(Some(s)),
        _ => None,
    }
}

/// An optional JSON field: absent or `null` is none.
pub open spec fn opt_value_de(v: Option<Json>) -> Option<Json> {
    match v {
        Some(Json::Null) => None,
        Some(x) => Some(x),
        None => None,
    }
}

/// All elements through `f`, or nothing when one does not fit.
pub open spec fn all_map<B>(s: Seq<Json>, f: spec_fn(Json) -> Option<B>) -> Option<Seq<B>>
    decreases s.len(),
{
    if s.len() == 0 {
        Some(Seq::empty())
    } else {
        match (all_map(s.drop_last(), f), f(s.last())) {
            (Some(p), Some(x)) => Some(p.push(x)),
            _ => None,
        }
    }
}

fn u32_read(j: &JsonValue) -> (r: Option<u32>)
    ensures
        r == u32_de(j.model()),
{
    match j.as_u64() {
        Some(n) => if n <= 4294967295u64 { Some(n as u32) } else { None },
        None => None,
    }
}

/// A position record, as `position_de`.
pub fn read_position_record(j: &JsonValue) -> (r: Option<LspPositionWire>)
    ensures
        r == position_de(j.model()),
{
    match j {
        JsonValue::Object(_) => match (j.get("line"), j.get("character")) {
            (Some(l), Some(c)) => match (u32_read(l), u32_read(c)) {
                (Some(a), Some(b)) => Some(LspPositionWire { line: a, character: b }),
                _ => None,
            },
            _ => None,
        },
        JsonValue::Array(a) => {
            proof {
                lemma_models(a@);
            }
            if a.len() == 2 {
                match (u32_read(&a[0]), u32_read(&a[1])) {
                    (Some(x), Some(y)) => Some(LspPositionWire { line: x, character: y }),
                    _ => None,
                }
            } else {
                None
            }
        },
        _ => None,
    }
}

/// A range record, as `range_de`.
pub fn read_range_record(j: &JsonValue) -> (r: Option<LspRange>)
    ensures
        r == range_de(j.model()),
{
    match j {
        JsonValue::Object(_) => match (j.get("start"), j.get("end")) {
            (Some(s), Some(e)) => match (read_position_record(s), read_position_record(e)) {
                (Some(a), Some(b)) => Some(LspRange { start: a, end: b }),
                _ => None,
            },
            _ => None,
        },
        JsonValue::Array(a) => {
            proof {
                lemma_models(a@);
            }
            if a.len() == 2 {
                match (read_position_record(&a[0]), read_position_record(&a[1])) {
                    (Some(x), Some(y)) => Some(LspRange { start: x, end: y }),
                    _ => None,
                }
            } else {
                None
            }
        },
        _ => None,
    }
}

fn opt_string_read(v: Option<&JsonValue>) -> (r: Option<Option<String>>)
    ensures
        r.deep_view() == opt_string_de(opt_model(v)),
{
    match v {
        None => Some(None),
        Some(JsonValue::Null) => Some(None),
        Some(JsonValue::String(s)) => Some(Some(s.clone())),
        _ => None,
    }
}

fn opt_value_read(v: Option<&JsonValue>) -> (r: Option<JsonValue>)
    ensures
        r.deep_view() == opt_value_de(opt_model(v)),
{
    match v {
        Some(JsonValue::Null) => None,
        Some(x) => Some(clone_json(x)),
        None => None,
    }
}

// ─── Hierarchy items and calls ──────────────────────────────────────────────

/// A hierarchy item record: `name`, `kind`, `detail` (optional), `uri`,
/// `range`, `selectionRange`, `data` (optional).
pub open spec fn item_de(j: Json) -> Option<HierarchyItemView> {
    match j {
        Json::Object(_) => match (
            get(j, "name"@),
            get(j, "kind"@),
            get(j, "uri"@),
            get(j, "range"@),
            get(j, "selectionRange"@),
        ) {
            (Some(n), Some(k), Some(u), Some(r), Some(sr)) => match (
                as_str(n),
                as_u64(k),
                opt_string_de(get(j, "detail"@)),
                as_str(u),
                range_de(r),
                range_de(sr),
            ) {
                (Some(name), Some(kind), Some(detail), Some(uri), Some(range), Some(sel)) => Some(
                    (name, kind, detail, uri, range, sel, opt_value_de(get(j, "data"@))),
                ),
                _ => None,
            },
            _ => None,
        },
        Json::Array(a) => if a.len() == 6 || a.len() == 7 {
            match (
                as_str(a[0]),
                as_u64(a[1]),
                opt_string_de(Some(a[2])),
                as_str(a[3]),
                range_de(a[4]),
                range_de(a[5]),
            ) {
                (Some(name), Some(kind), Some(detail), Some(uri), Some(range), Some(sel)) => Some(
                    (
                        name,
                        kind,
                        detail,
                        uri,
                        range,
                        sel,
                        if a.len() == 7 { opt_value_de(Some(a[6])) } else { None },
                    ),
                ),
                _ => None,
            }
        } else {
            None
        },
        _ => None,
    }
}

/// An array of records, or nothing when any element does not fit.
pub open spec fn records_de<B>(j: Json, f: spec_fn(Json) -> Option<B>) -> Option<Seq<B>> {
    match as_array(j) {
        Some(a) => all_map(a, f),
        None => None,
    }
}

/// A call record: the item (`from` or `to`) and `fromRanges`.
pub open spec fn call_de(j: Json, end: Seq<char>) -> Option<CallView> {
    match j {
        Json::Object(_) => match (get(j, end), get(j, "fromRanges"@)) {
            (Some(i), Some(fr)) => match (item_de(i), records_de(fr, |x: Json| range_de(x))) {
                (Some(item), Some(ranges)) => Some((item, ranges)),
                _ => None,
            },
            _ => None,
        },
        Json::Array(a) => if a.len() == 2 {
            match (item_de(a[0]), records_de(a[1], |x: Json| range_de(x))) {
                (Some(item), Some(ranges)) => Some((item, ranges)),
                _ => None,
            }
        } else {
            None
        },
        _ => None,
    }
}

/// Records of a result, none when it does not fit.
pub open spec fn records_or_empty<B>(j: Json, f: spec_fn(Json) -> Option<B>) -> Seq<B> {
    match records_de(j, f) {
        Some(s) => s,
        None => Seq::empty(),
    }
}

fn read_item_fields(j: &JsonValue) -> (r: Option<
    (String, u64, Option<String>, String, LspRange, LspRange, Option<JsonValue>),
>)
    ensures
        match r {
            Some(x) => item_de(j.model()) == Some(
                (x.0@, x.1, x.2.deep_view(), x.3@, x.4, x.5, x.6.deep_view()),
            ),
            None => item_de(j.model()) is None,
        },
{
    match j {
        JsonValue::Object(_) => {
            let n = match j.get("name") {
                Some(v) => v,
                None => return None,
            };
            let k = match j.get("kind") {
                Some(v) => v,
                None => return None,
            };
            let u = match j.get("uri") {
                Some(v) => v,
                None => return None,
            };
            let r = match j.get("range") {
                Some(v) => v,
                None => return None,
            };
            let sr = match j.get("selectionRange") {
                Some(v) => v,
                None => return None,
            };
            let name = match n.as_str() {
                Some(s) => s.clone(),
                None => return None,
            };
            let kind = match k.as_u64() {
                Some(x) => x,
                None => return None,
            };
            let detail = match opt_string_read(j.get("detail")) {
                Some(d) => d,
                None => return None,
            };
            let uri = match u.as_str() {
                Some(s) => s.clone(),
                None => return None,
            };
            let range = match read_range_record(r) {
                Some(x) => x,
                None => return None,
            };
            let sel = match read_range_record(sr) {
                Some(x) => x,
                None => return None,
            };
            let data = opt_value_read(j.get("data"));
            Some((name, kind, detail, uri, range, sel, data))
        },
        JsonValue::Array(a) => {
            proof {
                lemma_models(a@);
            }
            if !(a.len() == 6 || a.len() == 7) {
                return None;
            }
            let name = match a[0].as_str() {
                Some(s) => s.clone(),
                None => return None,
            };
            let kind = match a[1].as_u64() {
                Some(x) => x,
                None => return None,
            };
            let detail = match opt_string_read(Some(&a[2])) {
                Some(d) => d,
                None => return None,
            };
            let uri = match a[3].as_str() {
                Some(s) => s.clone(),
                None => return None,
            };
            let range = match read_range_record(&a[4]) {
                Some(x) => x,
                None => return None,
            };
            let sel = match read_range_record(&a[5]) {
                Some(x) => x,
                None => return None,
            };
            let data = if a.len() == 7 { opt_value_read(Some(&a[6])) } else { None };
            Some((name, kind, detail, uri, range, sel, data))
        },
        _ => None,
    }
}

/// A call hierarchy item record, as `item_de`.
pub fn read_call_item(j: &JsonValue) -> (r: Option<CallHierarchyItem>)
    ensures
        r.deep_view() == item_de(j.model()),
{
    match read_item_fields(j) {
        Some((name, kind, detail, uri, range, selection_range, data)) => Some(
            CallHierarchyItem { name, kind, detail, uri, range, selection_range, data },
        ),
        None => None,
    }
}

/// A type hierarchy item record, as `item_de`.
pub fn read_type_item(j: &JsonValue) -> (r: Option<TypeHierarchyItem>)
    ensures
        r.deep_view() == item_de(j.model()),
{
    match read_item_fields(j) {
        Some((name, kind, detail, uri, range, selection_range, data)) => Some(
            TypeHierarchyItem { name, kind, detail, uri, range, selection_range, data },
        ),
        None => None,
    }
}

fn read_ranges(j: &JsonValue) -> (r: Option<Vec<LspRange>>)
    ensures
        match r {
            Some(v) => records_de(j.model(), |x: Json| range_de(x)) == Some(v@),
            None => records_de(j.model(), |x: Json| range_de(x)) is None,
        },
{
    let array = match j.as_array() {
        Some(a) => a,
        None => return None,
    };
    let ghost a = models(array@);
    let ghost f = |x: Json| range_de(x);
    proof {
        lemma_models(array@);
    }
    let mut out: Vec<LspRange> = Vec::new();
    let mut i: usize = 0;
    while i < array.len()
        invariant
            as_array(j.model()) == Some(a),
            a == models(array@),
            a.len() == array@.len(),
            forall|k: int| 0 <= k < array@.len() ==> #[trigger] a[k] == array@[k].model(),
            f == (|x: Json| range_de(x)),
            i <= array.len(),
            all_map(a.take(i as int), f) == Some(out@),
        decreases array.len() - i,
    {
        proof {
            assert(a.take(i + 1).drop_last() == a.take(i as int));
        }
        match read_range_record(&array[i]) {
            Some(x) => out.push(x),
            None => {
                proof {
                    lemma_all_map_fails(a, i as int + 1, f);
                }
                return None;
            },
        }
        i = i + 1;
    }
    assert(a.take(array.len() as int) == a);
    Some(out)
}

/// Once a prefix does not fit, the whole sequence does not.
proof fn lemma_all_map_fails<B>(s: Seq<Json>, k: int, f: spec_fn(Json) -> Option<B>)
    requires
        0 <= k <= s.len(),
        all_map(s.take(k), f) is None,
    ensures
        all_map(s, f) is None,
    decreases s.len() - k,
{
    if k < s.len() {
        assert(s.take(k + 1).drop_last() == s.take(k));
        lemma_all_map_fails(s, k + 1, f);
    } else {
        assert(s.take(k) == s);
    }
}

fn read_call(j: &JsonValue, end: &str) -> (r: Option<(CallHierarchyItem, Vec<LspRange>)>)
    ensures
        match r {
            Some(x) => call_de(j.model(), end@) == Some((x.0.deep_view(), x.1@)),
            None => call_de(j.model(), end@) is None,
        },
{
    match j {
        JsonValue::Object(_) => {
            let i = match j.get(end) {
                Some(v) => v,
                None => return None,
            };
            let fr = match j.get("fromRanges") {
                Some(v) => v,
                None => return None,
            };
            match (read_call_item(i), read_ranges(fr)) {
                (Some(item), Some(ranges)) => Some((item, ranges)),
                _ => None,
            }
        },
        JsonValue::Array(a) => {
            proof {
                lemma_models(a@);
            }
            if a.len() != 2 {
                return None;
            }
            match (read_call_item(&a[0]), read_ranges(&a[1])) {
                (Some(item), Some(ranges)) => Some((item, ranges)),
                _ => None,
            }
        },
        _ => None,
    }
}

/// A `textDocument/prepareCallHierarchy` result: its items when all fit,
/// else none.
pub fn parse_call_hierarchy_items(result: &JsonValue) -> (r: Vec<CallHierarchyItem>)
    ensures
        r.deep_view() == records_or_empty(result.model(), |x: Json| item_de(x)),
{
    let array = match result.as_array() {
        Some(a) => a,
        None => return Vec::new(),
    };
    let ghost a = models(array@);
    let ghost f = |x: Json| item_de(x);
    proof {
        lemma_models(array@);
    }
    let mut out: Vec<CallHierarchyItem> = Vec::new();
    let mut i: usize = 0;
    while i < array.len()
        invariant
            as_array(result.model()) == Some(a),
            a == models(array@),
            a.len() == array@.len(),
            forall|k: int| 0 <= k < array@.len() ==> #[trigger] a[k] == array@[k].model(),
            f == (|x: Json| item_de(x)),
            i <= array.len(),
            all_map(a.take(i as int), f) == Some(out.deep_view()),
        decreases array.len() - i,
    {
        proof {
            assert(a.take(i + 1).drop_last() == a.take(i as int));
        }
        let ghost before = out.deep_view();
        match read_call_item(&array[i]) {
            Some(x) => {
                out.push(x);
                assert(out.deep_view() =~= before.push(item_de(a[i as int]).unwrap()));
            },
            None => {
                proof {
                    lemma_all_map_fails(a, i as int + 1, f);
                }
                return Vec::new();
            },
        }
        i = i + 1;
    }
    assert(a.take(array.len() as int) == a);
    out
}

/// A type hierarchy result (`prepareTypeHierarchy`, `supertypes`,
/// `subtypes`): its items when all fit, else none.
pub fn parse_type_hierarchy_items(result: &JsonValue) -> (r: Vec<TypeHierarchyItem>)
    ensures
        r.deep_view() == records_or_empty(result.model(), |x: Json| item_de(x)),
{
    let array = match result.as_array() {
        Some(a) => a,
        None => return Vec::new(),
    };
    let ghost a = models(array@);
    let ghost f = |x: Json| item_de(x);
    proof {
        lemma_models(array@);
    }
    let mut out: Vec<TypeHierarchyItem> = Vec::new();
    let mut i: usize = 0;
    while i < array.len()
        invariant
            as_array(result.model()) == Some(a),
            a == models(array@),
            a.len() == array@.len(),
            forall|k: int| 0 <= k < array@.len() ==> #[trigger] a[k] == array@[k].model(),
            f == (|x: Json| item_de(x)),
            i <= array.len(),
            all_map(a.take(i as int), f) == Some(out.deep_view()),
        decreases array.len() - i,
    {
        proof {
            assert(a.take(i + 1).drop_last() == a.take(i as int));
        }
        let ghost before = out.deep_view();
        match read_type_item(&array[i]) {
            Some(x) => {
                out.push(x);
                assert(out.deep_view() =~= before.push(item_de(a[i as int]).unwrap()));
            },
            None => {
                proof {
                    lemma_all_map_fails(a, i as int + 1, f);
                }
                return Vec::new();
            },
        }
        i = i + 1;
    }
    assert(a.take(array.len() as int) == a);
    out
}

/// A `callHierarchy/incomingCalls` result: its calls when all fit, else
/// none.
pub fn parse_incoming_calls(result: &JsonValue) -> (r: Vec<IncomingCall>)
    ensures
        r.deep_view() == records_or_empty(result.model(), |x: Json| call_de(x, "from"@)),
{
    let array = match result.as_array() {
        Some(a) => a,
        None => return Vec::new(),
    };
    let ghost a = models(array@);
    let ghost f = |x: Json| call_de(x, "from"@);
    proof {
        lemma_models(array@);
    }
    let mut out: Vec<IncomingCall> = Vec::new();
    let mut i: usize = 0;
    while i < array.len()
        invariant
            as_array(result.model()) == Some(a),
            a == models(array@),
            a.len() == array@.len(),
            forall|k: int| 0 <= k < array@.len() ==> #[trigger] a[k] == array@[k].model(),
            f == (|x: Json| call_de(x, "from"@)),
            i <= array.len(),
            all_map(a.take(i as int), f) == Some(out.deep_view()),
        decreases array.len() - i,
    {
        proof {
            assert(a.take(i + 1).drop_last() == a.take(i as int));
        }
        let ghost before = out.deep_view();
        match read_call(&array[i], "from") {
            Some((from, from_ranges)) => {
                out.push(IncomingCall { from, from_ranges });
                assert(out.deep_view() =~= before.push(call_de(a[i as int], "from"@).unwrap()));
            },
            None => {
                proof {
                    lemma_all_map_fails(a, i as int + 1, f);
                }
                return Vec::new();
            },
        }
        i = i + 1;
    }
    assert(a.take(array.len() as int) == a);
    out
}

/// A `callHierarchy/outgoingCalls` result: its calls when all fit, else
/// none.
pub fn parse_outgoing_calls(result: &JsonValue) -> (r: Vec<OutgoingCall>)
    ensures
        r.deep_view() == records_or_empty(result.model(), |x: Json| call_de(x, "to"@)),
{
    let array = match result.as_array() {
        Some(a) => a,
        None => return Vec::new(),
    };
    let ghost a = models(array@);
    let ghost f = |x: Json| call_de(x, "to"@);
    proof {
        lemma_models(array@);
    }
    let mut out: Vec<OutgoingCall> = Vec::new();
    let mut i: usize = 0;
    while i < array.len()
        invariant
            as_array(result.model()) == Some(a),
            a == models(array@),
            a.len() == array@.len(),
            forall|k: int| 0 <= k < array@.len() ==> #[trigger] a[k] == array@[k].model(),
            f == (|x: Json| call_de(x, "to"@)),
            i <= array.len(),
            all_map(a.take(i as int), f) == Some(out.deep_view()),
        decreases array.len() - i,
    {
        proof {
            assert(a.take(i + 1).drop_last() == a.take(i as int));
        }
        let ghost before = out.deep_view();
        match read_call(&array[i], "to") {
            Some((to, from_ranges)) => {
                out.push(OutgoingCall { to, from_ranges });
                assert(out.deep_view() =~= before.push(call_de(a[i as int], "to"@).unwrap()));
            },
            None => {
                proof {
                    lemma_all_map_fails(a, i as int + 1, f);
                }
                return Vec::new();
            },
        }
        i = i + 1;
    }
    assert(a.take(array.len() as int) == a);
    out
}

// ─── Code lenses ────────────────────────────────────────────────────────────

/// One code lens: its `range` record (required), the `title`, `command` and
/// `arguments` of its `command` (empty and `null` by default), its `data`.
pub open spec fn lens_entry_of(val: Json) -> Option<LensEntryView> {
    match get(val, "range"@) {
        Some(r) => match range_de(r) {
            Some(range) => {
                let (title, command, arguments) = match get(val, "command"@) {
                    Some(cmd) => (
                        match str_field(cmd, "title"@) {
                            Some(t) => t,
                            None => Seq::empty(),
                        },
                        match str_field(cmd, "command"@) {
                            Some(c) => c,
                            None => Seq::empty(),
                        },
                        match get(cmd, "arguments"@) {
                            Some(a) => a,
                            None => Json::Null,
                        },
                    ),
                    None => (Seq::empty(), Seq::empty(), Json::Null),
                };
                Some((title, command, arguments, get(val, "data"@), Some(range)))
            },
            None => None,
        },
        None => None,
    }
}

/// The line a lens entry is shown on: the start of its range.
pub open spec fn lens_line(e: LensEntryView) -> usize {
    match e.4 {
        Some(r) => r.start.line as usize,
        None => 0,
    }
}

/// Adds an entry to lens groups ordered by line: to the group of its line,
/// or as a new group in order.
pub open spec fn lens_insert(gs: Seq<LensItemView>, e: LensEntryView) -> Seq<LensItemView>
    decreases gs.len(),
{
    if gs.len() == 0 {
        seq![(lens_line(e), seq![e])]
    } else if gs[0].0 == lens_line(e) {
        seq![(gs[0].0, gs[0].1.push(e))] + gs.drop_first()
    } else if gs[0].0 > lens_line(e) {
        seq![(lens_line(e), seq![e])] + gs
    } else {
        seq![gs[0]] + lens_insert(gs.drop_first(), e)
    }
}

/// Lens entries grouped by line, lines ascending, entries of a line in
/// their order.
pub open spec fn lens_groups(es: Seq<LensEntryView>) -> Seq<LensItemView>
    decreases es.len(),
{
    if es.len() == 0 {
        Seq::empty()
    } else {
        lens_insert(lens_groups(es.drop_last()), es.last())
    }
}

/// A `textDocument/codeLens` result: its well-formed lenses grouped by
/// line.
pub open spec fn code_lenses_of(result: Json) -> Seq<LensItemView> {
    match as_array(result) {
        Some(a) => lens_groups(filter_map(a, |v: Json| lens_entry_of(v))),
        None => Seq::empty(),
    }
}

/// One code lens entry, as `lens_entry_of`.
pub fn parse_single_lens_entry(val: &JsonValue) -> (r: Option<CodeLensEntry>)
    ensures
        r.deep_view() == lens_entry_of(val.model()),
{
    let range = match val.get("range") {
        Some(r) => match read_range_record(r) {
            Some(x) => x,
            None => return None,
        },
        None => return None,
    };
    let (title, command, arguments) = match val.get("command") {
        Some(cmd) => (
            match str_member(cmd, "title") {
                Some(t) => t,
                None => String::new(),
            },
            match str_member(cmd, "command") {
                Some(c) => c,
                None => String::new(),
            },
            match cmd.get("arguments") {
                Some(a) => clone_json(a),
                None => JsonValue::Null,
            },
        ),
        None => (String::new(), String::new(), JsonValue::Null),
    };
    let data = match val.get("data") {
        Some(d) => Some(clone_json(d)),
        None => None,
    };
    Some(CodeLensEntry { title, command, arguments, data, range: Some(range) })
}

fn insert_lens(groups: &mut Vec<CodeLensItem>, e: CodeLensEntry)
    ensures
        final(groups).deep_view() == lens_insert(old(groups).deep_view(), e.deep_view()),
{
    let ghost g0 = groups.deep_view();
    let ghost ev = e.deep_view();
    let line: usize = match &e.range {
        Some(r) => r.start.line as usize,
        None => 0,
    };
    let mut i: usize = 0;
    assert(g0.take(0) =~= Seq::<LensItemView>::empty());
    assert(g0.skip(0) =~= g0);
    while i < groups.len() && groups[i].line < line
        invariant
            g0 == groups.deep_view(),
            ev == e.deep_view(),
            line == lens_line(ev),
            i <= groups.len(),
            forall|k: int| 0 <= k < i ==> (#[trigger] g0[k]).0 < line,
            lens_insert(g0, ev) == g0.take(i as int) + lens_insert(g0.skip(i as int), ev),
        decreases groups.len() - i,
    {
        proof {
            let rest = g0.skip(i as int);
            assert(rest[0] == g0[i as int]);
            assert(rest.drop_first() == g0.skip(i + 1));
            assert(g0.take(i + 1) == g0.take(i as int).push(g0[i as int]));
            assert(g0.take(i as int) + lens_insert(rest, ev) =~= g0.take(i + 1) + lens_insert(
                g0.skip(i + 1),
                ev,
            ));
        }
        i = i + 1;
    }
    let ghost rest = g0.skip(i as int);
    if i < groups.len() && groups[i].line == line {
        let CodeLensItem { line: l, entries: mut entries } = groups.remove(i);
        let ghost old_entries = entries.deep_view();
        entries.push(e);
        assert(entries.deep_view() =~= old_entries.push(ev));
        groups.insert(i, CodeLensItem { line: l, entries });
        proof {
            assert(rest[0] == g0[i as int]);
            assert(groups.deep_view() =~= g0.take(i as int) + (seq![(rest[0].0, rest[0].1.push(ev))]
                + rest.drop_first()));
        }
    } else {
        let mut entries: Vec<CodeLensEntry> = Vec::new();
        entries.push(e);
        assert(entries.deep_view() =~= seq![ev]);
        groups.insert(i, CodeLensItem { line, entries });
        proof {
            if i < g0.len() {
                assert(rest[0] == g0[i as int]);
            }
            assert(groups.deep_view() =~= g0.take(i as int) + (seq![(line, seq![ev])] + rest));
        }
    }
}

/// A code-lens result, as `code_lenses_of`.
pub fn parse_code_lenses(result: &JsonValue) -> (r: Vec<CodeLensItem>)
    ensures
        r.deep_view() == code_lenses_of(result.model()),
{
    let mut groups: Vec<CodeLensItem> = Vec::new();
    let array = match result.as_array() {
        Some(a) => a,
        None => return groups,
    };
    let ghost a = models(array@);
    let ghost f = |v: Json| lens_entry_of(v);
    proof {
        lemma_models(array@);
    }
    let mut i: usize = 0;
    while i < array.len()
        invariant
            a == models(array@),
            a.len() == array@.len(),
            forall|k: int| 0 <= k < array@.len() ==> #[trigger] a[k] == array@[k].model(),
            f == (|v: Json| lens_entry_of(v)),
            i <= array.len(),
            groups.deep_view() == lens_groups(filter_map(a.take(i as int), f)),
        decreases array.len() - i,
    {
        proof {
            lemma_filter_map_step(a, i as int, f);
        }
        let ghost fm = filter_map(a.take(i as int), f);
        match parse_single_lens_entry(&array[i]) {
            Some(e) => {
                insert_lens(&mut groups, e);
                assert(fm.push(lens_entry_of(a[i as int]).unwrap()).drop_last() == fm);
            },
            None => {},
        }
        i = i + 1;
    }
    assert(a.take(array.len() as int) == a);
    groups
}

/// A `codeLens/resolve` result: the lens on its line, when well-formed.
pub open spec fn resolved_lens_of(result: Json) -> Seq<LensItemView> {
    match lens_entry_of(result) {
        Some(e) => seq![(lens_line(e), seq![e])],
        None => Seq::empty(),
    }
}

/// A resolved code lens, as `resolved_lens_of`.
pub fn parse_single_code_lens(result: &JsonValue) -> (r: Vec<CodeLensItem>)
    ensures
        r.deep_view() == resolved_lens_of(result.model()),
{
    let mut out: Vec<CodeLensItem> = Vec::new();
    match parse_single_lens_entry(result) {
        Some(entry) => {
            let line: usize = match &entry.range {
                Some(r) => r.start.line as usize,
                None => 0,
            };
            let ghost ev = entry.deep_view();
            let mut entries: Vec<CodeLensEntry> = Vec::new();
            entries.push(entry);
            assert(entries.deep_view() =~= seq![ev]);
            out.push(CodeLensItem { line, entries });
            assert(out.deep_view() =~= seq![(line, seq![ev])]);
        },
        None => {},
    }
    out
}

} // verus!
