//! The JSON values the LSP wire logic builds and reads.

use vstd::prelude::*;
use crate::text::{owned, str_eq};

verus! {

/// A JSON number as the wire logic distinguishes it: a non-negative
/// integer, a negative integer, or a number with a fraction or exponent,
/// held as its text so that it is written back as it was read.
#[derive(Debug, Clone)]
pub enum JsonNumber {
    PosInt(u64),
    NegInt(i64),
    Float(String),
}

/// The model of a JSON number.
pub enum NumberModel {
    PosInt(u64),
    NegInt(i64),
    Float(Seq<char>),
}

impl JsonNumber {
    pub open spec fn model(self) -> NumberModel {
        match self {
            JsonNumber::PosInt(n) => NumberModel::PosInt(n),
            JsonNumber::NegInt(n) => NumberModel::NegInt(n),
            JsonNumber::Float(t) => NumberModel::Float(t@),
        }
    }
}

/// A copy of a number.
pub fn clone_number(n: &JsonNumber) -> (r: JsonNumber)
    ensures
        r.model() == n.model(),
{
    match n {
        JsonNumber::PosInt(v) => JsonNumber::PosInt(*v),
        JsonNumber::NegInt(v) => JsonNumber::NegInt(*v),
        JsonNumber::Float(t) => JsonNumber::Float(t.clone()),
    }
}

/// A JSON value. Object members keep their order; a key is looked up at its
/// first occurrence.
#[derive(Debug)]
pub enum JsonValue {
    Null,
    Bool(bool),
    Number(JsonNumber),
    String(String),
    Array(Vec<JsonValue>),
    Object(Vec<(String, JsonValue)>),
}

/// The mathematical model of a JSON value.
pub enum Json {
    Null,
    Bool(bool),
    Number(NumberModel),
    Str(Seq<char>),
    Array(Seq<Json>),
    Object(Seq<(Seq<char>, Json)>),
}

impl DeepView for JsonValue {
    type V = Json;

    open spec fn deep_view(&self) -> Json {
        self.model()
    }
}

impl JsonValue {
    pub open spec fn model(self) -> Json
        decreases self, 0nat,
    {
        match self {
            JsonValue::Null => Json::Null,
            JsonValue::Bool(b) => Json::Bool(b),
            JsonValue::Number(n) => Json::Number(n.model()),
            JsonValue::String(s) => Json::Str(s@),
            JsonValue::Array(v) => Json::Array(models(v@)),
            JsonValue::Object(m) => Json::Object(member_models(m@)),
        }
    }
}

pub open spec fn models(s: Seq<JsonValue>) -> Seq<Json>
    decreases s, 1nat,
{
    if s.len() == 0 {
        Seq::empty()
    } else {
        models(s.drop_last()).push(s.last().model())
    }
}

pub open spec fn member_models(s: Seq<(String, JsonValue)>) -> Seq<(Seq<char>, Json)>
    decreases s, 1nat,
{
    if s.len() == 0 {
        Seq::empty()
    } else {
        member_models(s.drop_last()).push((s.last().0@, s.last().1.model()))
    }
}

/// `models` keeps the length and maps each element to its model.
pub proof fn lemma_models(s: Seq<JsonValue>)
    ensures
        models(s).len() == s.len(),
        forall|i: int| 0 <= i < s.len() ==> #[trigger] models(s)[i] == s[i].model(),
    decreases s.len(),
{
    if s.len() > 0 {
        lemma_models(s.drop_last());
    }
}

/// `member_models` keeps the length and maps each member to its model.
pub proof fn lemma_member_models(s: Seq<(String, JsonValue)>)
    ensures
        member_models(s).len() == s.len(),
        forall|i: int| 0 <= i < s.len() ==> #[trigger] member_models(s)[i] == (s[i].0@, s[i].1.model()),
    decreases s.len(),
{
    if s.len() > 0 {
        lemma_member_models(s.drop_last());
    }
}

// ─── Reading ────────────────────────────────────────────────────────────────

/// The value of the first member of `m` from index `i` on whose key is `key`.
pub open spec fn lookup_from(m: Seq<(Seq<char>, Json)>, key: Seq<char>, i: int) -> Option<Json>
    decreases m.len() - i,
{
    if i < 0 || i >= m.len() {
        None
    } else if m[i].0 == key {
        Some(m[i].1)
    } else {
        lookup_from(m, key, i + 1)
    }
}

/// Member `key` of an object (`Value::get`); nothing for other values.
pub open spec fn get(j: Json, key: Seq<char>) -> Option<Json> {
    match j {
        Json::Object(m) => lookup_from(m, key, 0),
        _ => None,
    }
}

/// Member `key` of a value that may be absent.
pub open spec fn get_opt(j: Option<Json>, key: Seq<char>) -> Option<Json> {
    match j {
        Some(v) => get(v, key),
        None => None,
    }
}

/// The text of a string (`Value::as_str`).
pub open spec fn as_str(j: Json) -> Option<Seq<char>> {
    match j {
        Json::Str(s) => Some(s),
        _ => None,
    }
}

/// A non-negative integer (`Value::as_u64`).
pub open spec fn as_u64(j: Json) -> Option<u64> {
    match j {
        Json::Number(NumberModel::PosInt(n)) => Some(n),
        _ => None,
    }
}

/// An integer that fits `i64` (`Value::as_i64`).
pub open spec fn as_i64(j: Json) -> Option<i64> {
    match j {
        Json::Number(NumberModel::PosInt(n)) => if n <= i64::MAX { Some(n as i64) } else { None },
        Json::Number(NumberModel::NegInt(n)) => Some(n),
        _ => None,
    }
}

/// A boolean (`Value::as_bool`).
pub open spec fn as_bool(j: Json) -> Option<bool> {
    match j {
        Json::Bool(b) => Some(b),
        _ => None,
    }
}

/// The elements of an array (`Value::as_array`).
pub open spec fn as_array(j: Json) -> Option<Seq<Json>> {
    match j {
        Json::Array(a) => Some(a),
        _ => None,
    }
}

/// The members of an object (`Value::as_object`).
pub open spec fn as_object(j: Json) -> Option<Seq<(Seq<char>, Json)>> {
    match j {
        Json::Object(m) => Some(m),
        _ => None,
    }
}

/// The model of an optional reference.
pub open spec fn opt_model(r: Option<&JsonValue>) -> Option<Json> {
    match r {
        Some(v) => Some(v.model()),
        None => None,
    }
}

impl JsonValue {
    /// Member `key`, if this is an object that has one.
    pub fn get(&self, key: &str) -> (r: Option<&JsonValue>)
        ensures
            opt_model(r) == get(self.model(), key@),
    {
        match self {
            JsonValue::Object(members) => {
                proof {
                    lemma_member_models(members@);
                }
                let ghost mm = member_models(members@);
                assert(self.model() == Json::Object(mm));
                let mut i: usize = 0;
                while i < members.len()
                    invariant
                        mm == member_models(members@),
                        self.model() == Json::Object(mm),
                        mm.len() == members@.len(),
                        forall|k: int| 0 <= k < members@.len() ==> #[trigger] mm[k] == (members@[k].0@, members@[k].1.model()),
                        i <= members.len(),
                        lookup_from(mm, key@, 0) == lookup_from(mm, key@, i as int),
                    decreases members.len() - i,
                {
                    if str_eq(members[i].0.as_str(), key) {
                        return Some(&members[i].1);
                    }
                    i = i + 1;
                }
                None
            },
            _ => None,
        }
    }

    /// The text, if this is a string.
    pub fn as_str(&self) -> (r: Option<&String>)
        ensures
            match r {
                Some(s) => as_str(self.model()) == Some(s@),
                None => as_str(self.model()) is None,
            },
    {
        match self {
            JsonValue::String(s) => Some(s),
            _ => None,
        }
    }

    /// The number, if this is a non-negative integer.
    pub fn as_u64(&self) -> (r: Option<u64>)
        ensures
            r == as_u64(self.model()),
    {
        match self {
            JsonValue::Number(JsonNumber::PosInt(n)) => Some(*n),
            _ => None,
        }
    }

    /// The number, if this is an integer that fits `i64`.
    pub fn as_i64(&self) -> (r: Option<i64>)
        ensures
            r == as_i64(self.model()),
    {
        match self {
            JsonValue::Number(JsonNumber::PosInt(n)) => {
                if *n <= 9223372036854775807u64 {
                    Some(*n as i64)
                } else {
                    None
                }
            },
            JsonValue::Number(JsonNumber::NegInt(n)) => Some(*n),
            _ => None,
        }
    }

    /// The boolean, if this is one.
    pub fn as_bool(&self) -> (r: Option<bool>)
        ensures
            r == as_bool(self.model()),
    {
        match self {
            JsonValue::Bool(b) => Some(*b),
            _ => None,
        }
    }

    /// The elements, if this is an array.
    pub fn as_array(&self) -> (r: Option<&Vec<JsonValue>>)
        ensures
            match r {
                Some(v) => as_array(self.model()) == Some(models(v@)),
                None => as_array(self.model()) is None,
            },
    {
        match self {
            JsonValue::Array(v) => Some(v),
            _ => None,
        }
    }

    /// The members, if this is an object.
    pub fn as_object(&self) -> (r: Option<&Vec<(String, JsonValue)>>)
        ensures
            match r {
                Some(m) => as_object(self.model()) == Some(member_models(m@)),
                None => as_object(self.model()) is None,
            },
    {
        match self {
            JsonValue::Object(m) => Some(m),
            _ => None,
        }
    }

    /// Whether this is `null`.
    pub fn is_null(&self) -> (r: bool)
        ensures
            r == (self.model() is Null),
    {
        match self {
            JsonValue::Null => true,
            _ => false,
        }
    }

    /// Whether this is an array.
    pub fn is_array(&self) -> (r: bool)
        ensures
            r == (self.model() is Array),
    {
        match self {
            JsonValue::Array(_) => true,
            _ => false,
        }
    }
}

// ─── Building ───────────────────────────────────────────────────────────────

/// A JSON string holding `s`.
pub fn json_str(s: &str) -> (r: JsonValue)
    ensures
        r.model() == Json::Str(s@),
{
    JsonValue::String(owned(s))
}

/// A JSON number holding `n`.
pub fn json_u64(n: u64) -> (r: JsonValue)
    ensures
        r.model() == Json::Number(NumberModel::PosInt(n)),
{
    JsonValue::Number(JsonNumber::PosInt(n))
}

/// The JSON number of an `i64`: non-negative values are unsigned.
pub open spec fn int_number(n: i64) -> Json {
    if n >= 0 {
        Json::Number(NumberModel::PosInt(n as u64))
    } else {
        Json::Number(NumberModel::NegInt(n))
    }
}

/// A JSON number holding `n`.
pub fn json_i64(n: i64) -> (r: JsonValue)
    ensures
        r.model() == int_number(n),
{
    if n >= 0 {
        JsonValue::Number(JsonNumber::PosInt(n as u64))
    } else {
        JsonValue::Number(JsonNumber::NegInt(n))
    }
}

/// Appends member `key: value` to an object under construction.
pub fn push_member(members: &mut Vec<(String, JsonValue)>, key: &str, value: JsonValue)
    ensures
        member_models(final(members)@) == member_models(old(members)@).push((key@, value.model())),
{
    let ghost before = members@;
    members.push((owned(key), value));
    proof {
        assert(members@.drop_last() == before);
    }
}

/// Appends an element to an array under construction.
pub fn push_element(elements: &mut Vec<JsonValue>, value: JsonValue)
    ensures
        models(final(elements)@) == models(old(elements)@).push(value.model()),
{
    let ghost before = elements@;
    elements.push(value);
    proof {
        assert(elements@.drop_last() == before);
    }
}

/// A copy of `v`.
pub fn clone_json(v: &JsonValue) -> (r: JsonValue)
    ensures
        r.model() == v.model(),
    decreases v,
{
    match v {
        JsonValue::Null => JsonValue::Null,
        JsonValue::Bool(b) => JsonValue::Bool(*b),
        JsonValue::Number(n) => JsonValue::Number(clone_number(n)),
        JsonValue::String(s) => JsonValue::String(s.clone()),
        JsonValue::Array(items) => {
            proof {
                lemma_models(items@);
            }
            let mut out: Vec<JsonValue> = Vec::new();
            let mut i: usize = 0;
            while i < items.len()
                invariant
                    *v == JsonValue::Array(*items),
                    models(items@).len() == items@.len(),
                    forall|k: int| 0 <= k < items@.len() ==> #[trigger] models(items@)[k] == items@[k].model(),
                    i <= items.len(),
                    models(out@) == models(items@).take(i as int),
                decreases items.len() - i,
            {
                proof {
                    assert(decreases_to!(*v => (*v)->Array_0));
                    assert(decreases_to!(*items => items@));
                    assert(decreases_to!(items@ => items@[i as int]));
                    assert(decreases_to!(*v => items@[i as int]));
                }
                let c = clone_json(&items[i]);
                let ghost before = out@;
                out.push(c);
                proof {
                    assert(out@.drop_last() == before);
                    assert(models(items@).take(i + 1) =~= models(items@).take(i as int).push(
                        items@[i as int].model(),
                    ));
                }
                i = i + 1;
            }
            assert(models(items@).take(items.len() as int) == models(items@));
            JsonValue::Array(out)
        },
        JsonValue::Object(members) => {
            proof {
                lemma_member_models(members@);
            }
            let mut out: Vec<(String, JsonValue)> = Vec::new();
            let mut i: usize = 0;
            while i < members.len()
                invariant
                    *v == JsonValue::Object(*members),
                    member_models(members@).len() == members@.len(),
                    forall|k: int| 0 <= k < members@.len() ==> #[trigger] member_models(members@)[k] == (members@[k].0@, members@[k].1.model()),
                    i <= members.len(),
                    member_models(out@) == member_models(members@).take(i as int),
                decreases members.len() - i,
            {
                proof {
                    assert(decreases_to!(*v => (*v)->Object_0));
                    assert(decreases_to!(*members => members@));
                    assert(decreases_to!(members@ => members@[i as int]));
                    assert(decreases_to!(members@[i as int] => members@[i as int].1));
                    assert(decreases_to!(*v => members@[i as int].1));
                }
                let c = clone_json(&members[i].1);
                let ghost before = out@;
                out.push((members[i].0.clone(), c));
                proof {
                    assert(out@.drop_last() == before);
                    assert(member_models(members@).take(i + 1) =~= member_models(members@).take(
                        i as int,
                    ).push((members@[i as int].0@, members@[i as int].1.model())));
                }
                i = i + 1;
            }
            assert(member_models(members@).take(members.len() as int) == member_models(members@));
            JsonValue::Object(out)
        },
    }
}

// ─── Depth ──────────────────────────────────────────────────────────────────

/// How deeply `j` nests arrays and objects.
pub open spec fn depth(j: Json) -> nat
    decreases j, 0nat,
{
    match j {
        Json::Array(a) => 1 + max_depth(a),
        Json::Object(m) => 1 + max_member_depth(m),
        _ => 0,
    }
}

/// The greatest depth among the elements.
pub open spec fn max_depth(a: Seq<Json>) -> nat
    decreases a, 1nat,
{
    if a.len() == 0 {
        0
    } else {
        let p = max_depth(a.drop_last());
        let d = depth(a.last());
        if d > p { d } else { p }
    }
}

/// The greatest depth among the member values.
pub open spec fn max_member_depth(m: Seq<(Seq<char>, Json)>) -> nat
    decreases m, 1nat,
{
    if m.len() == 0 {
        0
    } else {
        let p = max_member_depth(m.drop_last());
        let d = depth(m.last().1);
        if d > p { d } else { p }
    }
}

proof fn lemma_max_depth(a: Seq<Json>, i: int)
    requires
        0 <= i < a.len(),
    ensures
        depth(a[i]) <= max_depth(a),
    decreases a.len(),
{
    if i < a.len() - 1 {
        lemma_max_depth(a.drop_last(), i);
    }
}

proof fn lemma_max_member_depth(m: Seq<(Seq<char>, Json)>, i: int)
    requires
        0 <= i < m.len(),
    ensures
        depth(m[i].1) <= max_member_depth(m),
    decreases m.len(),
{
    if i < m.len() - 1 {
        lemma_max_member_depth(m.drop_last(), i);
    }
}

proof fn lemma_lookup_in(m: Seq<(Seq<char>, Json)>, key: Seq<char>, i: int)
    requires
        lookup_from(m, key, i) is Some,
    ensures
        exists|k: int| 0 <= k < m.len() && m[k].1 == lookup_from(m, key, i).unwrap(),
    decreases m.len() - i,
{
    if !(i < 0 || i >= m.len()) && m[i].0 != key {
        lemma_lookup_in(m, key, i + 1);
    }
}

/// Members and elements are shallower than what holds them.
pub proof fn lemma_depth_parts(j: Json, key: Seq<char>)
    ensures
        get(j, key) matches Some(v) ==> depth(v) < depth(j),
        as_array(j) matches Some(a) ==> forall|i: int| 0 <= i < a.len() ==> #[trigger] depth(a[i]) < depth(j),
{
    if let Json::Object(m) = j {
        if lookup_from(m, key, 0) is Some {
            lemma_lookup_in(m, key, 0);
            let k = choose|k: int| 0 <= k < m.len() && m[k].1 == lookup_from(m, key, 0).unwrap();
            lemma_max_member_depth(m, k);
        }
    }
    if let Json::Array(a) = j {
        assert forall|i: int| 0 <= i < a.len() implies #[trigger] depth(a[i]) < depth(j) by {
            lemma_max_depth(a, i);
        }
    }
}

} // verus!
