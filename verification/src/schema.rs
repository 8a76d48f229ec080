//! JSON Schema rewriting for strict MCP clients: boolean schemas become
//! object schemas, boolean `default` annotations go, and nullable enums lose
//! their `null` entry.
//!
//! A JSON value is held as a tree of plain values; a number is carried as its
//! JSON text, since the rewriting never reads one.

use vstd::prelude::*;

use crate::text::{copy_string, same_text, push_str, u64_decimal, decimal};

verus! {

/// A JSON value. Object entries keep the order of the map they came from and
/// have distinct keys.
pub enum JsonValue {
    Null,
    Bool(bool),
    Number(String),
    String(String),
    Array(Vec<JsonValue>),
    Object(Vec<(String, JsonValue)>),
}

/// The mathematical content of a [`JsonValue`].
pub enum JsonView {
    Null,
    Bool(bool),
    Number(Seq<char>),
    Str(Seq<char>),
    Array(Seq<JsonView>),
    Object(Seq<(Seq<char>, JsonView)>),
}

pub open spec fn json_view(v: JsonValue) -> JsonView
    decreases v,
{
    match v {
        JsonValue::Null => JsonView::Null,
        JsonValue::Bool(b) => JsonView::Bool(b),
        JsonValue::Number(n) => JsonView::Number(n@),
        JsonValue::String(s) => JsonView::Str(s@),
        JsonValue::Array(items) => JsonView::Array(
            Seq::new(
                items@.len(),
                |i: int|
                    if 0 <= i < items@.len() {
                        json_view(items@[i])
                    } else {
                        JsonView::Null
                    },
            ),
        ),
        JsonValue::Object(entries) => JsonView::Object(
            Seq::new(
                entries@.len(),
                |i: int|
                    if 0 <= i < entries@.len() {
                        (entries@[i].0@, json_view(entries@[i].1))
                    } else {
                        (Seq::empty(), JsonView::Null)
                    },
            ),
        ),
    }
}

impl View for JsonValue {
    type V = JsonView;

    open spec fn view(&self) -> JsonView {
        json_view(*self)
    }
}

/// Copies a JSON value.
pub fn copy_json(v: &JsonValue) -> (r: JsonValue)
    ensures
        r@ == v@,
    decreases v,
{
    match v {
        JsonValue::Null => JsonValue::Null,
        JsonValue::Bool(b) => JsonValue::Bool(*b),
        JsonValue::Number(n) => JsonValue::Number(copy_string(n)),
        JsonValue::String(s) => JsonValue::String(copy_string(s)),
        JsonValue::Array(items) => {
            let mut out: Vec<JsonValue> = Vec::new();
            let mut i: usize = 0;
            while i < items.len()
                invariant
                    i <= items@.len(),
                    *v == JsonValue::Array(*items),
                    out@.len() == i,
                    forall|j: int| 0 <= j < i ==> (#[trigger] out@[j])@ == items@[j]@,
                decreases items@.len() - i,
            {
                assert(decreases_to!(*v => (*v)->Array_0));
                assert(decreases_to!(*items => items@));
                assert(decreases_to!(items@ => items@[i as int]));
                assert(decreases_to!(*v => items@[i as int]));
                let c = copy_json(&items[i]);
                out.push(c);
                i = i + 1;
            }
            let r = JsonValue::Array(out);
            assert(r@ == v@) by {
                if let JsonView::Array(a) = r@ {
                    if let JsonView::Array(b) = v@ {
                        assert(a =~= b);
                    }
                }
            }
            r
        },
        JsonValue::Object(entries) => {
            let mut out: Vec<(String, JsonValue)> = Vec::new();
            let mut i: usize = 0;
            while i < entries.len()
                invariant
                    i <= entries@.len(),
                    *v == JsonValue::Object(*entries),
                    out@.len() == i,
                    forall|j: int| 0 <= j < i ==> (#[trigger] out@[j]).0@ == entries@[j].0@ && out@[j].1@ == entries@[j].1@,
                decreases entries@.len() - i,
            {
                assert(decreases_to!(*v => (*v)->Object_0));
                assert(decreases_to!(*entries => entries@));
                assert(decreases_to!(entries@ => entries@[i as int]));
                assert(decreases_to!(entries@[i as int] => entries@[i as int].1));
                assert(decreases_to!(*v => entries@[i as int].1));
                let k = copy_string(&entries[i].0);
                let c = copy_json(&entries[i].1);
                out.push((k, c));
                i = i + 1;
            }
            let r = JsonValue::Object(out);
            assert(r@ == v@) by {
                if let JsonView::Object(a) = r@ {
                    if let JsonView::Object(b) = v@ {
                        assert(a =~= b);
                    }
                }
            }
            r
        },
    }
}


// ---------------------------------------------------------------------------
// Normalization rules.
// ---------------------------------------------------------------------------

/// Keys whose value is itself a schema.
pub open spec fn is_schema_key(k: Seq<char>) -> bool {
    ||| k == "additionalItems"@
    ||| k == "additionalProperties"@
    ||| k == "contains"@
    ||| k == "contentSchema"@
    ||| k == "else"@
    ||| k == "if"@
    ||| k == "items"@
    ||| k == "not"@
    ||| k == "propertyNames"@
    ||| k == "then"@
    ||| k == "unevaluatedItems"@
    ||| k == "unevaluatedProperties"@
}

/// Keys whose value is an array of schemas.
pub open spec fn is_schema_list_key(k: Seq<char>) -> bool {
    ||| k == "allOf"@
    ||| k == "anyOf"@
    ||| k == "oneOf"@
    ||| k == "prefixItems"@
}

/// Keys whose value is an object of named schemas.
pub open spec fn is_schema_map_key(k: Seq<char>) -> bool {
    ||| k == "$defs"@
    ||| k == "definitions"@
    ||| k == "dependentSchemas"@
    ||| k == "patternProperties"@
    ||| k == "properties"@
}

pub type Entries = Seq<(Seq<char>, JsonView)>;

/// The first entry with key `k` is at `i`.
pub open spec fn first_key(es: Entries, k: Seq<char>, i: int) -> bool {
    &&& 0 <= i < es.len()
    &&& es[i].0 == k
    &&& forall|j: int| 0 <= j < i ==> es[j].0 != k
}

pub open spec fn has_entry(es: Entries, k: Seq<char>) -> bool {
    exists|i: int| 0 <= i < es.len() && es[i].0 == k
}

/// Index of the first entry with key `k` (meaningful when [`has_entry`]).
pub open spec fn key_index(es: Entries, k: Seq<char>) -> int {
    choose|i: int| first_key(es, k, i)
}

/// A boolean `default` annotation is removed.
pub open spec fn drop_bool_default(es: Entries) -> Entries {
    if has_entry(es, "default"@) && es[key_index(es, "default"@)].1 is Bool {
        es.remove(key_index(es, "default"@))
    } else {
        es
    }
}

/// The values other than `null`, in order.
pub open spec fn drop_nulls(vals: Seq<JsonView>) -> Seq<JsonView>
    decreases vals.len(),
{
    if vals.len() == 0 {
        vals
    } else if vals.last() is Null {
        drop_nulls(vals.drop_last())
    } else {
        drop_nulls(vals.drop_last()).push(vals.last())
    }
}

/// The type names other than the string `"null"`, in order.
pub open spec fn drop_null_type(vals: Seq<JsonView>) -> Seq<JsonView>
    decreases vals.len(),
{
    if vals.len() == 0 {
        vals
    } else if vals.last() == JsonView::Str("null"@) {
        drop_null_type(vals.drop_last())
    } else {
        drop_null_type(vals.drop_last()).push(vals.last())
    }
}

pub open spec fn has_null(vals: Seq<JsonView>) -> bool {
    exists|i: int| 0 <= i < vals.len() && vals[i] is Null
}

/// What a `type` array becomes once `"null"` leaves it: nothing when no type
/// is left, the single type, or the shorter array.
pub open spec fn type_without_null(es: Entries) -> Option<JsonView> {
    if has_entry(es, "type"@) && es[key_index(es, "type"@)].1 is Array {
        let kept = drop_null_type(es[key_index(es, "type"@)].1->Array_0);
        if kept.len() == 0 {
            None
        } else if kept.len() == 1 {
            Some(kept[0])
        } else {
            Some(JsonView::Array(kept))
        }
    } else {
        None
    }
}

/// A nullable enum (an `enum` array holding `null` next to other values) loses
/// its `null`; a `["<type>", "null"]` type array collapses in the same step.
/// An enum of nothing but `null` is left as it is.
pub open spec fn collapse_nullable_enum(es: Entries) -> Entries {
    if has_entry(es, "enum"@) && es[key_index(es, "enum"@)].1 is Array {
        let vals = es[key_index(es, "enum"@)].1->Array_0;
        if has_null(vals) && drop_nulls(vals).len() > 0 {
            let es1 = es.update(key_index(es, "enum"@), ("enum"@, JsonView::Array(drop_nulls(vals))));
            match type_without_null(es) {
                Some(t) => es1.update(key_index(es, "type"@), ("type"@, t)),
                None => es1,
            }
        } else {
            es
        }
    } else {
        es
    }
}

/// The normalized schema: `true` becomes `{}`, `false` becomes
/// `{"not": {}}`, and in an object the nested schemas are normalized, a
/// boolean `default` goes and a nullable enum collapses. Other values stay.
pub open spec fn normalized(v: JsonView) -> JsonView
    decreases v, 0int,
{
    match v {
        JsonView::Bool(b) => if b {
            JsonView::Object(Seq::empty())
        } else {
            JsonView::Object(seq![("not"@, JsonView::Object(Seq::empty()))])
        },
        JsonView::Object(es) => JsonView::Object(
            collapse_nullable_enum(drop_bool_default(normalized_entries(es))),
        ),
        _ => v,
    }
}

/// Each entry of a schema object with its nested schemas normalized.
pub open spec fn normalized_entries(es: Entries) -> Entries
    decreases es, 2int,
{
    Seq::new(
        es.len(),
        |i: int|
            if 0 <= i < es.len() {
                (es[i].0, normalized_child(es[i].0, es[i].1))
            } else {
                (Seq::empty(), JsonView::Null)
            },
    )
}

/// Each schema of a list normalized.
pub open spec fn normalized_items(items: Seq<JsonView>) -> Seq<JsonView>
    decreases items, 2int,
{
    Seq::new(
        items.len(),
        |i: int|
            if 0 <= i < items.len() {
                normalized(items[i])
            } else {
                JsonView::Null
            },
    )
}

/// Each schema of a map of named schemas normalized.
pub open spec fn normalized_members(es: Entries) -> Entries
    decreases es, 2int,
{
    Seq::new(
        es.len(),
        |i: int|
            if 0 <= i < es.len() {
                (es[i].0, normalized(es[i].1))
            } else {
                (Seq::empty(), JsonView::Null)
            },
    )
}

/// The value under key `k` of a schema object, normalized when `k` names a
/// nested schema, a list of schemas or a map of schemas.
pub open spec fn normalized_child(k: Seq<char>, val: JsonView) -> JsonView
    decreases val, 1int,
{
    if is_schema_key(k) {
        normalized(val)
    } else if is_schema_list_key(k) {
        match val {
            JsonView::Array(items) => JsonView::Array(normalized_items(items)),
            _ => val,
        }
    } else if is_schema_map_key(k) {
        match val {
            JsonView::Object(es) => JsonView::Object(normalized_members(es)),
            _ => val,
        }
    } else {
        val
    }
}

// ---------------------------------------------------------------------------
// Normalization, executable.
// ---------------------------------------------------------------------------

pub open spec fn entries_view(es: Seq<(String, JsonValue)>) -> Entries {
    Seq::new(es.len(), |i: int| (es[i].0@, es[i].1@))
}

pub open spec fn values_view(vs: Seq<JsonValue>) -> Seq<JsonView> {
    Seq::new(vs.len(), |i: int| vs[i]@)
}

pub(crate) proof fn lemma_object_view(v: JsonValue)
    requires
        v is Object,
    ensures
        v@ == JsonView::Object(entries_view(v->Object_0@)),
{
    if let JsonView::Object(a) = v@ {
        assert(a =~= entries_view(v->Object_0@));
    }
}

pub(crate) proof fn lemma_array_view(v: JsonValue)
    requires
        v is Array,
    ensures
        v@ == JsonView::Array(values_view(v->Array_0@)),
{
    if let JsonView::Array(a) = v@ {
        assert(a =~= values_view(v->Array_0@));
    }
}

/// Which kind of nested schema a key holds: 1 a schema, 2 a list of
/// schemas, 3 a map of schemas, 0 none.
fn schema_child_kind(k: &str) -> (r: u8)
    ensures
        r == 1 <==> is_schema_key(k@),
        r == 2 <==> !is_schema_key(k@) && is_schema_list_key(k@),
        r == 3 <==> !is_schema_key(k@) && !is_schema_list_key(k@) && is_schema_map_key(k@),
        r <= 3,
{
    if same_text(k, "additionalItems") || same_text(k, "additionalProperties") || same_text(k, "contains")
        || same_text(k, "contentSchema") || same_text(k, "else") || same_text(k, "if") || same_text(k, "items")
        || same_text(k, "not") || same_text(k, "propertyNames") || same_text(k, "then")
        || same_text(k, "unevaluatedItems") || same_text(k, "unevaluatedProperties") {
        1
    } else if same_text(k, "allOf") || same_text(k, "anyOf") || same_text(k, "oneOf") || same_text(k, "prefixItems") {
        2
    } else if same_text(k, "$defs") || same_text(k, "definitions") || same_text(k, "dependentSchemas")
        || same_text(k, "patternProperties") || same_text(k, "properties") {
        3
    } else {
        0
    }
}

/// Position of the first entry with key `k`.
pub(crate) fn find_key(es: &Vec<(String, JsonValue)>, k: &str) -> (r: Option<usize>)
    ensures
        match r {
            Some(i) => first_key(entries_view(es@), k@, i as int),
            None => !has_entry(entries_view(es@), k@),
        },
{
    let mut i: usize = 0;
    while i < es.len()
        invariant
            i <= es@.len(),
            forall|j: int| 0 <= j < i ==> entries_view(es@)[j].0 != k@,
        decreases es@.len() - i,
    {
        if same_text(es[i].0.as_str(), k) {
            return Some(i);
        }
        i = i + 1;
    }
    None
}

pub(crate) proof fn lemma_first_key_unique(es: Entries, k: Seq<char>, i: int)
    requires
        first_key(es, k, i),
    ensures
        has_entry(es, k),
        key_index(es, k) == i,
{
    let c = choose|c: int| first_key(es, k, c);
    if c < i {
        assert(es[c].0 == k);
    } else if i < c {
        assert(es[i].0 == k);
    }
}

/// Normalizes a schema value (see [`normalized`]).
pub fn normalize_schema_value(v: &JsonValue) -> (r: JsonValue)
    ensures
        r@ == normalized(v@),
    decreases v, 0int,
{
    match v {
        JsonValue::Bool(b) => {
            assert(v@ == JsonView::Bool(*b));
            if *b {
                let r = JsonValue::Object(Vec::new());
                proof {
                    lemma_object_view(r);
                    assert(entries_view(Seq::<(String, JsonValue)>::empty()) =~= Seq::empty());
                    assert(r@ == JsonView::Object(Seq::empty()));
                    assert(normalized(JsonView::Bool(true)) == JsonView::Object(Seq::empty()));
                }
                r
            } else {
                let inner = JsonValue::Object(Vec::new());
                proof { lemma_object_view(inner); assert(entries_view(Seq::<(String, JsonValue)>::empty()) =~= Seq::empty()); }
                let mut es: Vec<(String, JsonValue)> = Vec::new();
                es.push(("not".to_owned(), inner));
                let r = JsonValue::Object(es);
                proof {
                    lemma_object_view(r);
                    assert(entries_view(es@) =~= seq![("not"@, JsonView::Object(Seq::empty()))]);
                    assert(r@ == normalized(v@));
                }
                r
            }
        },
        JsonValue::Object(es) => {
            let mut out: Vec<(String, JsonValue)> = Vec::new();
            let ghost ev = entries_view(es@);
            proof { lemma_object_view(*v); }
            let mut i: usize = 0;
            while i < es.len()
                invariant
                    i <= es@.len(),
                    *v == JsonValue::Object(*es),
                    ev == entries_view(es@),
                    out@.len() == i,
                    forall|j: int| 0 <= j < i ==> (#[trigger] entries_view(out@)[j]) == (ev[j].0, normalized_child(ev[j].0, ev[j].1)),
                decreases es@.len() - i,
            {
                assert(decreases_to!(*v => (*v)->Object_0));
                assert(decreases_to!((*v)->Object_0 => es@));
                assert(decreases_to!(es@ => es@[i as int]));
                assert(decreases_to!(es@[i as int] => es@[i as int].1));
                let c = normalize_child(es[i].0.as_str(), &es[i].1);
                let k = copy_string(&es[i].0);
                let ghost before = out@;
                out.push((k, c));
                proof {
                    assert forall|j: int| 0 <= j < i + 1 implies (#[trigger] entries_view(out@)[j]) == (ev[j].0, normalized_child(ev[j].0, ev[j].1)) by {
                        if j < i {
                            assert(out@[j] == before[j]);
                            assert(entries_view(before)[j] == (ev[j].0, normalized_child(ev[j].0, ev[j].1)));
                        }
                    }
                }
                i = i + 1;
            }
            let ghost children = normalized_entries(ev);
            assert(entries_view(out@) =~= children);
            let dropped = drop_default_entry(out);
            let collapsed = collapse_entries(dropped);
            let r = JsonValue::Object(collapsed);
            proof {
                lemma_object_view(r);
                assert(v@ == JsonView::Object(ev));
                assert(normalized(v@) == JsonView::Object(collapse_nullable_enum(drop_bool_default(children))));
            }
            r
        },
        _ => {
            assert(normalized(v@) == v@);
            copy_json(v)
        },
    }
}

/// Normalizes the value under key `k` of a schema object (see [`normalized_child`]).
fn normalize_child(k: &str, val: &JsonValue) -> (r: JsonValue)
    ensures
        r@ == normalized_child(k@, val@),
    decreases val, 1int,
{
    let kind = schema_child_kind(k);
    if kind == 1 {
        normalize_schema_value(val)
    } else if kind == 2 {
        match val {
            JsonValue::Array(items) => {
                proof { lemma_array_view(*val); }
                let mut out: Vec<JsonValue> = Vec::new();
                let mut i: usize = 0;
                while i < items.len()
                    invariant
                        i <= items@.len(),
                        *val == JsonValue::Array(*items),
                        out@.len() == i,
                        forall|j: int| 0 <= j < i ==> (#[trigger] out@[j])@ == normalized(items@[j]@),
                    decreases items@.len() - i,
                {
                    assert(decreases_to!(*val => (*val)->Array_0));
                    assert(decreases_to!((*val)->Array_0 => items@));
                    assert(decreases_to!(items@ => items@[i as int]));
                    let c = normalize_schema_value(&items[i]);
                    out.push(c);
                    i = i + 1;
                }
                let r = JsonValue::Array(out);
                proof {
                    lemma_array_view(r);
                    let items_v = values_view(items@);
                    assert(values_view(out@) =~= normalized_items(items_v));
                }
                r
            },
            _ => copy_json(val),
        }
    } else if kind == 3 {
        match val {
            JsonValue::Object(es) => {
                proof { lemma_object_view(*val); }
                let mut out: Vec<(String, JsonValue)> = Vec::new();
                let mut i: usize = 0;
                while i < es.len()
                    invariant
                        i <= es@.len(),
                        *val == JsonValue::Object(*es),
                        out@.len() == i,
                        forall|j: int| 0 <= j < i ==> (#[trigger] out@[j]).0@ == es@[j].0@ && out@[j].1@ == normalized(es@[j].1@),
                    decreases es@.len() - i,
                {
                    assert(decreases_to!(*val => (*val)->Object_0));
                    assert(decreases_to!((*val)->Object_0 => es@));
                    assert(decreases_to!(es@ => es@[i as int]));
                    assert(decreases_to!(es@[i as int] => es@[i as int].1));
                    let c = normalize_schema_value(&es[i].1);
                    let name = copy_string(&es[i].0);
                    out.push((name, c));
                    i = i + 1;
                }
                let r = JsonValue::Object(out);
                proof {
                    lemma_object_view(r);
                    let ev = entries_view(es@);
                    assert(entries_view(out@) =~= normalized_members(ev));
                }
                r
            },
            _ => copy_json(val),
        }
    } else {
        assert(kind == 0);
        assert(!is_schema_key(k@) && !is_schema_list_key(k@) && !is_schema_map_key(k@));
        assert(normalized_child(k@, val@) == val@);
        copy_json(val)
    }
}

/// Removes a boolean `default` entry (see [`drop_bool_default`]).
fn drop_default_entry(es: Vec<(String, JsonValue)>) -> (r: Vec<(String, JsonValue)>)
    ensures
        entries_view(r@) == drop_bool_default(entries_view(es@)),
{
    let mut es = es;
    let ghost ev = entries_view(es@);
    match find_key(&es, "default") {
        Some(i) => {
            proof { lemma_first_key_unique(ev, "default"@, i as int); }
            let is_bool = match &es[i].1 {
                JsonValue::Bool(_) => true,
                _ => false,
            };
            if is_bool {
                es.remove(i);
                assert(entries_view(es@) =~= ev.remove(i as int));
            }
            es
        },
        None => es,
    }
}

/// Whether some value is `null`.
fn any_null(vals: &Vec<JsonValue>) -> (r: bool)
    ensures
        r == has_null(values_view(vals@)),
{
    let mut i: usize = 0;
    while i < vals.len()
        invariant
            i <= vals@.len(),
            forall|j: int| 0 <= j < i ==> !(values_view(vals@)[j] is Null),
        decreases vals@.len() - i,
    {
        if let JsonValue::Null = vals[i] {
            assert(values_view(vals@)[i as int] is Null);
            return true;
        }
        i = i + 1;
    }
    false
}

/// Copies of the values other than `null`.
fn without_nulls(vals: &Vec<JsonValue>) -> (r: Vec<JsonValue>)
    ensures
        values_view(r@) == drop_nulls(values_view(vals@)),
{
    let ghost vv = values_view(vals@);
    let mut out: Vec<JsonValue> = Vec::new();
    let mut i: usize = 0;
    while i < vals.len()
        invariant
            i <= vals@.len(),
            vv == values_view(vals@),
            values_view(out@) == drop_nulls(vv.take(i as int)),
        decreases vals@.len() - i,
    {
        proof {
            assert(vv.take(i + 1).drop_last() =~= vv.take(i as int));
            assert(vv.take(i + 1).last() == vv[i as int]);
        }
        let is_null = match &vals[i] {
            JsonValue::Null => true,
            _ => false,
        };
        if !is_null {
            let ghost before = out@;
            out.push(copy_json(&vals[i]));
            assert(values_view(out@) =~= values_view(before).push(vv[i as int]));
        }
        i = i + 1;
    }
    assert(vv.take(vals@.len() as int) =~= vv);
    out
}

/// Copies of the type names other than `"null"`.
fn without_null_type(vals: &Vec<JsonValue>) -> (r: Vec<JsonValue>)
    ensures
        values_view(r@) == drop_null_type(values_view(vals@)),
{
    let ghost vv = values_view(vals@);
    let mut out: Vec<JsonValue> = Vec::new();
    let mut i: usize = 0;
    while i < vals.len()
        invariant
            i <= vals@.len(),
            vv == values_view(vals@),
            values_view(out@) == drop_null_type(vv.take(i as int)),
        decreases vals@.len() - i,
    {
        proof {
            assert(vv.take(i + 1).drop_last() =~= vv.take(i as int));
            assert(vv.take(i + 1).last() == vv[i as int]);
        }
        let is_null_name = match &vals[i] {
            JsonValue::String(s) => same_text(s.as_str(), "null"),
            _ => false,
        };
        if !is_null_name {
            let ghost before = out@;
            out.push(copy_json(&vals[i]));
            assert(values_view(out@) =~= values_view(before).push(vv[i as int]));
        }
        i = i + 1;
    }
    assert(vv.take(vals@.len() as int) =~= vv);
    out
}

/// What a `type` array becomes without `"null"` (see [`type_without_null`]).
fn type_replacement(es: &Vec<(String, JsonValue)>) -> (r: Option<JsonValue>)
    ensures
        match r {
            Some(t) => type_without_null(entries_view(es@)) == Some(t@),
            None => type_without_null(entries_view(es@)) is None,
        },
{
    let ghost ev = entries_view(es@);
    match find_key(es, "type") {
        Some(j) => {
            proof { lemma_first_key_unique(ev, "type"@, j as int); }
            match &es[j].1 {
                JsonValue::Array(types) => {
                    proof { lemma_array_view(es@[j as int].1); }
                    let mut kept = without_null_type(types);
                    if kept.len() == 0 {
                        None
                    } else if kept.len() == 1 {
                        let single = kept.pop().unwrap();
                        assert(values_view(kept@.push(single))[0] == single@);
                        Some(single)
                    } else {
                        let r = JsonValue::Array(kept);
                        proof { lemma_array_view(r); }
                        Some(r)
                    }
                },
                _ => None,
            }
        },
        None => None,
    }
}

/// Collapses a nullable enum (see [`collapse_nullable_enum`]).
fn collapse_entries(es: Vec<(String, JsonValue)>) -> (r: Vec<(String, JsonValue)>)
    ensures
        entries_view(r@) == collapse_nullable_enum(entries_view(es@)),
{
    let mut es = es;
    let ghost ev = entries_view(es@);
    let i = match find_key(&es, "enum") {
        Some(i) => i,
        None => return es,
    };
    proof { lemma_first_key_unique(ev, "enum"@, i as int); }
    let kept = match &es[i].1 {
        JsonValue::Array(vals) => {
            proof { lemma_array_view(es@[i as int].1); }
            if !any_null(vals) {
                return es;
            }
            let kept = without_nulls(vals);
            if kept.len() == 0 {
                return es;
            }
            kept
        },
        _ => return es,
    };
    let replacement = type_replacement(&es);
    let type_at = find_key(&es, "type");
    let enum_value = JsonValue::Array(kept);
    proof { lemma_array_view(enum_value); }
    es.set(i, ("enum".to_owned(), enum_value));
    let ghost es1 = entries_view(es@);
    assert(es1 =~= ev.update(i as int, ("enum"@, JsonView::Array(drop_nulls(ev[i as int].1->Array_0)))));
    match replacement {
        Some(t) => {
            match type_at {
                Some(j) => {
                    proof { lemma_first_key_unique(ev, "type"@, j as int); }
                    let ghost tv = t@;
                    es.set(j, ("type".to_owned(), t));
                    assert(entries_view(es@) =~= es1.update(j as int, ("type"@, tv)));
                },
                None => {},
            }
        },
        None => {},
    }
    es
}


// ---------------------------------------------------------------------------
// Locating a boolean that survived normalization.
// ---------------------------------------------------------------------------

/// The first present path of a sequence of candidates.
pub open spec fn first_some(xs: Seq<Option<Seq<char>>>) -> Option<Seq<char>>
    decreases xs.len(),
{
    if xs.len() == 0 {
        None
    } else if xs[0] is Some {
        xs[0]
    } else {
        first_some(xs.drop_first())
    }
}

/// The path of the first boolean in `v` in document order, where `path` is
/// the path of `v` itself: array items add `[index]`, object members add
/// `.key`.
pub open spec fn bool_path(v: JsonView, path: Seq<char>) -> Option<Seq<char>>
    decreases v, 0int,
{
    match v {
        JsonView::Bool(_) => Some(path),
        JsonView::Array(items) => first_some(item_bool_paths(items, path)),
        JsonView::Object(es) => first_some(member_bool_paths(es, path)),
        _ => None,
    }
}

pub open spec fn item_bool_paths(items: Seq<JsonView>, path: Seq<char>) -> Seq<Option<Seq<char>>>
    decreases items, 1int,
{
    Seq::new(
        items.len(),
        |i: int|
            if 0 <= i < items.len() {
                bool_path(items[i], path + "["@ + decimal(i as nat) + "]"@)
            } else {
                None
            },
    )
}

pub open spec fn member_bool_paths(es: Entries, path: Seq<char>) -> Seq<Option<Seq<char>>>
    decreases es, 1int,
{
    Seq::new(
        es.len(),
        |i: int|
            if 0 <= i < es.len() {
                bool_path(es[i].1, path + "."@ + es[i].0)
            } else {
                None
            },
    )
}

proof fn lemma_first_some_found(xs: Seq<Option<Seq<char>>>, k: int)
    requires
        0 <= k < xs.len(),
        xs[k] is Some,
        forall|j: int| 0 <= j < k ==> xs[j] is None,
    ensures
        first_some(xs) == xs[k],
    decreases k,
{
    if k > 0 {
        let t = xs.drop_first();
        assert forall|j: int| 0 <= j < k - 1 implies t[j] is None by {
            assert(t[j] == xs[j + 1]);
        }
        lemma_first_some_found(t, k - 1);
    }
}

proof fn lemma_first_some_none(xs: Seq<Option<Seq<char>>>)
    requires
        forall|j: int| 0 <= j < xs.len() ==> xs[j] is None,
    ensures
        first_some(xs) is None,
    decreases xs.len(),
{
    if xs.len() > 0 {
        let t = xs.drop_first();
        assert forall|j: int| 0 <= j < t.len() implies t[j] is None by {
            assert(t[j] == xs[j + 1]);
        }
        lemma_first_some_none(t);
    }
}

/// The path (rooted at `$`) of the first boolean left in a schema, which a
/// normalized MCP schema must not hold.
pub fn first_boolean_path(v: &JsonValue) -> (r: Option<String>)
    ensures
        match r {
            Some(p) => bool_path(v@, "$"@) == Some(p@),
            None => bool_path(v@, "$"@) is None,
        },
{
    let root = "$".to_owned();
    bool_path_from(v, &root)
}

fn bool_path_from(v: &JsonValue, path: &String) -> (r: Option<String>)
    ensures
        match r {
            Some(p) => bool_path(v@, path@) == Some(p@),
            None => bool_path(v@, path@) is None,
        },
    decreases v,
{
    match v {
        JsonValue::Bool(_) => {
            assert(v@ is Bool);
            Some(copy_string(path))
        },
        JsonValue::Array(items) => {
            proof { lemma_array_view(*v); }
            let ghost iv = values_view(items@);
            let ghost cands = item_bool_paths(iv, path@);
            let mut i: usize = 0;
            while i < items.len()
                invariant
                    i <= items@.len(),
                    *v == JsonValue::Array(*items),
                    iv == values_view(items@),
                    v@ == JsonView::Array(iv),
                    cands == item_bool_paths(iv, path@),
                    forall|j: int| 0 <= j < i ==> cands[j] is None,
                decreases items@.len() - i,
            {
                assert(decreases_to!(*v => (*v)->Array_0));
                assert(decreases_to!((*v)->Array_0 => items@));
                assert(decreases_to!(items@ => items@[i as int]));
                let mut child = copy_string(path);
                push_str(&mut child, "[");
                let digits = u64_decimal(i as u64);
                push_str(&mut child, digits.as_str());
                push_str(&mut child, "]");
                assert(child@ == path@ + "["@ + decimal(i as nat) + "]"@);
                assert(cands[i as int] == bool_path(items@[i as int]@, child@));
                match bool_path_from(&items[i], &child) {
                    Some(p) => {
                        proof {
                            lemma_first_some_found(cands, i as int);
                            assert(bool_path(v@, path@) == first_some(cands));
                        }
                        return Some(p);
                    },
                    None => {},
                }
                i = i + 1;
            }
            proof { lemma_first_some_none(cands); }
            None
        },
        JsonValue::Object(es) => {
            proof { lemma_object_view(*v); }
            let ghost ev = entries_view(es@);
            let ghost cands = member_bool_paths(ev, path@);
            let mut i: usize = 0;
            while i < es.len()
                invariant
                    i <= es@.len(),
                    *v == JsonValue::Object(*es),
                    ev == entries_view(es@),
                    v@ == JsonView::Object(ev),
                    cands == member_bool_paths(ev, path@),
                    forall|j: int| 0 <= j < i ==> cands[j] is None,
                decreases es@.len() - i,
            {
                assert(decreases_to!(*v => (*v)->Object_0));
                assert(decreases_to!((*v)->Object_0 => es@));
                assert(decreases_to!(es@ => es@[i as int]));
                assert(decreases_to!(es@[i as int] => es@[i as int].1));
                let mut child = copy_string(path);
                push_str(&mut child, ".");
                push_str(&mut child, es[i].0.as_str());
                assert(cands[i as int] == bool_path(es@[i as int].1@, child@));
                match bool_path_from(&es[i].1, &child) {
                    Some(p) => {
                        proof {
                            lemma_first_some_found(cands, i as int);
                            assert(bool_path(v@, path@) == first_some(cands));
                        }
                        return Some(p);
                    },
                    None => {},
                }
                i = i + 1;
            }
            proof { lemma_first_some_none(cands); }
            None
        },
        _ => {
            assert(bool_path(v@, path@) is None);
            None
        },
    }
}


// ---------------------------------------------------------------------------
// Laws of normalization.
// ---------------------------------------------------------------------------

proof fn lemma_drop_nulls_clean(vals: Seq<JsonView>)
    ensures
        !has_null(drop_nulls(vals)),
        drop_nulls(vals).len() <= vals.len(),
    decreases vals.len(),
{
    if vals.len() > 0 {
        lemma_drop_nulls_clean(vals.drop_last());
        let d = drop_nulls(vals.drop_last());
        if !(vals.last() is Null) {
            let e = d.push(vals.last());
            assert forall|i: int| 0 <= i < e.len() implies !(e[i] is Null) by {
                if i < d.len() {
                    assert(e[i] == d[i]);
                }
            }
        }
    }
}

proof fn lemma_first_key_update(es: Entries, k: Seq<char>, i: int, k2: Seq<char>, j: int, v: JsonView)
    requires
        first_key(es, k, i),
        0 <= j < es.len(),
        es[j].0 == k2,
    ensures
        first_key(es.update(j, (k2, v)), k, i),
{
}

/// A normalized schema is never a boolean schema.
pub proof fn law_normalized_schema_is_not_boolean(v: JsonView)
    ensures
        !(normalized(v) is Bool),
{
}

/// After the nullable-enum rewrite, an `enum` array holds `null` only when it
/// holds nothing else.
pub proof fn law_collapsed_enum_holds_no_null(es: Entries)
    ensures
        ({
            let c = collapse_nullable_enum(es);
            has_entry(c, "enum"@) && c[key_index(c, "enum"@)].1 is Array ==> {
                let vals = c[key_index(c, "enum"@)].1->Array_0;
                !has_null(vals) || drop_nulls(vals).len() == 0
            }
        }),
{
    reveal_strlit("enum");
    reveal_strlit("type");
    let c = collapse_nullable_enum(es);
    if has_entry(es, "enum"@) && es[key_index(es, "enum"@)].1 is Array {
        let i = key_index(es, "enum"@);
        assert(exists|x: int| first_key(es, "enum"@, x)) by {
            let w = choose|w: int| 0 <= w < es.len() && es[w].0 == "enum"@;
            lemma_first_key_exists(es, "enum"@, w + 1);
        }
        let vals = es[i].1->Array_0;
        if has_null(vals) && drop_nulls(vals).len() > 0 {
            let es1 = es.update(i, ("enum"@, JsonView::Array(drop_nulls(vals))));
            lemma_first_key_update(es, "enum"@, i, "enum"@, i, JsonView::Array(drop_nulls(vals)));
            lemma_drop_nulls_clean(vals);
            match type_without_null(es) {
                Some(t) => {
                    let j = key_index(es, "type"@);
                    assert(exists|x: int| first_key(es, "type"@, x)) by {
                        let w = choose|w: int| 0 <= w < es.len() && es[w].0 == "type"@;
                        lemma_first_key_exists(es, "type"@, w + 1);
                    }
                    assert(es[j].0 == "type"@);
                    assert("type"@[0] != "enum"@[0]);
                    assert(j != i);
                    lemma_first_key_update(es1, "enum"@, i, "type"@, j, t);
                    lemma_first_key_unique(es1.update(j, ("type"@, t)), "enum"@, i);
                    assert(j != i);
                },
                None => {
                    lemma_first_key_unique(es1, "enum"@, i);
                },
            }
        }
    }
}

proof fn lemma_first_key_exists(es: Entries, k: Seq<char>, n: int)
    requires
        0 <= n <= es.len(),
        exists|i: int| 0 <= i < n && es[i].0 == k,
    ensures
        exists|i: int| first_key(es, k, i),
    decreases n,
{
    if exists|i: int| 0 <= i < n - 1 && es[i].0 == k {
        lemma_first_key_exists(es, k, n - 1);
    } else {
        assert(first_key(es, k, n - 1));
    }
}


/// The value under key `k` of an object (serde_json `Value::get`): that of
/// the first entry with the key; `None` for a value that is no object.
pub open spec fn json_get(v: JsonView, k: Seq<char>) -> Option<JsonView> {
    match v {
        JsonView::Object(es) => if has_entry(es, k) {
            Some(es[key_index(es, k)].1)
        } else {
            None
        },
        _ => None,
    }
}

/// The value under key `k` of an object.
pub fn get_field<'a>(v: &'a JsonValue, k: &str) -> (r: Option<&'a JsonValue>)
    ensures
        match r {
            Some(x) => json_get(v@, k@) == Some(x@),
            None => json_get(v@, k@) is None,
        },
{
    match v {
        JsonValue::Object(es) => {
            proof {
                lemma_object_view(*v);
            }
            match find_key(es, k) {
                Some(i) => {
                    proof {
                        lemma_first_key_unique(entries_view(es@), k@, i as int);
                    }
                    Some(&es[i].1)
                },
                None => None,
            }
        },
        _ => None,
    }
}


/// The first entry with key `k` is at [`key_index`], when there is one.
pub(crate) proof fn lemma_key_index(es: Entries, k: Seq<char>)
    ensures
        has_entry(es, k) ==> first_key(es, k, key_index(es, k)),
{
    if has_entry(es, k) {
        lemma_first_key_exists(es, k, es.len() as int);
    }
}

/// The values of an object's `enum` entry, when that entry is an array.
pub open spec fn enum_values(o: JsonView) -> Option<Seq<JsonView>> {
    match json_get(o, "enum"@) {
        Some(JsonView::Array(vals)) => Some(vals),
        _ => None,
    }
}

/// Whether an object holds a nullable enum: an `enum` array with a `null`
/// next to some other value.
pub open spec fn is_nullable_enum(o: JsonView) -> bool {
    match enum_values(o) {
        Some(vals) => has_null(vals) && exists|i: int| 0 <= i < vals.len() && !(vals[i] is Null),
        None => false,
    }
}

/// What a `type` entry becomes when a nullable enum collapses: an array loses
/// its `"null"` names, a single name left stands alone, and an array with no
/// name left is kept as it was; a scalar or missing type stays.
pub open spec fn type_after_collapse(t: Option<JsonView>) -> Option<JsonView> {
    match t {
        Some(JsonView::Array(ts)) => {
            let kept = ts.filter(|x: JsonView| x != JsonView::Str("null"@));
            if kept.len() == 0 {
                t
            } else if kept.len() == 1 {
                Some(kept[0])
            } else {
                Some(JsonView::Array(kept))
            }
        },
        _ => t,
    }
}

proof fn lemma_drop_nulls_filter(vals: Seq<JsonView>)
    ensures
        drop_nulls(vals) == vals.filter(|x: JsonView| !(x is Null)),
        drop_nulls(vals).len() == 0 <==> !(exists|i: int| 0 <= i < vals.len() && !(vals[i] is Null)),
    decreases vals.len(),
{
    reveal(Seq::filter);
    if vals.len() > 0 {
        let q = vals.drop_last();
        lemma_drop_nulls_filter(q);
        if drop_nulls(vals).len() == 0 {
            assert forall|i: int| 0 <= i < vals.len() implies vals[i] is Null by {
                if i < q.len() {
                    assert(vals[i] == q[i]);
                }
            }
        } else if vals.last() is Null {
            let i = choose|i: int| 0 <= i < q.len() && !(q[i] is Null);
            assert(vals[i] == q[i]);
        }
    }
}

proof fn lemma_drop_null_type_filter(ts: Seq<JsonView>)
    ensures
        drop_null_type(ts) == ts.filter(|x: JsonView| x != JsonView::Str("null"@)),
    decreases ts.len(),
{
    reveal(Seq::filter);
    if ts.len() > 0 {
        lemma_drop_null_type_filter(ts.drop_last());
    }
}

/// Rewriting the entry that holds the first key `k` gives `v` under `k`.
proof fn lemma_get_updated(es: Entries, k: Seq<char>, j: int, v: JsonView)
    requires
        first_key(es, k, j),
    ensures
        json_get(JsonView::Object(es.update(j, (k, v))), k) == Some(v),
{
    lemma_first_key_update(es, k, j, k, j, v);
    lemma_first_key_unique(es.update(j, (k, v)), k, j);
}

/// Rewriting the value of an entry with key `kj` leaves every other key as it was.
proof fn lemma_get_other(es: Entries, kj: Seq<char>, j: int, v: JsonView, k: Seq<char>)
    requires
        0 <= j < es.len(),
        es[j].0 == kj,
        k != kj,
    ensures
        json_get(JsonView::Object(es.update(j, (kj, v))), k) == json_get(JsonView::Object(es), k),
{
    let es2 = es.update(j, (kj, v));
    if has_entry(es, k) {
        lemma_key_index(es, k);
        let i = key_index(es, k);
        lemma_first_key_update(es, k, i, kj, j, v);
        lemma_first_key_unique(es2, k, i);
    } else {
        assert forall|i: int| 0 <= i < es2.len() implies es2[i].0 != k by {
            if i != j {
                assert(es2[i] == es[i]);
            }
        }
    }
}

/// What the nullable-enum rewrite does to an object. When the `enum` array
/// holds `null` next to other values, the `enum` keeps its other values in
/// their order, the `type` becomes [`type_after_collapse`] of what it was,
/// and no other key changes. Any other object is left as it is.
pub proof fn law_nullable_enum_collapse(es: Entries)
    ensures
        !is_nullable_enum(JsonView::Object(es)) ==> collapse_nullable_enum(es) == es,
        is_nullable_enum(JsonView::Object(es)) ==> {
            let o = JsonView::Object(es);
            let c = JsonView::Object(collapse_nullable_enum(es));
            &&& json_get(c, "enum"@) == Some(JsonView::Array(
                enum_values(o)->Some_0.filter(|x: JsonView| !(x is Null)),
            ))
            &&& json_get(c, "type"@) == type_after_collapse(json_get(o, "type"@))
            &&& forall|k: Seq<char>| k != "enum"@ && k != "type"@ ==> #[trigger] json_get(c, k) == json_get(o, k)
        },
{
    reveal_strlit("enum");
    reveal_strlit("type");
    reveal_strlit("null");
    let o = JsonView::Object(es);
    lemma_key_index(es, "enum"@);
    lemma_key_index(es, "type"@);
    assert("type"@ != "enum"@) by {
        assert("type"@[0] != "enum"@[0]);
    }
    if has_entry(es, "enum"@) && es[key_index(es, "enum"@)].1 is Array {
        let i = key_index(es, "enum"@);
        let vals = es[i].1->Array_0;
        lemma_drop_nulls_filter(vals);
        if has_null(vals) && drop_nulls(vals).len() > 0 {
            let es1 = es.update(i, ("enum"@, JsonView::Array(drop_nulls(vals))));
            lemma_get_updated(es, "enum"@, i, JsonView::Array(drop_nulls(vals)));
            lemma_get_other(es, "enum"@, i, JsonView::Array(drop_nulls(vals)), "type"@);
            assert forall|k: Seq<char>| k != "enum"@ && k != "type"@ implies #[trigger] json_get(JsonView::Object(es1), k) == json_get(o, k) by {
                lemma_get_other(es, "enum"@, i, JsonView::Array(drop_nulls(vals)), k);
            }
            if has_entry(es, "type"@) && es[key_index(es, "type"@)].1 is Array {
                lemma_drop_null_type_filter(es[key_index(es, "type"@)].1->Array_0);
            }
            match type_without_null(es) {
                Some(t) => {
                    let j = key_index(es, "type"@);
                    lemma_first_key_update(es, "type"@, j, "enum"@, i, JsonView::Array(drop_nulls(vals)));
                    lemma_get_updated(es1, "type"@, j, t);
                    lemma_get_other(es1, "type"@, j, t, "enum"@);
                    assert forall|k: Seq<char>| k != "enum"@ && k != "type"@ implies #[trigger] json_get(
                        JsonView::Object(es1.update(j, ("type"@, t))),
                        k,
                    ) == json_get(o, k) by {
                        lemma_get_other(es1, "type"@, j, t, k);
                        lemma_get_other(es, "enum"@, i, JsonView::Array(drop_nulls(vals)), k);
                    }
                },
                None => {},
            }
        }
    }
}

// ---------------------------------------------------------------------------
// No boolean schema survives normalization.
// ---------------------------------------------------------------------------

/// JSON Schema keywords whose value is a schema.
pub open spec fn schema_valued_keyword(k: Seq<char>) -> bool {
    ||| k == "additionalItems"@
    ||| k == "additionalProperties"@
    ||| k == "contains"@
    ||| k == "contentSchema"@
    ||| k == "else"@
    ||| k == "if"@
    ||| k == "items"@
    ||| k == "not"@
    ||| k == "propertyNames"@
    ||| k == "then"@
    ||| k == "unevaluatedItems"@
    ||| k == "unevaluatedProperties"@
}

/// JSON Schema keywords whose value is an array of schemas.
pub open spec fn schema_array_keyword(k: Seq<char>) -> bool {
    ||| k == "allOf"@
    ||| k == "anyOf"@
    ||| k == "oneOf"@
    ||| k == "prefixItems"@
}

/// JSON Schema keywords whose value is an object of named schemas.
pub open spec fn schema_object_keyword(k: Seq<char>) -> bool {
    ||| k == "$defs"@
    ||| k == "definitions"@
    ||| k == "dependentSchemas"@
    ||| k == "patternProperties"@
    ||| k == "properties"@
}

/// Whether a boolean occurs anywhere in a value.
pub open spec fn holds_bool(v: JsonView) -> bool
    decreases v, 0int,
{
    match v {
        JsonView::Bool(_) => true,
        JsonView::Array(items) => item_bools(items).contains(true),
        JsonView::Object(es) => member_bools(es).contains(true),
        _ => false,
    }
}

pub open spec fn item_bools(items: Seq<JsonView>) -> Seq<bool>
    decreases items, 1int,
{
    Seq::new(items.len(), |i: int| if 0 <= i < items.len() { holds_bool(items[i]) } else { false })
}

pub open spec fn member_bools(es: Entries) -> Seq<bool>
    decreases es, 1int,
{
    Seq::new(es.len(), |i: int| if 0 <= i < es.len() { holds_bool(es[i].1) } else { false })
}

/// A schema whose booleans all stand where a schema can: as the schema
/// itself, or (at any depth) under a keyword that holds a schema, an array of
/// schemas or an object of named schemas. Everywhere else it holds none.
pub open spec fn booleans_only_as_schemas(v: JsonView) -> bool
    decreases v, 0int,
{
    match v {
        JsonView::Bool(_) => true,
        JsonView::Object(es) => !member_checks(es).contains(false),
        _ => !holds_bool(v),
    }
}

pub open spec fn member_checks(es: Entries) -> Seq<bool>
    decreases es, 2int,
{
    Seq::new(es.len(), |i: int| if 0 <= i < es.len() { member_bools_as_schemas(es[i].0, es[i].1) } else { true })
}

pub open spec fn schema_checks(items: Seq<JsonView>) -> Seq<bool>
    decreases items, 2int,
{
    Seq::new(items.len(), |i: int| if 0 <= i < items.len() { booleans_only_as_schemas(items[i]) } else { true })
}

pub open spec fn named_schema_checks(ms: Entries) -> Seq<bool>
    decreases ms, 2int,
{
    Seq::new(ms.len(), |i: int| if 0 <= i < ms.len() { booleans_only_as_schemas(ms[i].1) } else { true })
}

pub open spec fn member_bools_as_schemas(k: Seq<char>, val: JsonView) -> bool
    decreases val, 1int,
{
    if schema_valued_keyword(k) {
        booleans_only_as_schemas(val)
    } else if schema_array_keyword(k) {
        match val {
            JsonView::Array(items) => !schema_checks(items).contains(false),
            _ => !holds_bool(val),
        }
    } else if schema_object_keyword(k) {
        match val {
            JsonView::Object(ms) => !named_schema_checks(ms).contains(false),
            _ => !holds_bool(val),
        }
    } else {
        !holds_bool(val)
    }
}

proof fn lemma_no_bool_no_path(v: JsonView, path: Seq<char>)
    requires
        !holds_bool(v),
    ensures
        bool_path(v, path) is None,
    decreases v,
{
    match v {
        JsonView::Array(items) => {
            let xs = item_bool_paths(items, path);
            assert forall|j: int| 0 <= j < xs.len() implies xs[j] is None by {
                assert(item_bools(items)[j] == holds_bool(items[j]));
                assert(!holds_bool(items[j]));
                lemma_no_bool_no_path(items[j], path + "["@ + decimal(j as nat) + "]"@);
            }
            lemma_first_some_none(xs);
        },
        JsonView::Object(es) => {
            let xs = member_bool_paths(es, path);
            assert forall|j: int| 0 <= j < xs.len() implies xs[j] is None by {
                assert(member_bools(es)[j] == holds_bool(es[j].1));
                assert(!holds_bool(es[j].1));
                lemma_no_bool_no_path(es[j].1, path + "."@ + es[j].0);
            }
            lemma_first_some_none(xs);
        },
        _ => {},
    }
}

proof fn lemma_drop_nulls_from(vals: Seq<JsonView>)
    ensures
        forall|j: int| 0 <= j < drop_nulls(vals).len() ==> exists|i: int| 0 <= i < vals.len() && vals[i] == #[trigger] drop_nulls(vals)[j],
    decreases vals.len(),
{
    if vals.len() > 0 {
        let q = vals.drop_last();
        lemma_drop_nulls_from(q);
        let d = drop_nulls(q);
        assert forall|j: int| 0 <= j < d.len() implies exists|i: int| 0 <= i < vals.len() && vals[i] == #[trigger] d[j] by {
            let i = choose|i: int| 0 <= i < q.len() && q[i] == d[j];
            assert(vals[i] == q[i]);
        }
        if !(vals.last() is Null) {
            let e = d.push(vals.last());
            assert forall|j: int| 0 <= j < e.len() implies exists|i: int| 0 <= i < vals.len() && vals[i] == #[trigger] e[j] by {
                if j < d.len() {
                    assert(e[j] == d[j]);
                } else {
                    assert(vals[vals.len() - 1] == e[j]);
                }
            }
        }
    }
}

proof fn lemma_drop_null_type_from(vals: Seq<JsonView>)
    ensures
        forall|j: int| 0 <= j < drop_null_type(vals).len() ==> exists|i: int| 0 <= i < vals.len() && vals[i] == #[trigger] drop_null_type(vals)[j],
    decreases vals.len(),
{
    if vals.len() > 0 {
        let q = vals.drop_last();
        lemma_drop_null_type_from(q);
        let d = drop_null_type(q);
        assert forall|j: int| 0 <= j < d.len() implies exists|i: int| 0 <= i < vals.len() && vals[i] == #[trigger] d[j] by {
            let i = choose|i: int| 0 <= i < q.len() && q[i] == d[j];
            assert(vals[i] == q[i]);
        }
        if vals.last() != JsonView::Str("null"@) {
            let e = d.push(vals.last());
            assert forall|j: int| 0 <= j < e.len() implies exists|i: int| 0 <= i < vals.len() && vals[i] == #[trigger] e[j] by {
                if j < d.len() {
                    assert(e[j] == d[j]);
                } else {
                    assert(vals[vals.len() - 1] == e[j]);
                }
            }
        }
    }
}

/// Every entry value of an object free of booleans.
pub open spec fn entries_free(es: Entries) -> bool {
    forall|i: int| 0 <= i < es.len() ==> !holds_bool(#[trigger] es[i].1)
}

proof fn lemma_subset_free(vals: Seq<JsonView>, sub: Seq<JsonView>)
    requires
        forall|i: int| 0 <= i < vals.len() ==> !holds_bool(#[trigger] vals[i]),
        forall|j: int| 0 <= j < sub.len() ==> exists|i: int| 0 <= i < vals.len() && vals[i] == #[trigger] sub[j],
    ensures
        !holds_bool(JsonView::Array(sub)),
        forall|j: int| 0 <= j < sub.len() ==> !holds_bool(#[trigger] sub[j]),
{
    assert forall|j: int| 0 <= j < sub.len() implies !holds_bool(#[trigger] sub[j]) by {
        let i = choose|i: int| 0 <= i < vals.len() && vals[i] == sub[j];
    }
}

proof fn lemma_rewrites_keep_free(es: Entries)
    requires
        entries_free(es),
    ensures
        entries_free(collapse_nullable_enum(drop_bool_default(es))),
{
    let d = drop_bool_default(es);
    lemma_key_index(es, "default"@);
    assert(entries_free(d)) by {
        if has_entry(es, "default"@) && es[key_index(es, "default"@)].1 is Bool {
            let k = key_index(es, "default"@);
            assert forall|i: int| 0 <= i < d.len() implies !holds_bool(#[trigger] d[i].1) by {
                if i < k {
                    assert(d[i] == es[i]);
                } else {
                    assert(d[i] == es[i + 1]);
                }
            }
        }
    }
    lemma_key_index(d, "enum"@);
    lemma_key_index(d, "type"@);
    if has_entry(d, "enum"@) && d[key_index(d, "enum"@)].1 is Array {
        let i = key_index(d, "enum"@);
        let vals = d[i].1->Array_0;
        if has_null(vals) && drop_nulls(vals).len() > 0 {
            assert forall|j: int| 0 <= j < vals.len() implies !holds_bool(#[trigger] vals[j]) by {
                assert(!holds_bool(d[i].1));
                assert(item_bools(vals)[j] == holds_bool(vals[j]));
            }
            lemma_drop_nulls_from(vals);
            lemma_subset_free(vals, drop_nulls(vals));
            let es1 = d.update(i, ("enum"@, JsonView::Array(drop_nulls(vals))));
            assert(entries_free(es1));
            match type_without_null(d) {
                Some(t) => {
                    let j = key_index(d, "type"@);
                    let ts = d[j].1->Array_0;
                    assert forall|x: int| 0 <= x < ts.len() implies !holds_bool(#[trigger] ts[x]) by {
                        assert(!holds_bool(d[j].1));
                        assert(item_bools(ts)[x] == holds_bool(ts[x]));
                    }
                    lemma_drop_null_type_from(ts);
                    lemma_subset_free(ts, drop_null_type(ts));
                    assert(!holds_bool(t));
                    assert(entries_free(es1.update(j, ("type"@, t))));
                },
                None => {},
            }
        }
    }
}

proof fn lemma_normalized_free(v: JsonView)
    requires
        booleans_only_as_schemas(v),
    ensures
        !holds_bool(normalized(v)),
    decreases v,
{
    match v {
        JsonView::Bool(b) => {
            if !b {
                let es: Entries = seq![("not"@, JsonView::Object(Seq::empty()))];
                assert(!holds_bool(es[0].1));
            }
        },
        JsonView::Object(es) => {
            let n = normalized_entries(es);
            assert forall|i: int| 0 <= i < n.len() implies !holds_bool(#[trigger] n[i].1) by {
                let k = es[i].0;
                let val = es[i].1;
                assert(member_checks(es)[i] == member_bools_as_schemas(k, val));
                assert(member_bools_as_schemas(k, val));
                assert(n[i].1 == normalized_child(k, val));
                if is_schema_key(k) {
                    lemma_normalized_free(val);
                } else if is_schema_list_key(k) {
                    match val {
                        JsonView::Array(items) => {
                            let ni = normalized_items(items);
                            assert forall|j: int| 0 <= j < ni.len() implies !holds_bool(#[trigger] ni[j]) by {
                                assert(schema_checks(items)[j] == booleans_only_as_schemas(items[j]));
                                assert(booleans_only_as_schemas(items[j]));
                                lemma_normalized_free(items[j]);
                            }
                        },
                        _ => {},
                    }
                } else if is_schema_map_key(k) {
                    match val {
                        JsonView::Object(ms) => {
                            let nm = normalized_members(ms);
                            assert forall|j: int| 0 <= j < nm.len() implies !holds_bool(#[trigger] nm[j].1) by {
                                assert(named_schema_checks(ms)[j] == booleans_only_as_schemas(ms[j].1));
                                assert(booleans_only_as_schemas(ms[j].1));
                                lemma_normalized_free(ms[j].1);
                            }
                        },
                        _ => {},
                    }
                }
            }
            lemma_rewrites_keep_free(n);
        },
        _ => {},
    }
}

/// After normalization no boolean is left in a schema whose booleans stood
/// only where a schema can stand (the schema itself, or at any depth under
/// `additionalProperties`, `items`, `not` and the other schema keywords,
/// in the arrays of `allOf`, `anyOf`, `oneOf` and `prefixItems`, and among
/// the members of `$defs`, `definitions`, `dependentSchemas`,
/// `patternProperties` and `properties`): the boolean path search finds
/// nothing.
pub proof fn law_normalized_schema_holds_no_boolean(v: JsonView)
    requires
        booleans_only_as_schemas(v),
    ensures
        bool_path(normalized(v), "$"@) is None,
{
    lemma_normalized_free(v);
    lemma_no_bool_no_path(normalized(v), "$"@);
}

/// After normalization an object schema holds no boolean `default`: a
/// boolean annotation is removed, and any other `default` stays as it was
/// (for an object whose key `default` occurs at most once, as in any JSON
/// object that serde_json reads).
pub proof fn law_normalized_schema_has_no_boolean_default(es: Entries)
    requires
        forall|i: int, j: int| 0 <= i < j < es.len() && es[i].0 == "default"@ ==> es[j].0 != "default"@,
    ensures
        !(json_get(normalized(JsonView::Object(es)), "default"@) matches Some(JsonView::Bool(_))),
{
    reveal_strlit("default");
    reveal_strlit("enum");
    reveal_strlit("type");
    assert("default"@ != "enum"@) by {
        assert("default"@[0] != "enum"@[0]);
    }
    assert("default"@ != "type"@) by {
        assert("default"@[0] != "type"@[0]);
    }
    let n = normalized_entries(es);
    assert forall|i: int| 0 <= i < n.len() implies #[trigger] n[i].0 == es[i].0 by {}
    let d = drop_bool_default(n);
    lemma_key_index(n, "default"@);
    law_nullable_enum_collapse(d);
    let c = collapse_nullable_enum(d);
    assert(json_get(JsonView::Object(c), "default"@) == json_get(JsonView::Object(d), "default"@));
    if has_entry(n, "default"@) && n[key_index(n, "default"@)].1 is Bool {
        let k = key_index(n, "default"@);
        assert forall|i: int| 0 <= i < d.len() implies d[i].0 != "default"@ by {
            if i < k {
                assert(d[i] == n[i]);
            } else {
                assert(d[i] == n[i + 1]);
                assert(n[k].0 == es[k].0);
                assert(n[i + 1].0 == es[i + 1].0);
            }
        }
    }
}

} // verus!
