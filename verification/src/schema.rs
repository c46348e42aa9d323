//! JSON Schemas for strict providers.

use vstd::prelude::*;

use crate::json::{lemma_prefix_map_push, JsonObject, JsonValue, JsonView};
use crate::text::str_eq;

verus! {

// ---------------------------------------------------------------------------
// Model
// ---------------------------------------------------------------------------

/// A value without any member named `additionalProperties`, at any depth.
pub open spec fn stripped(v: JsonView) -> JsonView
    decreases v,
{
    match v {
        JsonView::Object(m) => JsonView::Object(
            Map::new(
                |k: Seq<char>| m.contains_key(k) && k != "additionalProperties"@,
                |k: Seq<char>|
                    if m.contains_key(k) {
                        stripped(m[k])
                    } else {
                        JsonView::Null
                    },
            ),
        ),
        JsonView::Array(a) => JsonView::Array(
            Seq::new(
                a.len(),
                |i: int|
                    if 0 <= i < a.len() {
                        stripped(a[i])
                    } else {
                        JsonView::Null
                    },
            ),
        ),
        _ => v,
    }
}

/// The text `"null"`.
pub open spec fn is_null_name(v: JsonView) -> bool {
    v.as_str() == Some("null"@)
}

/// All types in a list but the one at `i` are `"null"`.
pub open spec fn is_sole_type(types: Seq<JsonView>, i: int) -> bool {
    &&& 0 <= i < types.len()
    &&& !is_null_name(types[i])
    &&& forall|j: int| 0 <= j < types.len() && j != i ==> is_null_name(#[trigger] types[j])
}

/// Where the only type that is not `"null"` stands.
pub open spec fn sole_type(types: Seq<JsonView>) -> Option<int> {
    if exists|i: int| is_sole_type(types, i) {
        Some(choose|i: int| is_sole_type(types, i))
    } else {
        None
    }
}

/// A value in which every `type` that lists one type beside `"null"` is that
/// one type, at any depth.
pub open spec fn normalized(v: JsonView) -> JsonView
    decreases v, 0nat,
{
    match v {
        JsonView::Object(m) => JsonView::Object(
            Map::new(
                |k: Seq<char>| m.contains_key(k),
                |k: Seq<char>|
                    if m.contains_key(k) {
                        normalized_member(k, m[k])
                    } else {
                        JsonView::Null
                    },
            ),
        ),
        JsonView::Array(a) => JsonView::Array(
            Seq::new(
                a.len(),
                |i: int|
                    if 0 <= i < a.len() {
                        normalized(a[i])
                    } else {
                        JsonView::Null
                    },
            ),
        ),
        _ => v,
    }
}

/// What a member of an object becomes.
pub open spec fn normalized_member(key: Seq<char>, v: JsonView) -> JsonView
    decreases v, 1nat,
{
    match v {
        JsonView::Array(types) => match sole_type(types) {
            Some(i) => if key == "type"@ && 0 <= i < types.len() {
                normalized(types[i])
            } else {
                normalized(v)
            },
            None => normalized(v),
        },
        _ => normalized(v),
    }
}

/// A schema for an object with one required member `value` of the given schema.
pub open spec fn wrapped(v: JsonView) -> JsonView {
    JsonView::Object(
        Map::<Seq<char>, JsonView>::empty().insert("type"@, JsonView::String("object"@)).insert(
            "properties"@,
            JsonView::Object(Map::<Seq<char>, JsonView>::empty().insert("value"@, v)),
        ).insert("required"@, JsonView::Array(seq![JsonView::String("value"@)])),
    )
}

/// The root describes an object.
pub open spec fn describes_object(v: JsonView) -> bool {
    match v.get("type"@) {
        Some(t) => t.as_str() == Some("object"@),
        None => false,
    }
}

/// A schema as strict providers take it.
pub open spec fn sanitized(v: JsonView) -> JsonView {
    normalized(
        stripped(
            if describes_object(v) {
                v
            } else {
                wrapped(v)
            },
        ),
    )
}

/// No object in the value has a member named `additionalProperties`.
pub open spec fn is_strict(v: JsonView) -> bool
    decreases v,
{
    match v {
        JsonView::Object(m) => {
            &&& !m.contains_key("additionalProperties"@)
            &&& forall|k: Seq<char>| #[trigger] m.contains_key(k) ==> is_strict(m[k])
        },
        JsonView::Array(a) => forall|i: int| 0 <= i < a.len() ==> is_strict(#[trigger] a[i]),
        _ => true,
    }
}

// ---------------------------------------------------------------------------
// Laws
// ---------------------------------------------------------------------------

proof fn lemma_stripped_is_strict(v: JsonView)
    ensures
        is_strict(stripped(v)),
    decreases v,
{
    match v {
        JsonView::Object(m) => {
            let r = stripped(v)->Object_0;
            assert forall|k: Seq<char>| #[trigger] r.contains_key(k) implies is_strict(r[k]) by {
                lemma_stripped_is_strict(m[k]);
            }
        },
        JsonView::Array(a) => {
            let r = stripped(v)->Array_0;
            assert forall|i: int| 0 <= i < r.len() implies is_strict(#[trigger] r[i]) by {
                lemma_stripped_is_strict(a[i]);
            }
        },
        _ => {},
    }
}

proof fn lemma_normalized_is_strict(v: JsonView)
    requires
        is_strict(v),
    ensures
        is_strict(normalized(v)),
    decreases v, 0nat,
{
    match v {
        JsonView::Object(m) => {
            let r = normalized(v)->Object_0;
            assert forall|k: Seq<char>| #[trigger] r.contains_key(k) implies is_strict(r[k]) by {
                assert(m.contains_key(k));
                lemma_normalized_member_is_strict(k, m[k]);
            }
        },
        JsonView::Array(a) => {
            let r = normalized(v)->Array_0;
            assert forall|i: int| 0 <= i < r.len() implies is_strict(#[trigger] r[i]) by {
                lemma_normalized_is_strict(a[i]);
            }
        },
        _ => {},
    }
}

proof fn lemma_normalized_member_is_strict(key: Seq<char>, v: JsonView)
    requires
        is_strict(v),
    ensures
        is_strict(normalized_member(key, v)),
    decreases v, 1nat,
{
    lemma_normalized_is_strict(v);
    if let JsonView::Array(types) = v {
        if let Some(i) = sole_type(types) {
            if 0 <= i < types.len() {
                lemma_normalized_is_strict(types[i]);
            }
        }
    }
}

/// A sanitized schema describes an object at its root, and nothing in it is
/// named `additionalProperties`.
pub proof fn sanitized_schemas_are_strict_objects(v: JsonView)
    ensures
        describes_object(sanitized(v)),
        is_strict(sanitized(v)),
{
    let root = if describes_object(v) {
        v
    } else {
        wrapped(v)
    };
    assert("type"@ != "properties"@ && "type"@ != "required"@ && "type"@ != "additionalProperties"@)
        by {
        reveal_strlit("type");
        reveal_strlit("properties");
        reveal_strlit("required");
        reveal_strlit("additionalProperties");
        assert("type"@.len() == 4);
        assert("properties"@.len() == 10);
    }
    lemma_stripped_is_strict(root);
    lemma_normalized_is_strict(stripped(root));
    let t = JsonView::String("object"@);
    assert(root.get("type"@) == Some(t));
    assert(stripped(t) == t);
    assert(stripped(root).get("type"@) == Some(t));
    assert(normalized_member("type"@, t) == t);
    assert(sanitized(v).get("type"@) == Some(t));
}

/// In no object of the value does `type` list one type beside `"null"`.
pub open spec fn is_normal(v: JsonView) -> bool
    decreases v,
{
    match v {
        JsonView::Object(m) => forall|k: Seq<char>| #[trigger]
            m.contains_key(k) ==> is_normal(m[k]) && (k == "type"@ ==> !lists_one_type(m[k])),
        JsonView::Array(a) => forall|i: int| 0 <= i < a.len() ==> is_normal(#[trigger] a[i]),
        _ => true,
    }
}

/// A list of one type beside `"null"`.
pub open spec fn lists_one_type(v: JsonView) -> bool {
    v matches JsonView::Array(types) && sole_type(types) is Some
}

/// In no object of the value does `type` list, as its one type, another list of
/// one type.
pub open spec fn types_are_flat(v: JsonView) -> bool
    decreases v,
{
    match v {
        JsonView::Object(m) => forall|k: Seq<char>| #[trigger]
            m.contains_key(k) ==> types_are_flat(m[k]) && (k == "type"@ ==> is_flat_list(m[k])),
        JsonView::Array(a) => forall|i: int| 0 <= i < a.len() ==> types_are_flat(#[trigger] a[i]),
        _ => true,
    }
}

/// Where the value lists one type, that is no list of one type.
pub open spec fn is_flat_list(v: JsonView) -> bool {
    v matches JsonView::Array(types) ==> forall|i: int| #[trigger]
        is_sole_type(types, i) ==> !lists_one_type(types[i])
}

/// Lists with `"null"` at the same places list one type at the same place.
proof fn lemma_same_sole_type(a: Seq<JsonView>, b: Seq<JsonView>, i: int)
    requires
        a.len() == b.len(),
        forall|j: int| 0 <= j < a.len() ==> is_null_name(#[trigger] a[j]) == is_null_name(b[j]),
    ensures
        is_sole_type(a, i) == is_sole_type(b, i),
{
    if is_sole_type(a, i) {
        assert forall|j: int| 0 <= j < b.len() && j != i implies is_null_name(
            #[trigger] b[j],
        ) by {
            assert(is_null_name(a[j]));
        }
    }
    if is_sole_type(b, i) {
        assert(is_null_name(a[i]) == is_null_name(b[i]));
        assert forall|j: int| 0 <= j < a.len() && j != i implies is_null_name(
            #[trigger] a[j],
        ) by {
            assert(is_null_name(b[j]));
        }
    }
}

proof fn lemma_same_lists(a: Seq<JsonView>, b: Seq<JsonView>)
    requires
        a.len() == b.len(),
        forall|j: int| 0 <= j < a.len() ==> is_null_name(#[trigger] a[j]) == is_null_name(b[j]),
    ensures
        sole_type(a) is Some == sole_type(b) is Some,
{
    if sole_type(a) is Some {
        let i = choose|i: int| is_sole_type(a, i);
        lemma_same_sole_type(a, b, i);
    }
    if sole_type(b) is Some {
        let i = choose|i: int| is_sole_type(b, i);
        lemma_same_sole_type(a, b, i);
    }
}

proof fn lemma_stripped_names(v: JsonView)
    ensures
        is_null_name(stripped(v)) == is_null_name(v),
        lists_one_type(stripped(v)) == lists_one_type(v),
{
    if let JsonView::Array(a) = v {
        let b = stripped(v)->Array_0;
        assert forall|j: int| 0 <= j < a.len() implies is_null_name(#[trigger] a[j])
            == is_null_name(b[j]) by {
            assert(b[j] == stripped(a[j]));
            match a[j] {
                JsonView::Object(_) => {},
                JsonView::Array(_) => {},
                _ => {},
            }
        }
        lemma_same_lists(a, b);
    }
}

proof fn lemma_normalized_names(v: JsonView)
    ensures
        is_null_name(normalized(v)) == is_null_name(v),
        lists_one_type(normalized(v)) == lists_one_type(v),
{
    if let JsonView::Array(a) = v {
        let b = normalized(v)->Array_0;
        assert forall|j: int| 0 <= j < a.len() implies is_null_name(#[trigger] a[j])
            == is_null_name(b[j]) by {
            assert(b[j] == normalized(a[j]));
            match a[j] {
                JsonView::Object(_) => {},
                JsonView::Array(_) => {},
                _ => {},
            }
        }
        lemma_same_lists(a, b);
    }
}

proof fn lemma_stripped_is_flat(v: JsonView)
    requires
        types_are_flat(v),
    ensures
        types_are_flat(stripped(v)),
    decreases v,
{
    match v {
        JsonView::Object(m) => {
            let r = stripped(v)->Object_0;
            assert forall|k: Seq<char>| #[trigger] r.contains_key(k) implies types_are_flat(r[k])
                && (k == "type"@ ==> is_flat_list(r[k])) by {
                assert(m.contains_key(k));
                assert(r[k] == stripped(m[k]));
                lemma_stripped_is_flat(m[k]);
                if k == "type"@ {
                    if let JsonView::Array(types) = m[k] {
                        let after = r[k]->Array_0;
                        assert forall|i: int| #[trigger] is_sole_type(after, i) implies !lists_one_type(
                            after[i],
                        ) by {
                            assert forall|j: int| 0 <= j < types.len() implies is_null_name(
                                #[trigger] types[j],
                            ) == is_null_name(after[j]) by {
                                assert(after[j] == stripped(types[j]));
                                lemma_stripped_names(types[j]);
                            }
                            lemma_same_sole_type(types, after, i);
                            assert(is_sole_type(types, i));
                            lemma_stripped_names(types[i]);
                        }
                    }
                }
            }
        },
        JsonView::Array(a) => {
            let r = stripped(v)->Array_0;
            assert forall|i: int| 0 <= i < r.len() implies types_are_flat(#[trigger] r[i]) by {
                lemma_stripped_is_flat(a[i]);
            }
        },
        _ => {},
    }
}

proof fn lemma_normalized_is_normal(v: JsonView)
    requires
        types_are_flat(v),
    ensures
        is_normal(normalized(v)),
    decreases v, 0nat,
{
    match v {
        JsonView::Object(m) => {
            let r = normalized(v)->Object_0;
            assert forall|k: Seq<char>| #[trigger] r.contains_key(k) implies is_normal(r[k]) && (k
                == "type"@ ==> !lists_one_type(r[k])) by {
                assert(m.contains_key(k));
                assert(r[k] == normalized_member(k, m[k]));
                lemma_normalized_member_is_normal(k, m[k]);
            }
        },
        JsonView::Array(a) => {
            let r = normalized(v)->Array_0;
            assert forall|i: int| 0 <= i < r.len() implies is_normal(#[trigger] r[i]) by {
                lemma_normalized_is_normal(a[i]);
            }
        },
        _ => {},
    }
}

proof fn lemma_normalized_member_is_normal(key: Seq<char>, v: JsonView)
    requires
        types_are_flat(v),
        key == "type"@ ==> is_flat_list(v),
    ensures
        is_normal(normalized_member(key, v)),
        key == "type"@ ==> !lists_one_type(normalized_member(key, v)),
    decreases v, 1nat,
{
    lemma_normalized_is_normal(v);
    lemma_normalized_names(v);
    if let JsonView::Array(types) = v {
        if let Some(i) = sole_type(types) {
            assert(is_sole_type(types, i));
            lemma_normalized_is_normal(types[i]);
            lemma_normalized_names(types[i]);
        }
    }
}

proof fn lemma_strict_is_kept(v: JsonView)
    requires
        is_strict(v),
    ensures
        stripped(v) == v,
    decreases v,
{
    match v {
        JsonView::Object(m) => {
            let r = stripped(v)->Object_0;
            assert forall|k: Seq<char>| #[trigger] m.contains_key(k) implies r.contains_key(k)
                && r[k] == m[k] by {
                lemma_strict_is_kept(m[k]);
            }
            assert(r =~= m);
        },
        JsonView::Array(a) => {
            let r = stripped(v)->Array_0;
            assert forall|i: int| 0 <= i < a.len() implies r[i] == #[trigger] a[i] by {
                lemma_strict_is_kept(a[i]);
            }
            assert(r =~= a);
        },
        _ => {},
    }
}

proof fn lemma_normal_is_kept(v: JsonView)
    requires
        is_normal(v),
    ensures
        normalized(v) == v,
    decreases v,
{
    match v {
        JsonView::Object(m) => {
            let r = normalized(v)->Object_0;
            assert forall|k: Seq<char>| #[trigger] m.contains_key(k) implies r.contains_key(k)
                && r[k] == m[k] by {
                lemma_normal_is_kept(m[k]);
                assert(r[k] == normalized_member(k, m[k]));
                assert(normalized_member(k, m[k]) == normalized(m[k]));
            }
            assert(r =~= m);
        },
        JsonView::Array(a) => {
            let r = normalized(v)->Array_0;
            assert forall|i: int| 0 <= i < a.len() implies r[i] == #[trigger] a[i] by {
                lemma_normal_is_kept(a[i]);
            }
            assert(r =~= a);
        },
        _ => {},
    }
}

/// A sanitized schema holds no `type` that lists one type beside `"null"`, and
/// sanitizing it again changes nothing. A `type` whose one type is such a list
/// itself loses one list at a time.
pub proof fn sanitizing_twice_is_sanitizing_once(v: JsonView)
    requires
        types_are_flat(v),
    ensures
        is_normal(sanitized(v)),
        sanitized(sanitized(v)) == sanitized(v),
{
    let root = if describes_object(v) {
        v
    } else {
        wrapped(v)
    };
    assert(types_are_flat(root)) by {
        if !describes_object(v) {
            let m = root->Object_0;
            let properties = Map::<Seq<char>, JsonView>::empty().insert("value"@, v);
            let required = seq![JsonView::String("value"@)];
            assert(types_are_flat(JsonView::String("object"@)));
            assert("value"@ != "type"@ && "type"@ != "properties"@ && "type"@ != "required"@) by {
                reveal_strlit("type");
                reveal_strlit("value");
                reveal_strlit("properties");
                reveal_strlit("required");
                assert("type"@.len() == 4);
                assert("value"@.len() == 5);
            }
            assert forall|k: Seq<char>| #[trigger] properties.contains_key(k) implies types_are_flat(
                properties[k],
            ) && (k == "type"@ ==> is_flat_list(properties[k])) by {
                assert(k == "value"@);
            }
            assert(types_are_flat(JsonView::Object(properties)));
            assert forall|i: int| 0 <= i < required.len() implies types_are_flat(
                #[trigger] required[i],
            ) by {
                assert(required[i] == JsonView::String("value"@));
            }
            assert(types_are_flat(JsonView::Array(required)));
            assert forall|k: Seq<char>| #[trigger] m.contains_key(k) implies types_are_flat(m[k])
                && (k == "type"@ ==> is_flat_list(m[k])) by {
                assert(k == "type"@ || k == "properties"@ || k == "required"@);
            }
        }
    }
    lemma_stripped_is_flat(root);
    lemma_normalized_is_normal(stripped(root));
    sanitized_schemas_are_strict_objects(v);
    lemma_strict_is_kept(sanitized(v));
    lemma_normal_is_kept(sanitized(v));
}

// ---------------------------------------------------------------------------
// Executable
// ---------------------------------------------------------------------------

fn strip_additional_properties(val: JsonValue) -> (r: JsonValue)
    ensures
        r@ == stripped(val@),
    decreases val,
{
    match val {
        JsonValue::Object(o) => {
            let mut out = JsonObject::new();
            assert(JsonView::Object(out@) == stripped(JsonView::Object(o.prefix_map(0)))) by {
                assert(out@ =~= stripped(JsonView::Object(o.prefix_map(0)))->Object_0);
            }
            for entry in it: o.entries
                invariant
                    val is Object && o == val->Object_0,
                    it.seq() == o.entries@,
                    JsonView::Object(out@) == stripped(
                        JsonView::Object(o.prefix_map(it.index() as nat)),
                    ),
            {
                let ghost n = it.index() as nat;
                assert(entry == o.entries[n as int]);
                if !str_eq(entry.0.as_str(), "additionalProperties") {
                    let ghost before = out;
                    let value = strip_additional_properties(entry.1);
                    out.entries.push((entry.0, value));
                    proof {
                        lemma_prefix_map_push(before, out, before.entries@.len());
                    }
                }
                assert(out@ =~= stripped(JsonView::Object(o.prefix_map(n + 1)))->Object_0);
            }
            assert(o@ == o.prefix_map(o.entries@.len()));
            JsonValue::Object(out)
        },
        JsonValue::Array(items) => {
            let mut out: Vec<JsonValue> = Vec::new();
            for item in it: items
                invariant
                    val is Array && items == val->Array_0,
                    it.seq() == items@,
                    out@.len() == it.index(),
                    forall|j: int| 0 <= j < out@.len() ==> out@[j]@ == stripped(items@[j]@),
            {
                assert(item == items[it.index() as int]);
                let value = strip_additional_properties(item);
                out.push(value);
            }
            let r = JsonValue::Array(out);
            assert(r@->Array_0 =~= stripped(val@)->Array_0);
            r
        },
        other => other,
    }
}

/// Where the only type that is not `"null"` stands in a list.
fn find_sole_type(types: &Vec<JsonValue>) -> (r: Option<usize>)
    ensures
        ({
            let list = JsonValue::Array(*types)@->Array_0;
            match r {
                Some(i) => i < types@.len() && sole_type(list) == Some(i as int),
                None => sole_type(list) is None,
            }
        }),
{
    let ghost list = JsonValue::Array(*types)@->Array_0;
    let mut found: Option<usize> = None;
    for i in 0..types.len()
        invariant
            list == JsonValue::Array(*types)@->Array_0,
            match found {
                Some(k) => {
                    &&& k < i
                    &&& !is_null_name(list[k as int])
                    &&& forall|j: int| 0 <= j < i && j != k ==> is_null_name(#[trigger] list[j])
                },
                None => forall|j: int| 0 <= j < i ==> is_null_name(#[trigger] list[j]),
            },
    {
        assert(list[i as int] == types@[i as int]@);
        let is_null = match types[i].as_str() {
            Some(s) => str_eq(s, "null"),
            None => false,
        };
        if !is_null {
            match found {
                Some(k) => {
                    assert forall|j: int| !is_sole_type(list, j) by {
                        if j == k {
                            assert(!is_null_name(list[i as int]));
                        } else {
                            assert(!is_null_name(list[k as int]));
                        }
                    }
                    return None;
                },
                None => {
                    found = Some(i);
                },
            }
        }
    }
    proof {
        match found {
            Some(k) => {
                assert(is_sole_type(list, k as int));
                let c = choose|i: int| is_sole_type(list, i);
                assert(is_sole_type(list, c));
                assert(c == k) by {
                    if c != k {
                        assert(is_null_name(list[c]));
                    }
                }
            },
            None => {
                assert forall|j: int| !is_sole_type(list, j) by {
                    if 0 <= j < list.len() {
                        assert(is_null_name(list[j]));
                    }
                }
            },
        }
    }
    found
}

fn normalize_array_types(val: JsonValue) -> (r: JsonValue)
    ensures
        r@ == normalized(val@),
    decreases val, 0nat,
{
    match val {
        JsonValue::Object(o) => {
            let mut out = JsonObject::new();
            assert(out@ =~= normalized(JsonView::Object(o.prefix_map(0)))->Object_0);
            for entry in it: o.entries
                invariant
                    val is Object && o == val->Object_0,
                    it.seq() == o.entries@,
                    JsonView::Object(out@) == normalized(
                        JsonView::Object(o.prefix_map(it.index() as nat)),
                    ),
            {
                let ghost n = it.index() as nat;
                assert(entry == o.entries[n as int]);
                let ghost before = out;
                let value = normalize_member(entry.0.as_str(), entry.1);
                out.entries.push((entry.0, value));
                proof {
                    lemma_prefix_map_push(before, out, before.entries@.len());
                }
                assert(out@ =~= normalized(JsonView::Object(o.prefix_map(n + 1)))->Object_0);
            }
            assert(o@ == o.prefix_map(o.entries@.len()));
            JsonValue::Object(out)
        },
        JsonValue::Array(items) => {
            let mut out: Vec<JsonValue> = Vec::new();
            for item in it: items
                invariant
                    val is Array && items == val->Array_0,
                    it.seq() == items@,
                    out@.len() == it.index(),
                    forall|j: int| 0 <= j < out@.len() ==> out@[j]@ == normalized(items@[j]@),
            {
                assert(item == items[it.index() as int]);
                let value = normalize_array_types(item);
                out.push(value);
            }
            let r = JsonValue::Array(out);
            assert(r@->Array_0 =~= normalized(val@)->Array_0);
            r
        },
        other => other,
    }
}

/// One member of an object, with its list of types made one type where it is
/// the member `type` and that can be done.
fn normalize_member(key: &str, val: JsonValue) -> (r: JsonValue)
    ensures
        r@ == normalized_member(key@, val@),
    decreases val, 1nat,
{
    if !str_eq(key, "type") {
        return normalize_array_types(val);
    }
    match val {
        JsonValue::Array(types) => match find_sole_type(&types) {
            Some(i) => {
                assert(val@->Array_0[i as int] == types@[i as int]@);
                assert(decreases_to!(val->Array_0 => types[i as int]));
                let mut types = types;
                let sole = types.swap_remove(i);
                normalize_array_types(sole)
            },
            None => normalize_array_types(JsonValue::Array(types)),
        },
        other => normalize_array_types(other),
    }
}

/// Sanitize a JSON Schema for strict providers (e.g., Bedrock).
/// - Root type must be "object" (wrap if not)
/// - Recursively remove "additionalProperties"
/// - Normalize array types: ["string", "null"] → "string"
pub fn sanitize_json_schema(schema: &JsonValue) -> (r: JsonValue)
    ensures
        r@ == sanitized(schema@),
{
    let is_object = match schema.get("type") {
        Some(t) => match t.as_str() {
            Some(s) => str_eq(s, "object"),
            None => false,
        },
        None => false,
    };
    let root = if is_object {
        schema.clone()
    } else {
        let mut required: Vec<JsonValue> = Vec::new();
        required.push(JsonValue::string("value"));
        let required = JsonValue::Array(required);
        assert(required@->Array_0 =~= seq![JsonView::String("value"@)]);
        JsonValue::Object(
            JsonObject::new().with("type", JsonValue::string("object")).with(
                "properties",
                JsonValue::Object(JsonObject::new().with("value", schema.clone())),
            ).with("required", required),
        )
    };
    normalize_array_types(strip_additional_properties(root))
}

} // verus!
