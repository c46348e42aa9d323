//! Laws of sanitized schemas: what is left out, what is unfolded, and that everything
//! else stays.

use vstd::prelude::*;

use crate::json::JsonView;
use crate::schema::{
    is_null_name, is_sole_type, normalized, normalized_member, sanitized, sole_type, stripped,
    wrapped,
};

verus! {

broadcast use vstd::string::group_string_axioms;

/// The value names the type of nothing.
pub open spec fn names_null(v: JsonView) -> bool {
    v is String && v->String_0 == "null"@
}

/// The list names one type, at `i`, and besides it only that of nothing.
pub open spec fn names_one_type(types: Seq<JsonView>, i: int) -> bool {
    &&& 0 <= i < types.len()
    &&& !names_null(types[i])
    &&& forall|j: int| 0 <= j < types.len() && j != i ==> names_null(#[trigger] types[j])
}

/// The second value is the first without the members named `additionalProperties`, at
/// any depth, and with the one type in place of each list of types that names just
/// one besides that of nothing.
pub open spec fn is_cleaned(v: JsonView, w: JsonView) -> bool
    decreases v,
{
    match v {
        JsonView::Object(m) => {
            &&& w is Object
            &&& forall|k: Seq<char>| #[trigger]
                w->Object_0.contains_key(k) <==> m.contains_key(k) && k
                    != "additionalProperties"@
            &&& forall|k: Seq<char>| #[trigger]
                m.contains_key(k) && k != "additionalProperties"@ ==> is_cleaned_member(
                    k,
                    m[k],
                    w->Object_0[k],
                )
        },
        JsonView::Array(a) => {
            &&& w is Array
            &&& w->Array_0.len() == a.len()
            &&& forall|i: int| 0 <= i < a.len() ==> is_cleaned(#[trigger] a[i], w->Array_0[i])
        },
        _ => w == v,
    }
}

/// The same for a member of an object.
pub open spec fn is_cleaned_member(k: Seq<char>, v: JsonView, w: JsonView) -> bool
    decreases v,
{
    if k == "type"@ && v is Array && exists|i: int| names_one_type(v->Array_0, i) {
        exists|i: int| #[trigger]
            names_one_type(v->Array_0, i) && 0 <= i < v->Array_0.len() && is_cleaned(
                v->Array_0[i],
                w,
            )
    } else {
        match v {
            JsonView::Object(m) => {
                &&& w is Object
                &&& forall|j: Seq<char>| #[trigger]
                    w->Object_0.contains_key(j) <==> m.contains_key(j) && j
                        != "additionalProperties"@
                &&& forall|j: Seq<char>| #[trigger]
                    m.contains_key(j) && j != "additionalProperties"@ ==> is_cleaned_member(
                        j,
                        m[j],
                        w->Object_0[j],
                    )
            },
            JsonView::Array(a) => {
                &&& w is Array
                &&& w->Array_0.len() == a.len()
                &&& forall|i: int| 0 <= i < a.len() ==> is_cleaned(#[trigger] a[i], w->Array_0[i])
            },
            _ => w == v,
        }
    }
}

proof fn lemma_names(a: Seq<JsonView>, i: int)
    ensures
        ({
            let b = stripped(JsonView::Array(a))->Array_0;
            is_sole_type(b, i) == names_one_type(a, i)
        }),
{
    let b = stripped(JsonView::Array(a))->Array_0;
    assert forall|j: int| 0 <= j < a.len() implies is_null_name(#[trigger] b[j])
        == names_null(a[j]) by {
        assert(b[j] == stripped(a[j]));
        match a[j] {
            JsonView::Object(_) => {},
            JsonView::Array(_) => {},
            _ => {},
        }
    }
    if is_sole_type(b, i) {
        assert forall|j: int| 0 <= j < a.len() && j != i implies names_null(#[trigger] a[j]) by {
            assert(is_null_name(b[j]));
        }
    }
}

proof fn lemma_cleaned(v: JsonView)
    ensures
        is_cleaned(v, normalized(stripped(v))),
    decreases v, 0nat,
{
    match v {
        JsonView::Object(m) => {
            let s = stripped(v)->Object_0;
            let w = normalized(stripped(v))->Object_0;
            assert forall|k: Seq<char>| #[trigger]
                m.contains_key(k) && k != "additionalProperties"@ implies is_cleaned_member(
                k,
                m[k],
                w[k],
            ) by {
                assert(s.contains_key(k) && s[k] == stripped(m[k]));
                assert(w[k] == normalized_member(k, s[k]));
                lemma_cleaned_member(k, m[k]);
            }
        },
        JsonView::Array(a) => {
            let s = stripped(v)->Array_0;
            let w = normalized(stripped(v))->Array_0;
            assert forall|i: int| 0 <= i < a.len() implies is_cleaned(#[trigger] a[i], w[i]) by {
                assert(s[i] == stripped(a[i]));
                assert(w[i] == normalized(s[i]));
                lemma_cleaned(a[i]);
            }
        },
        _ => {},
    }
}

proof fn lemma_cleaned_member(k: Seq<char>, v: JsonView)
    ensures
        is_cleaned_member(k, v, normalized_member(k, stripped(v))),
    decreases v, 1nat,
{
    lemma_cleaned(v);
    if let JsonView::Array(types) = v {
        let s = stripped(v)->Array_0;
        assert forall|i: int| is_sole_type(s, i) == #[trigger] names_one_type(types, i) by {
            lemma_names(types, i);
        }
        if k == "type"@ && exists|i: int| names_one_type(types, i) {
            let i = choose|i: int| names_one_type(types, i);
            lemma_names(types, i);
            assert(is_sole_type(s, i));
            let found = sole_type(s).unwrap();
            assert(is_sole_type(s, found));
            lemma_names(types, found);
            assert(names_one_type(types, found));
            assert(s[found] == stripped(types[found]));
            lemma_cleaned(types[found]);
            assert(normalized_member(k, stripped(v)) == normalized(s[found]));
        } else {
            if let Some(i) = sole_type(s) {
                assert(is_sole_type(s, i));
                lemma_names(types, i);
                assert(names_one_type(types, i));
            }
            assert(normalized_member(k, stripped(v)) == normalized(stripped(v)));
        }
    } else {
        assert(normalized_member(k, stripped(v)) == normalized(stripped(v)));
    }
}

/// A schema that describes an object goes out cleaned and otherwise as it is; any
/// other becomes the one member of an object that requires it.
pub proof fn schemas_are_cleaned_and_otherwise_kept(m: Map<Seq<char>, JsonView>, v: JsonView)
    ensures
        m.contains_key("type"@) && m["type"@] == JsonView::String("object"@) ==> is_cleaned(
            JsonView::Object(m),
            sanitized(JsonView::Object(m)),
        ),
        !(m.contains_key("type"@) && m["type"@] == JsonView::String("object"@)) ==> is_cleaned(
            wrapped(JsonView::Object(m)),
            sanitized(JsonView::Object(m)),
        ),
        !(v is Object) ==> is_cleaned(wrapped(v), sanitized(v)),
        ({
            let w = wrapped(v)->Object_0;
            &&& w.contains_key("type"@) && w["type"@] == JsonView::String("object"@)
            &&& w.contains_key("properties"@) && w["properties"@] is Object
            &&& w["properties"@]->Object_0.contains_key("value"@)
                && w["properties"@]->Object_0["value"@] == v
            &&& forall|k: Seq<char>| #[trigger]
                w["properties"@]->Object_0.contains_key(k) ==> k == "value"@
            &&& w.contains_key("required"@) && w["required"@] == JsonView::Array(
                seq![JsonView::String("value"@)],
            )
        }),
{
    lemma_cleaned(JsonView::Object(m));
    lemma_cleaned(wrapped(JsonView::Object(m)));
    lemma_cleaned(wrapped(v));
    reveal_strlit("type");
    reveal_strlit("properties");
    reveal_strlit("required");
    assert("type"@.len() == 4 && "properties"@.len() == 10 && "required"@.len() == 8);
}

} // verus!
