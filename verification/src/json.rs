//! JSON values as plain data, with `serde_json` behind the text form.

use vstd::prelude::*;

use crate::text::{copy_text, str_eq};

verus! {

broadcast use vstd::string::group_string_axioms;

// ---------------------------------------------------------------------------
// Model
// ---------------------------------------------------------------------------

/// What is known of a JSON number: an integer that fits in `u64`, or one of the
/// remaining numbers, told apart by an integer tag.
pub enum NumberView {
    Unsigned(u64),
    Other(int),
}

/// A JSON value as mathematics.
#[verifier::ext_equal]
pub enum JsonView {
    Null,
    Bool(bool),
    Number(NumberView),
    String(Seq<char>),
    Array(Seq<JsonView>),
    Object(Map<Seq<char>, JsonView>),
}

impl JsonView {
    /// The member `key` of an object; `None` elsewhere.
    pub open spec fn get(self, key: Seq<char>) -> Option<JsonView> {
        match self {
            JsonView::Object(m) => if m.contains_key(key) {
                Some(m[key])
            } else {
                None
            },
            _ => None,
        }
    }

    pub open spec fn as_str(self) -> Option<Seq<char>> {
        match self {
            JsonView::String(s) => Some(s),
            _ => None,
        }
    }

    pub open spec fn as_u64(self) -> Option<u64> {
        match self {
            JsonView::Number(NumberView::Unsigned(n)) => Some(n),
            _ => None,
        }
    }

    pub open spec fn as_array(self) -> Option<Seq<JsonView>> {
        match self {
            JsonView::Array(a) => Some(a),
            _ => None,
        }
    }
}

// ---------------------------------------------------------------------------
// Executable values
// ---------------------------------------------------------------------------

/// A JSON value.
#[derive(Debug)]
pub enum JsonValue {
    Null,
    Bool(bool),
    Number(serde_json::Number),
    String(String),
    Array(Vec<JsonValue>),
    Object(JsonObject),
}

/// The members of a JSON object. Of two entries with one key the later counts.
#[derive(Debug)]
pub struct JsonObject {
    pub entries: Vec<(String, JsonValue)>,
}

impl JsonObject {
    /// The map that the first `n` entries make.
    pub open spec fn prefix_map(&self, n: nat) -> Map<Seq<char>, JsonView>
        decreases self, n,
    {
        if n == 0 || n > self.entries@.len() {
            Map::empty()
        } else {
            self.prefix_map((n - 1) as nat).insert(
                self.entries@[n - 1].0@,
                self.entries@[n - 1].1.view(),
            )
        }
    }

    pub open spec fn view(&self) -> Map<Seq<char>, JsonView>
        decreases self, self.entries@.len() + 1,
    {
        self.prefix_map(self.entries@.len())
    }
}

impl JsonValue {
    pub open spec fn view(&self) -> JsonView
        decreases self, 0nat,
    {
        match self {
            JsonValue::Null => JsonView::Null,
            JsonValue::Bool(b) => JsonView::Bool(*b),
            JsonValue::Number(n) => JsonView::Number(number_of(*n)),
            JsonValue::String(s) => JsonView::String(s@),
            JsonValue::Array(items) => JsonView::Array(
                Seq::new(
                    items@.len(),
                    |i: int|
                        if 0 <= i < items@.len() {
                            items@[i].view()
                        } else {
                            JsonView::Null
                        },
                ),
            ),
            JsonValue::Object(o) => JsonView::Object(o.view()),
        }
    }
}

/// The values of some JSON values.
pub open spec fn json_views(values: Seq<JsonValue>) -> Seq<JsonView> {
    Seq::new(values.len(), |i: int| values[i]@)
}

// ---------------------------------------------------------------------------
// serde_json
// ---------------------------------------------------------------------------

/// `serde_json::Number`: a number as a JSON text has it.
#[verifier::external_type_specification]
#[verifier::external_body]
pub struct ExJsonNumber(serde_json::Number);

/// `serde_json::Value`: any JSON value.
#[verifier::external_type_specification]
#[verifier::external_body]
pub struct ExJsonTree(serde_json::Value);

/// `serde_json::Error`: why a text is no JSON.
#[verifier::external_type_specification]
#[verifier::external_body]
pub struct ExJsonError(serde_json::Error);

/// What a `serde_json::Number` holds.
pub uninterp spec fn number_of(n: serde_json::Number) -> NumberView;

/// What a `serde_json::Value` holds.
pub uninterp spec fn tree_of(v: serde_json::Value) -> JsonView;

/// The value that `serde_json::from_str` reads from a text, `None` where it
/// reports an error.
pub uninterp spec fn json_parse(text: Seq<char>) -> Option<JsonView>;

/// The compact text that `serde_json` prints for a value.
pub uninterp spec fn json_text(value: JsonView) -> Seq<char>;

/// `serde_json::Number::as_u64`: the number when it is an integer in `u64`.
pub assume_specification[ serde_json::Number::as_u64 ](n: &serde_json::Number) -> (r: Option<u64>)
    ensures
        r == (match number_of(*n) {
            NumberView::Unsigned(v) => Some(v),
            NumberView::Other(_) => None,
        }),
;

/// `serde_json::Number`'s clone holds the same number.
pub assume_specification[ <serde_json::Number as Clone>::clone ](n: &serde_json::Number) -> (r:
    serde_json::Number)
    ensures
        number_of(r) == number_of(*n),
;

/// `serde_json::Number::from` on a `u64`: that number.
#[verifier::external_body]
fn number_from(n: u64) -> (r: serde_json::Number)
    ensures
        number_of(r) == NumberView::Unsigned(n),
{
    serde_json::Number::from(n)
}

/// One level of a `serde_json::Value`.
pub enum JsonNode {
    Null,
    Bool(bool),
    Number(serde_json::Number),
    String(String),
    Array(Vec<serde_json::Value>),
    Object(Vec<(String, serde_json::Value)>),
}

/// The map that the first `n` of some entries make, the later entry counting.
pub open spec fn tree_map(entries: Seq<(String, serde_json::Value)>, n: nat) -> Map<
    Seq<char>,
    JsonView,
>
    decreases n,
{
    if n == 0 || n > entries.len() {
        Map::empty()
    } else {
        tree_map(entries, (n - 1) as nat).insert(entries[n - 1].0@, tree_of(entries[n - 1].1))
    }
}

/// No key occurs twice.
pub open spec fn distinct_keys<V>(entries: Seq<(String, V)>) -> bool {
    forall|i: int, j: int|
        0 <= i < j < entries.len() ==> (#[trigger] entries[i]).0@ != (#[trigger] entries[j]).0@
}

impl JsonNode {
    /// The value whose top level this is.
    pub open spec fn view(&self) -> JsonView {
        match self {
            JsonNode::Null => JsonView::Null,
            JsonNode::Bool(b) => JsonView::Bool(*b),
            JsonNode::Number(n) => JsonView::Number(number_of(*n)),
            JsonNode::String(s) => JsonView::String(s@),
            JsonNode::Array(items) => JsonView::Array(
                Seq::new(items@.len(), |i: int| tree_of(items@[i])),
            ),
            JsonNode::Object(entries) => JsonView::Object(tree_map(entries@, entries@.len())),
        }
    }
}

/// Takes a `serde_json::Value` apart by its variant. The members of an object
/// come as pairs, in the order in which `serde_json::Map` hands them out.
#[verifier::external_body]
fn open_tree(v: serde_json::Value) -> (node: JsonNode)
    ensures
        node.view() == tree_of(v),
        node matches JsonNode::Object(entries) ==> distinct_keys(entries@),
{
    match v {
        serde_json::Value::Null => JsonNode::Null,
        serde_json::Value::Bool(b) => JsonNode::Bool(b),
        serde_json::Value::Number(n) => JsonNode::Number(n),
        serde_json::Value::String(s) => JsonNode::String(s),
        serde_json::Value::Array(items) => JsonNode::Array(items),
        serde_json::Value::Object(map) => JsonNode::Object(map.into_iter().collect()),
    }
}

/// Builds a `serde_json::Value` variant by variant. `serde_json::Map` is
/// collected from the pairs, no two of which have one key.
#[verifier::external_body]
fn close_tree(node: JsonNode) -> (v: serde_json::Value)
    requires
        node matches JsonNode::Object(entries) ==> distinct_keys(entries@),
    ensures
        tree_of(v) == node.view(),
{
    match node {
        JsonNode::Null => serde_json::Value::Null,
        JsonNode::Bool(b) => serde_json::Value::Bool(b),
        JsonNode::Number(n) => serde_json::Value::Number(n),
        JsonNode::String(s) => serde_json::Value::String(s),
        JsonNode::Array(items) => serde_json::Value::Array(items),
        JsonNode::Object(entries) => serde_json::Value::Object(entries.into_iter().collect()),
    }
}

/// `serde_json::from_str` into a `serde_json::Value`; its outcome depends on the
/// text alone.
#[verifier::external_body]
fn parse_tree(text: &str) -> (r: Result<serde_json::Value, serde_json::Error>)
    ensures
        match r {
            Ok(v) => json_parse(text@) == Some(tree_of(v)),
            Err(_) => json_parse(text@) is None,
        },
{
    serde_json::from_str(text)
}

/// The `Display` form of a `serde_json::Value`, which is its compact text and
/// depends on what the value holds alone.
#[verifier::external_body]
fn print_tree(v: &serde_json::Value) -> (text: String)
    ensures
        text@ == json_text(tree_of(*v)),
{
    format!("{v}")
}

proof fn lemma_tree_map_members(entries: Seq<(String, serde_json::Value)>, n: nat)
    requires
        n <= entries.len(),
        distinct_keys(entries),
    ensures
        tree_map(entries, n).dom().finite(),
        forall|i: int|
            0 <= i < n ==> {
                &&& tree_map(entries, n).contains_key((#[trigger] entries[i]).0@)
                &&& tree_map(entries, n)[entries[i].0@] == tree_of(entries[i].1)
            },
    decreases n,
{
    if n > 0 {
        lemma_tree_map_members(entries, (n - 1) as nat);
    }
}

pub proof fn lemma_prefix_map_push(before: JsonObject, after: JsonObject, n: nat)
    requires
        n <= before.entries@.len(),
        n <= after.entries@.len(),
        forall|i: int| 0 <= i < n ==> before.entries@[i] == after.entries@[i],
    ensures
        before.prefix_map(n) == after.prefix_map(n),
    decreases n,
{
    if n > 0 {
        lemma_prefix_map_push(before, after, (n - 1) as nat);
    }
}

/// The value that a `serde_json::Value` holds.
fn from_tree(v: serde_json::Value) -> (r: JsonValue)
    ensures
        r@ == tree_of(v),
    decreases tree_of(v),
{
    let node = open_tree(v);
    match node {
        JsonNode::Null => JsonValue::Null,
        JsonNode::Bool(b) => JsonValue::Bool(b),
        JsonNode::Number(n) => JsonValue::Number(n),
        JsonNode::String(s) => JsonValue::String(s),
        JsonNode::Array(items) => {
            let mut out: Vec<JsonValue> = Vec::new();
            for item in it: items
                invariant
                    out@.len() == it.index(),
                    it.seq() == items@,
                    tree_of(v) == JsonView::Array(
                        Seq::new(items@.len(), |i: int| tree_of(items@[i])),
                    ),
                    forall|i: int| 0 <= i < out@.len() ==> out@[i]@ == tree_of(items@[i]),
            {
                assert(tree_of(v)->Array_0[it.index() as int] == tree_of(item));
                out.push(from_tree(item));
            }
            let r = JsonValue::Array(out);
            assert(r@->Array_0 =~= tree_of(v)->Array_0);
            r
        },
        JsonNode::Object(entries) => {
            let mut o = JsonObject { entries: Vec::new() };
            for entry in it: entries
                invariant
                    o.entries@.len() == it.index(),
                    it.seq() == entries@,
                    distinct_keys(entries@),
                    tree_of(v) == JsonView::Object(tree_map(entries@, entries@.len())),
                    o@ == tree_map(entries@, it.index() as nat),
            {
                proof {
                    lemma_tree_map_members(entries@, entries@.len());
                }
                assert(entries@[it.index() as int] == entry);
                let ghost members = tree_of(v)->Object_0;
                assert(members.dom().contains(entry.0@));
                assert(decreases_to!(members => members[entry.0@]));
                let ghost before = o;
                let value = from_tree(entry.1);
                o.entries.push((entry.0, value));
                proof {
                    lemma_prefix_map_push(before, o, before.entries@.len());
                }
            }
            JsonValue::Object(o)
        },
    }
}

/// A `serde_json::Value` that holds the same value.
fn to_tree(v: &JsonValue) -> (r: serde_json::Value)
    ensures
        tree_of(r) == v@,
    decreases v,
{
    match v {
        JsonValue::Null => close_tree(JsonNode::Null),
        JsonValue::Bool(b) => close_tree(JsonNode::Bool(*b)),
        JsonValue::Number(n) => close_tree(JsonNode::Number(n.clone())),
        JsonValue::String(s) => close_tree(JsonNode::String(s.clone())),
        JsonValue::Array(items) => {
            let mut out: Vec<serde_json::Value> = Vec::new();
            for i in 0..items.len()
                invariant
                    v is Array && *items == v->Array_0,
                    out@.len() == i,
                    forall|j: int| 0 <= j < i ==> tree_of(out@[j]) == items@[j]@,
            {
                out.push(to_tree(&items[i]));
            }
            let node = JsonNode::Array(out);
            assert(node.view()->Array_0 =~= v@->Array_0);
            close_tree(node)
        },
        JsonValue::Object(o) => {
            let mut out: Vec<(String, serde_json::Value)> = Vec::new();
            for i in 0..o.entries.len()
                invariant
                    v is Object && *o == v->Object_0,
                    distinct_keys(out@),
                    tree_map(out@, out@.len()) == o.prefix_map(i as nat),
            {
                let value = to_tree(&o.entries[i].1);
                put_tree(&mut out, &o.entries[i].0, value);
            }
            assert(o@ == o.prefix_map(o.entries@.len()));
            close_tree(JsonNode::Object(out))
        },
    }
}

/// Adds a member, or replaces the one with that key.
fn put_tree(entries: &mut Vec<(String, serde_json::Value)>, key: &String, value: serde_json::Value)
    requires
        distinct_keys(old(entries)@),
    ensures
        distinct_keys(final(entries)@),
        tree_map(final(entries)@, final(entries)@.len()) == tree_map(
            old(entries)@,
            old(entries)@.len(),
        ).insert(key@, tree_of(value)),
{
    let ghost before = entries@;
    let n: usize = entries.len();
    for i in 0..n
        invariant
            n == entries@.len(),
            entries@ == before,
            before == old(entries)@,
            distinct_keys(before),
            forall|j: int| 0 <= j < i ==> (#[trigger] before[j]).0@ != key@,
    {
        if entries[i].0 == *key {
            entries.set(i, (key.clone(), value));
            proof {
                assert forall|j: int, k: int| 0 <= j < k < entries@.len() implies (
                #[trigger] entries@[j]).0@ != (#[trigger] entries@[k]).0@ by {
                    assert(before[j].0@ != before[k].0@);
                }
                lemma_tree_map_replaced(before, entries@, i as int, before.len());
            }
            return;
        }
    }
    entries.push((key.clone(), value));
    proof {
        assert forall|j: int, k: int| 0 <= j < k < entries@.len() implies (
        #[trigger] entries@[j]).0@ != (#[trigger] entries@[k]).0@ by {
            assert(entries@[j] == before[j]);
            if k < before.len() {
                assert(before[j].0@ != before[k].0@);
            }
        }
        lemma_tree_map_prefix(before, entries@, before.len());
    }
}

proof fn lemma_tree_map_replaced(
    a: Seq<(String, serde_json::Value)>,
    b: Seq<(String, serde_json::Value)>,
    i: int,
    n: nat,
)
    requires
        distinct_keys(a),
        0 <= i < a.len(),
        a.len() == b.len(),
        forall|j: int| 0 <= j < a.len() && j != i ==> a[j] == b[j],
        a[i].0@ == b[i].0@,
        n <= a.len(),
    ensures
        n <= i ==> tree_map(b, n) == tree_map(a, n),
        n > i ==> tree_map(b, n) == tree_map(a, n).insert(a[i].0@, tree_of(b[i].1)),
    decreases n,
{
    if n > 0 {
        lemma_tree_map_replaced(a, b, i, (n - 1) as nat);
        if n - 1 > i {
            assert(a[i].0@ != a[n - 1].0@);
            assert(tree_map(b, n) =~= tree_map(a, n).insert(a[i].0@, tree_of(b[i].1)));
        } else if n - 1 == i {
            assert(tree_map(b, n) =~= tree_map(a, n).insert(a[i].0@, tree_of(b[i].1)));
        }
    }
}

proof fn lemma_tree_map_prefix(
    a: Seq<(String, serde_json::Value)>,
    b: Seq<(String, serde_json::Value)>,
    n: nat,
)
    requires
        n <= a.len(),
        n <= b.len(),
        forall|i: int| 0 <= i < n ==> a[i] == b[i],
    ensures
        tree_map(a, n) == tree_map(b, n),
    decreases n,
{
    if n > 0 {
        lemma_tree_map_prefix(a, b, (n - 1) as nat);
    }
}

// ---------------------------------------------------------------------------
// Operations
// ---------------------------------------------------------------------------

impl JsonObject {
    pub fn new() -> (r: JsonObject)
        ensures
            r@ == Map::<Seq<char>, JsonView>::empty(),
    {
        JsonObject { entries: Vec::new() }
    }

    /// The members with one more, or with one of them replaced.
    pub fn with(self, key: &str, value: JsonValue) -> (r: JsonObject)
        ensures
            r@ == self@.insert(key@, value@),
    {
        let mut r = self;
        r.set(key, value);
        r
    }

    /// Where the last entry for a key stands.
    fn position(&self, key: &str) -> (r: Option<usize>)
        ensures
            match r {
                Some(i) => {
                    &&& i < self.entries@.len()
                    &&& self.entries@[i as int].0@ == key@
                    &&& self@.contains_key(key@)
                    &&& self@[key@] == self.entries@[i as int].1@
                    &&& forall|j: int|
                        i < j < self.entries@.len() ==> (#[trigger] self.entries@[j]).0@ != key@
                },
                None => {
                    &&& !self@.contains_key(key@)
                    &&& forall|j: int|
                        0 <= j < self.entries@.len() ==> (#[trigger] self.entries@[j]).0@ != key@
                },
            },
    {
        let mut i: usize = self.entries.len();
        while i > 0
            invariant
                i <= self.entries@.len(),
                forall|j: int|
                    i <= j < self.entries@.len() ==> (#[trigger] self.entries@[j]).0@ != key@,
            decreases i,
        {
            i -= 1;
            if str_eq(self.entries[i].0.as_str(), key) {
                proof {
                    self.lemma_last_entry(key@, i as int, self.entries@.len());
                }
                return Some(i);
            }
        }
        proof {
            self.lemma_no_entry(key@, self.entries@.len());
        }
        None
    }

    proof fn lemma_last_entry(&self, key: Seq<char>, i: int, n: nat)
        requires
            0 <= i < n <= self.entries@.len(),
            self.entries@[i].0@ == key,
            forall|j: int| i < j < n ==> (#[trigger] self.entries@[j]).0@ != key,
        ensures
            self.prefix_map(n).contains_key(key),
            self.prefix_map(n)[key] == self.entries@[i].1@,
        decreases n,
    {
        if i < n - 1 {
            assert(self.entries@[n - 1].0@ != key);
            self.lemma_last_entry(key, i, (n - 1) as nat);
        }
    }

    proof fn lemma_no_entry(&self, key: Seq<char>, n: nat)
        requires
            n <= self.entries@.len(),
            forall|j: int| 0 <= j < n ==> (#[trigger] self.entries@[j]).0@ != key,
        ensures
            !self.prefix_map(n).contains_key(key),
        decreases n,
    {
        if n > 0 {
            assert(self.entries@[n - 1].0@ != key);
            self.lemma_no_entry(key, (n - 1) as nat);
        }
    }

    /// Adds a member, or replaces the one with that key.
    pub fn set(&mut self, key: &str, value: JsonValue)
        ensures
            final(self)@ == old(self)@.insert(key@, value@),
    {
        match self.position(key) {
            Some(i) => {
                let ghost before = *self;
                let name = copy_text(key);
                self.entries.set(i, (name, value));
                proof {
                    lemma_entry_replaced(before, *self, i as int, self.entries@.len());
                }
            },
            None => {
                let ghost before = *self;
                self.entries.push((copy_text(key), value));
                proof {
                    lemma_prefix_map_push(before, *self, before.entries@.len());
                }
            },
        }
    }

    /// The member with a key.
    pub fn get(&self, key: &str) -> (r: Option<&JsonValue>)
        ensures
            match r {
                Some(v) => self@.contains_key(key@) && self@[key@] == v@,
                None => !self@.contains_key(key@),
            },
    {
        match self.position(key) {
            Some(i) => Some(&self.entries[i].1),
            None => None,
        }
    }

    /// The members without the one with a key.
    pub fn without(self, key: &str) -> (r: JsonObject)
        ensures
            r@ == self@.remove(key@),
    {
        let mut out = JsonObject { entries: Vec::new() };
        let ghost src = self;
        assert(out@ =~= src.prefix_map(0).remove(key@));
        for entry in it: self.entries
            invariant
                it.seq() == src.entries@,
                out@ == src.prefix_map(it.index() as nat).remove(key@),
        {
            assert(entry == src.entries@[it.index() as int]);
            if !str_eq(entry.0.as_str(), key) {
                let ghost before = out;
                out.entries.push(entry);
                proof {
                    lemma_prefix_map_push(before, out, before.entries@.len());
                }
            }
            assert(out@ =~= src.prefix_map((it.index() + 1) as nat).remove(key@));
        }
        out
    }
}

proof fn lemma_entry_replaced(before: JsonObject, after: JsonObject, i: int, n: nat)
    requires
        0 <= i < before.entries@.len(),
        after.entries@.len() == before.entries@.len(),
        forall|j: int|
            0 <= j < before.entries@.len() && j != i ==> after.entries@[j] == before.entries@[j],
        after.entries@[i].0@ == before.entries@[i].0@,
        forall|j: int|
            i < j < before.entries@.len() ==> (#[trigger] before.entries@[j]).0@
                != before.entries@[i].0@,
        n <= before.entries@.len(),
    ensures
        n <= i ==> after.prefix_map(n) == before.prefix_map(n),
        n > i ==> after.prefix_map(n) == before.prefix_map(n).insert(
            before.entries@[i].0@,
            after.entries@[i].1@,
        ),
    decreases n,
{
    if n > 0 {
        lemma_entry_replaced(before, after, i, (n - 1) as nat);
        if n - 1 > i {
            assert(before.entries@[n - 1].0@ != before.entries@[i].0@);
            assert(after.prefix_map(n) =~= before.prefix_map(n).insert(
                before.entries@[i].0@,
                after.entries@[i].1@,
            ));
        } else if n - 1 == i {
            assert(after.prefix_map(n) =~= before.prefix_map(n).insert(
                before.entries@[i].0@,
                after.entries@[i].1@,
            ));
        }
    }
}

impl JsonValue {
    /// Reads a JSON text; `None` where it is not one.
    pub fn parse(text: &str) -> (r: Option<JsonValue>)
        ensures
            match r {
                Some(v) => json_parse(text@) == Some(v@),
                None => json_parse(text@) is None,
            },
    {
        match parse_tree(text) {
            Ok(v) => Some(from_tree(v)),
            Err(_) => None,
        }
    }

    /// The compact JSON text.
    pub fn to_text(&self) -> (r: String)
        ensures
            r@ == json_text(self@),
    {
        print_tree(&to_tree(self))
    }

    pub fn string(s: &str) -> (r: JsonValue)
        ensures
            r@ == JsonView::String(s@),
    {
        JsonValue::String(copy_text(s))
    }

    pub fn unsigned(n: u64) -> (r: JsonValue)
        ensures
            r@ == JsonView::Number(NumberView::Unsigned(n)),
    {
        JsonValue::Number(number_from(n))
    }

    /// The values as an array.
    pub fn array(items: Vec<JsonValue>) -> (r: JsonValue)
        ensures
            r@ == JsonView::Array(json_views(items@)),
    {
        let r = JsonValue::Array(items);
        assert(r@->Array_0 =~= json_views(items@));
        r
    }

    pub fn empty_object() -> (r: JsonValue)
        ensures
            r@ == JsonView::Object(Map::empty()),
    {
        JsonValue::Object(JsonObject::new())
    }

    /// The member of an object.
    pub fn get(&self, key: &str) -> (r: Option<&JsonValue>)
        ensures
            match r {
                Some(v) => self@.get(key@) == Some(v@),
                None => self@.get(key@) is None,
            },
    {
        match self {
            JsonValue::Object(o) => o.get(key),
            _ => None,
        }
    }

    pub fn as_str(&self) -> (r: Option<&str>)
        ensures
            match r {
                Some(s) => self@.as_str() == Some(s@),
                None => self@.as_str() is None,
            },
    {
        match self {
            JsonValue::String(s) => Some(s.as_str()),
            _ => None,
        }
    }

    pub fn as_u64(&self) -> (r: Option<u64>)
        ensures
            r == self@.as_u64(),
    {
        match self {
            JsonValue::Number(n) => n.as_u64(),
            _ => None,
        }
    }

    pub fn as_array(&self) -> (r: Option<&Vec<JsonValue>>)
        ensures
            match r {
                Some(a) => *self == JsonValue::Array(*a),
                None => self@.as_array() is None,
            },
    {
        match self {
            JsonValue::Array(a) => Some(a),
            _ => None,
        }
    }

    pub fn is_null(&self) -> (r: bool)
        ensures
            r == (self@ is Null),
    {
        match self {
            JsonValue::Null => true,
            _ => false,
        }
    }
}

/// The member of an optional object.
pub open spec fn at(v: Option<JsonView>, key: Seq<char>) -> Option<JsonView> {
    match v {
        Some(v) => v.get(key),
        None => None,
    }
}

/// The text that an optional value is.
pub open spec fn text_at(v: Option<JsonView>) -> Option<Seq<char>> {
    match v {
        Some(v) => v.as_str(),
        None => None,
    }
}

/// The integer that an optional value is.
pub open spec fn u64_at(v: Option<JsonView>) -> Option<u64> {
    match v {
        Some(v) => v.as_u64(),
        None => None,
    }
}

/// The value of an optional reference.
pub open spec fn ref_view(v: Option<&JsonValue>) -> Option<JsonView> {
    match v {
        Some(v) => Some(v@),
        None => None,
    }
}

/// The member of an optional object.
pub fn member<'a>(v: Option<&'a JsonValue>, key: &str) -> (r: Option<&'a JsonValue>)
    ensures
        ref_view(r) == at(ref_view(v), key@),
{
    match v {
        Some(v) => v.get(key),
        None => None,
    }
}

/// The text that an optional value is.
pub fn text_value<'a>(v: Option<&'a JsonValue>) -> (r: Option<&'a str>)
    ensures
        match r {
            Some(s) => text_at(ref_view(v)) == Some(s@),
            None => text_at(ref_view(v)) is None,
        },
{
    match v {
        Some(v) => v.as_str(),
        None => None,
    }
}

/// The integer that an optional value is.
pub fn u64_value(v: Option<&JsonValue>) -> (r: Option<u64>)
    ensures
        r == u64_at(ref_view(v)),
{
    match v {
        Some(v) => v.as_u64(),
        None => None,
    }
}

impl Clone for JsonValue {
    fn clone(&self) -> (r: JsonValue)
        ensures
            r@ == self@,
        decreases self,
    {
        match self {
            JsonValue::Null => JsonValue::Null,
            JsonValue::Bool(b) => JsonValue::Bool(*b),
            JsonValue::Number(n) => JsonValue::Number(n.clone()),
            JsonValue::String(s) => JsonValue::String(s.clone()),
            JsonValue::Array(items) => {
                let mut out: Vec<JsonValue> = Vec::new();
                for i in 0..items.len()
                    invariant
                        self is Array && *items == self->Array_0,
                        out@.len() == i,
                        forall|j: int| 0 <= j < i ==> out@[j]@ == items@[j]@,
                {
                    let item = items[i].clone();
                    out.push(item);
                }
                let r = JsonValue::Array(out);
                assert(r@->Array_0 =~= self@->Array_0);
                r
            },
            JsonValue::Object(o) => {
                let mut out = JsonObject::new();
                for i in 0..o.entries.len()
                    invariant
                        self is Object && *o == self->Object_0,
                        out@ == o.prefix_map(i as nat),
                {
                    let ghost before = out;
                        let value = o.entries[i].1.clone();
                    out.entries.push((o.entries[i].0.clone(), value));
                    proof {
                        lemma_prefix_map_push(before, out, before.entries@.len());
                    }
                }
                assert(o@ == o.prefix_map(o.entries@.len()));
                JsonValue::Object(out)
            },
        }
    }
}

} // verus!
