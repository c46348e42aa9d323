//! Which tool calls go out under which id, and which results answer them.

use vstd::hash_set::StringHashSet;
use vstd::prelude::*;

use crate::clock::{nanos_of, nanos_since_epoch, utc_now, Timestamp};
use crate::compat::{setting, ProviderCompat};
use crate::message::{
    block_views, message_views, BlockView, ContentBlock, Message, MessageView,
};
use crate::text::{
    concat3, format_base, format_hex_padded, hex, hexadecimal_length,
    hexadecimal_reads_back, is_empty, padding_keeps_the_number, sixteens, str_eq, views,
    zero_padded,
};
use crate::tool_call_sanitize::DroppedToolCallReason;

verus! {

broadcast use vstd::string::group_string_axioms;

// ---------------------------------------------------------------------------
// Generated ids
// ---------------------------------------------------------------------------

/// The id made from a time in milliseconds.
pub open spec fn tool_id_text(millis: nat) -> Seq<char> {
    "toolu_"@ + hex(millis) + "_"@ + zero_padded(
        hex(((millis % 0x1_0000_0000) * 2654435761) % 0x1_0000_0000),
        8,
    )
}

/// The id made from a time in nanoseconds.
pub open spec fn call_id_text(nanos: nat) -> Seq<char> {
    "call_"@ + zero_padded(
        hex(((nanos % 0x1_0000_0000_0000_0000) * 6364136223846793005) % 0x1_0000_0000_0000_0000),
        16,
    )
}

/// The tool id for a time in milliseconds.
pub fn tool_id_at(millis: u128) -> (r: String)
    ensures
        r@ == tool_id_text(millis as nat),
{
    let low: u64 = (millis % 0x1_0000_0000) as u64;
    let mixed: u64 = (low * 2654435761u64) % 0x1_0000_0000;
    let head = format_base(millis, 16);
    let tail = format_hex_padded(mixed as u128, 8);
    let mut r = concat3("toolu_", head.as_str(), "_");
    r.append(tail.as_str());
    r
}

/// The call id for a time in nanoseconds.
pub fn call_id_at(nanos: u128) -> (r: String)
    ensures
        r@ == call_id_text(nanos as nat),
{
    let low: u128 = nanos % 0x1_0000_0000_0000_0000;
    let mixed: u128 = (low * 6364136223846793005u128) % 0x1_0000_0000_0000_0000;
    let tail = format_hex_padded(mixed, 16);
    let mut r = "call_".to_string();
    r.append(tail.as_str());
    r
}

/// Makes ids, each from a later reading than the one before: the clock's, or the
/// next one up where the clock has not moved on.
#[derive(Debug, Clone, Copy, PartialEq, Eq, Structural)]
pub struct IdGenerator {
    /// The reading of the last id.
    pub last: u128,
}

/// Far above any reading of the clock; a generator that has counted up to here
/// starts over.
pub const LAST_READING: u128 = 0x100_0000_0000_0000_0000_0000_0000_0000;

/// The reading to take after `last`, with the clock at `reading`.
pub open spec fn later_reading(reading: u128, last: u128) -> u128 {
    if reading > last || last >= LAST_READING {
        reading
    } else {
        (last + 1) as u128
    }
}

/// The reading to take after `last`, with the clock at `reading`.
pub fn reading_after(reading: u128, last: u128) -> (r: u128)
    ensures
        r == later_reading(reading, last),
{
    if reading > last || last >= LAST_READING {
        reading
    } else {
        last + 1
    }
}

/// A time in the unit of a style: milliseconds for tool ids, nanoseconds modulo
/// 2^64 for call ids.
pub open spec fn reading_of(style: IdStyle, t: Timestamp) -> u128 {
    match style {
        IdStyle::Tool => (nanos_of(t) / 1_000_000) as u128,
        IdStyle::Call => (nanos_of(t) % 0x1_0000_0000_0000_0000) as u128,
    }
}

/// A time in the unit of a style.
pub fn reading_at(style: IdStyle, t: Timestamp) -> (r: u128)
    ensures
        r == reading_of(style, t),
{
    let nanos: u128 = nanos_since_epoch(t);
    match style {
        IdStyle::Tool => nanos / 1_000_000,
        IdStyle::Call => nanos % 0x1_0000_0000_0000_0000,
    }
}

/// The clock says some time, and this is the reading to take then after `before`.
pub open spec fn is_next_reading(style: IdStyle, before: u128, first: u128) -> bool {
    exists|t: Timestamp| first == #[trigger] later_reading(reading_of(style, t), before)
}

/// A generator at `before` takes `n` readings: the first is the next after `before`,
/// the others count up from it, and the generator is left with the last.
pub open spec fn takes(style: IdStyle, before: u128, n: nat, first: u128, after: u128) -> bool {
    &&& is_next_reading(style, before, first)
    &&& after == (if n == 0 {
        before as int
    } else {
        first + n - 1
    })
}

/// No time has a higher reading.
pub const CLOCK_BOUND: u128 = 0x1_0000_0000_0000_0000_0000_0000;

/// No reading of the clock is over its bound, and the next reading is later than
/// the one before it: the clock's, or one more.
pub proof fn the_next_reading_is_later(style: IdStyle, before: u128, first: u128)
    requires
        is_next_reading(style, before, first),
    ensures
        first <= LAST_READING,
        before < LAST_READING ==> first > before,
        first <= CLOCK_BOUND || first == before + 1,
        style == IdStyle::Call ==> first <= u64::MAX || first == before + 1,
{
    let t = choose|t: Timestamp| first == #[trigger] later_reading(reading_of(style, t), before);
    assert(nanos_of(t) < CLOCK_BOUND);
}

impl IdGenerator {
    pub fn new() -> (r: Self)
        ensures
            r.last == 0,
    {
        IdGenerator { last: 0 }
    }

    /// The reading to take next, in the unit of a style.
    fn first_reading(&self, style: IdStyle) -> (first: u128)
        ensures
            is_next_reading(style, self.last, first),
            first <= LAST_READING,
    {
        let now = utc_now();
        let first: u128 = reading_after(reading_at(style, now), self.last);
        proof {
            the_next_reading_is_later(style, self.last, first);
        }
        first
    }

    /// So many ids in a style.
    pub fn next_ids(&mut self, style: IdStyle, n: usize) -> (r: Vec<String>)
        ensures
            are_taken(style, old(self).last, views(r@), n as nat, final(self).last),
    {
        let first: u128 = self.first_reading(style);
        let r = ids_from(style, first, n);
        proof {
            lemma_counted_ids(style, first, n as nat);
        }
        if n > 0 {
            self.last = first + (n - 1) as u128;
        }
        assert(takes(style, old(self).last, n as nat, first, self.last));
        r
    }
}

/// Generate a unique tool ID when missing: no other id of the generator is the
/// same.
pub fn generate_tool_id(generator: &mut IdGenerator) -> (r: String)
    ensures
        r@ == tool_id_text(final(generator).last as nat),
        old(generator).last < LAST_READING ==> final(generator).last > old(generator).last,
        takes(IdStyle::Tool, old(generator).last, 1, final(generator).last, final(generator).last),
{
    let first: u128 = generator.first_reading(IdStyle::Tool);
    proof {
        the_next_reading_is_later(IdStyle::Tool, generator.last, first);
    }
    generator.last = first;
    tool_id_at(generator.last)
}

/// Generate a unique tool call ID in OpenAI `call_xxx` format: no other id of the
/// generator is the same.
pub fn generate_call_id(generator: &mut IdGenerator) -> (r: String)
    ensures
        r@ == call_id_text(final(generator).last as nat),
        old(generator).last < LAST_READING ==> final(generator).last > old(generator).last,
        takes(IdStyle::Call, old(generator).last, 1, final(generator).last, final(generator).last),
{
    let first: u128 = generator.first_reading(IdStyle::Call);
    proof {
        the_next_reading_is_later(IdStyle::Call, generator.last, first);
    }
    generator.last = first;
    call_id_at(generator.last)
}

/// Generated ids are never empty.
pub proof fn generated_ids_are_not_empty(style: IdStyle, reading: nat)
    ensures
        id_text(style, reading).len() > 0,
{
    reveal_strlit("toolu_");
    reveal_strlit("call_");
}

// ---------------------------------------------------------------------------
// Model
// ---------------------------------------------------------------------------

/// What the settings say of malformed calls, missing ids and orphan results.
#[derive(Debug, Clone, Copy, PartialEq, Eq, Structural)]
pub struct ToolIdRules {
    pub sanitize: bool,
    pub auto_tool_id: bool,
    pub clean_orphan_tool_results: bool,
}

/// The rules that some settings hold.
pub open spec fn rules_of(compat: ProviderCompat) -> ToolIdRules {
    ToolIdRules {
        sanitize: setting(compat.tools.sanitize_malformed_tool_calls, false),
        auto_tool_id: setting(compat.tools.auto_tool_id, false),
        clean_orphan_tool_results: setting(compat.messages.clean_orphan_tool_results, false),
    }
}

/// What has gone out so far.
#[verifier::ext_equal]
pub struct LedgerView {
    /// Calls that did not go out, under their ids, in order, without those whose
    /// results came.
    pub dropped: Seq<(Seq<char>, DroppedToolCallReason)>,
    /// Calls that went out under a generated id: their own ids and the generated
    /// ones, in order, without those whose results came.
    pub generated: Seq<(Seq<char>, Seq<char>)>,
    /// The ids under which calls went out.
    pub available: Set<Seq<char>>,
    /// How many generated ids were used.
    pub drawn: nat,
}

/// What becomes of a call.
#[verifier::ext_equal]
pub enum CallFate {
    Dropped(DroppedToolCallReason),
    Sent(Seq<char>),
}

/// What becomes of a result.
#[verifier::ext_equal]
pub enum ResultFate {
    /// Its call did not go out.
    Dropped(DroppedToolCallReason),
    /// No call went out under its id.
    Orphan,
    Sent(Seq<char>),
}

pub open spec fn empty_ledger() -> LedgerView {
    LedgerView {
        dropped: Seq::empty(),
        generated: Seq::empty(),
        available: Set::empty(),
        drawn: 0,
    }
}

/// Where the first entry at or after `i` for a key stands.
pub open spec fn first_entry<T>(entries: Seq<(Seq<char>, T)>, key: Seq<char>, i: nat) -> Option<nat>
    decreases entries.len() - i,
{
    if i >= entries.len() {
        None
    } else if entries[i as int].0 == key {
        Some(i)
    } else {
        first_entry(entries, key, i + 1)
    }
}

/// What becomes of a call, with `ids` the ids to give to calls without one.
pub open spec fn call_fate(
    l: LedgerView,
    rules: ToolIdRules,
    ids: Seq<Seq<char>>,
    id: Seq<char>,
    name: Seq<char>,
) -> CallFate {
    if rules.sanitize && name.len() == 0 {
        CallFate::Dropped(DroppedToolCallReason::EmptyName)
    } else if rules.sanitize && id.len() == 0 && !rules.auto_tool_id {
        CallFate::Dropped(DroppedToolCallReason::EmptyId)
    } else if id.len() == 0 && rules.auto_tool_id {
        CallFate::Sent(ids[l.drawn as int])
    } else {
        CallFate::Sent(id)
    }
}

/// The ledger after a call.
pub open spec fn after_call(
    l: LedgerView,
    rules: ToolIdRules,
    ids: Seq<Seq<char>>,
    id: Seq<char>,
    name: Seq<char>,
) -> LedgerView {
    match call_fate(l, rules, ids, id, name) {
        CallFate::Dropped(reason) => LedgerView { dropped: l.dropped.push((id, reason)), ..l },
        CallFate::Sent(sent) => if id.len() == 0 && rules.auto_tool_id {
            LedgerView {
                generated: l.generated.push((id, sent)),
                available: l.available.insert(sent),
                drawn: l.drawn + 1,
                ..l
            }
        } else {
            LedgerView { available: l.available.insert(sent), ..l }
        },
    }
}

/// The id under which the call of a result went out.
pub open spec fn projected_id(l: LedgerView, id: Seq<char>) -> Seq<char> {
    match first_entry(l.generated, id, 0) {
        Some(k) => l.generated[k as int].1,
        None => id,
    }
}

/// What becomes of a result.
pub open spec fn result_fate(l: LedgerView, rules: ToolIdRules, id: Seq<char>) -> ResultFate {
    match first_entry(l.dropped, id, 0) {
        Some(k) => ResultFate::Dropped(l.dropped[k as int].1),
        None => if rules.clean_orphan_tool_results && !l.available.contains(projected_id(l, id)) {
            ResultFate::Orphan
        } else {
            ResultFate::Sent(projected_id(l, id))
        },
    }
}

/// The ledger after a result.
pub open spec fn after_result(l: LedgerView, id: Seq<char>) -> LedgerView {
    match first_entry(l.dropped, id, 0) {
        Some(k) => LedgerView { dropped: l.dropped.remove(k as int), ..l },
        None => match first_entry(l.generated, id, 0) {
            Some(k) => LedgerView { generated: l.generated.remove(k as int), ..l },
            None => l,
        },
    }
}

/// The calls without an id among some blocks.
pub open spec fn calls_without_id(blocks: Seq<BlockView>) -> nat
    decreases blocks.len(),
{
    if blocks.len() == 0 {
        0
    } else {
        calls_without_id(blocks.drop_last()) + (match blocks.last() {
            BlockView::ToolUse { id, .. } => if id.len() == 0 {
                1nat
            } else {
                0nat
            },
            _ => 0nat,
        })
    }
}

/// The calls without an id in some messages: as many ids are enough.
pub open spec fn ids_needed(messages: Seq<MessageView>) -> nat
    decreases messages.len(),
{
    if messages.len() == 0 {
        0
    } else {
        ids_needed(messages.drop_last()) + calls_without_id(messages.last().content)
    }
}

pub proof fn lemma_calls_without_id_prefix(blocks: Seq<BlockView>, n: int)
    requires
        0 <= n <= blocks.len(),
    ensures
        calls_without_id(blocks.take(n)) <= calls_without_id(blocks),
    decreases blocks.len(),
{
    if n < blocks.len() {
        lemma_calls_without_id_prefix(blocks.drop_last(), n);
        assert(blocks.drop_last().take(n) =~= blocks.take(n));
    } else {
        assert(blocks.take(n) =~= blocks);
    }
}

pub proof fn lemma_ids_needed_prefix(messages: Seq<MessageView>, n: int)
    requires
        0 <= n <= messages.len(),
    ensures
        ids_needed(messages.take(n)) <= ids_needed(messages),
    decreases messages.len(),
{
    if n < messages.len() {
        lemma_ids_needed_prefix(messages.drop_last(), n);
        assert(messages.drop_last().take(n) =~= messages.take(n));
    } else {
        assert(messages.take(n) =~= messages);
    }
}

// ---------------------------------------------------------------------------
// Executable
// ---------------------------------------------------------------------------

/// What has gone out so far.
pub struct ToolIdLedger {
    pub dropped: Vec<(String, DroppedToolCallReason)>,
    pub generated: Vec<(String, String)>,
    pub available: StringHashSet,
    pub drawn: usize,
}

/// What becomes of a call.
pub enum CallPlan {
    Dropped(DroppedToolCallReason),
    Sent(String),
}

/// What becomes of a result.
pub enum ResultPlan {
    Dropped(DroppedToolCallReason),
    Orphan,
    Sent(String),
}

impl CallPlan {
    pub open spec fn view(&self) -> CallFate {
        match self {
            CallPlan::Dropped(reason) => CallFate::Dropped(*reason),
            CallPlan::Sent(id) => CallFate::Sent(id@),
        }
    }
}

impl ResultPlan {
    pub open spec fn view(&self) -> ResultFate {
        match self {
            ResultPlan::Dropped(reason) => ResultFate::Dropped(*reason),
            ResultPlan::Orphan => ResultFate::Orphan,
            ResultPlan::Sent(id) => ResultFate::Sent(id@),
        }
    }
}

fn position<T>(entries: &Vec<(String, T)>, key: &str) -> (r: Option<usize>)
    ensures
        ({
            let model = Seq::new(
                entries@.len(),
                |i: int| (entries@[i].0@, entries@[i].1),
            );
            match r {
                Some(k) => {
                    &&& k < entries@.len()
                    &&& first_entry(model, key@, 0) == Some(k as nat)
                },
                None => first_entry(model, key@, 0) is None,
            }
        }),
{
    let ghost model = Seq::new(entries@.len(), |i: int| (entries@[i].0@, entries@[i].1));
    for i in 0..entries.len()
        invariant
            model == Seq::new(entries@.len(), |i: int| (entries@[i].0@, entries@[i].1)),
            first_entry(model, key@, 0) == first_entry(model, key@, i as nat),
    {
        if str_eq(entries[i].0.as_str(), key) {
            return Some(i);
        }
    }
    None
}

proof fn lemma_first_entry_keys<S, T>(
    a: Seq<(Seq<char>, S)>,
    b: Seq<(Seq<char>, T)>,
    key: Seq<char>,
    i: nat,
)
    requires
        a.len() == b.len(),
        forall|j: int| 0 <= j < a.len() ==> a[j].0 == b[j].0,
    ensures
        first_entry(a, key, i) == first_entry(b, key, i),
    decreases a.len() - i,
{
    if i < a.len() {
        lemma_first_entry_keys(a, b, key, i + 1);
    }
}

impl ToolIdLedger {
    pub open spec fn view(&self) -> LedgerView {
        LedgerView {
            dropped: Seq::new(
                self.dropped@.len(),
                |i: int| (self.dropped@[i].0@, self.dropped@[i].1),
            ),
            generated: Seq::new(
                self.generated@.len(),
                |i: int| (self.generated@[i].0@, self.generated@[i].1@),
            ),
            available: self.available@,
            drawn: self.drawn as nat,
        }
    }

    pub fn new() -> (r: ToolIdLedger)
        ensures
            r@ == empty_ledger(),
    {
        let r = ToolIdLedger {
            dropped: Vec::new(),
            generated: Vec::new(),
            available: StringHashSet::new(),
            drawn: 0,
        };
        assert(r@.dropped =~= Seq::empty());
        assert(r@.generated =~= Seq::empty());
        r
    }

    /// Decides on a call and records it.
    pub fn call(&mut self, rules: ToolIdRules, ids: &Vec<String>, id: &str, name: &str) -> (r:
        CallPlan)
        requires
            id@.len() == 0 ==> old(self).drawn < ids@.len(),
        ensures
            r@ == call_fate(old(self)@, rules, views(ids@), id@, name@),
            final(self)@ == after_call(old(self)@, rules, views(ids@), id@, name@),
    {
        let ghost before = self@;
        if rules.sanitize && is_empty(name) {
            self.dropped.push((id.to_string(), DroppedToolCallReason::EmptyName));
            assert(self@.dropped =~= before.dropped.push(
                (id@, DroppedToolCallReason::EmptyName),
            ));
            return CallPlan::Dropped(DroppedToolCallReason::EmptyName);
        }
        if rules.sanitize && is_empty(id) && !rules.auto_tool_id {
            self.dropped.push((id.to_string(), DroppedToolCallReason::EmptyId));
            assert(self@.dropped =~= before.dropped.push((id@, DroppedToolCallReason::EmptyId)));
            return CallPlan::Dropped(DroppedToolCallReason::EmptyId);
        }
        if is_empty(id) && rules.auto_tool_id {
            assert(self.drawn < ids.len());
            let fresh = ids[self.drawn].clone();
            self.generated.push((id.to_string(), fresh.clone()));
            assert(self@.generated =~= before.generated.push((id@, fresh@)));
            self.available.insert(fresh.clone());
            self.drawn = self.drawn + 1;
            CallPlan::Sent(fresh)
        } else {
            self.available.insert(id.to_string());
            CallPlan::Sent(id.to_string())
        }
    }

    /// Decides on a result and records it.
    pub fn result(&mut self, rules: ToolIdRules, id: &str) -> (r: ResultPlan)
        ensures
            r@ == result_fate(old(self)@, rules, id@),
            final(self)@ == after_result(old(self)@, id@),
    {
        let ghost before = self@;
        if let Some(k) = position(&self.dropped, id) {
            let entry = self.dropped.remove(k);
            assert(self@.dropped =~= before.dropped.remove(k as int));
            return ResultPlan::Dropped(entry.1);
        }
        let found = position(&self.generated, id);
        proof {
            lemma_first_entry_keys(
                Seq::new(
                    self.generated@.len(),
                    |i: int| (self.generated@[i].0@, self.generated@[i].1),
                ),
                before.generated,
                id@,
                0,
            );
        }
        let projected: String;
        match found {
            Some(k) => {
                let entry = self.generated.remove(k);
                assert(self@.generated =~= before.generated.remove(k as int));
                projected = entry.1;
            },
            None => {
                projected = id.to_string();
            },
        }
        if rules.clean_orphan_tool_results && !self.available.contains(projected.as_str()) {
            ResultPlan::Orphan
        } else {
            ResultPlan::Sent(projected)
        }
    }
}

/// The rules that some settings hold.
pub fn tool_id_rules(compat: &ProviderCompat) -> (r: ToolIdRules)
    ensures
        r == rules_of(*compat),
{
    ToolIdRules {
        sanitize: compat.sanitize_malformed_tool_calls(),
        auto_tool_id: compat.auto_tool_id(),
        clean_orphan_tool_results: compat.clean_orphan_tool_results(),
    }
}

/// How generated ids look.
#[derive(Debug, Clone, Copy, PartialEq, Eq, Structural)]
pub enum IdStyle {
    Tool,
    Call,
}

/// The id in a style for a clock reading.
pub open spec fn id_text(style: IdStyle, reading: nat) -> Seq<char> {
    match style {
        IdStyle::Tool => tool_id_text(reading),
        IdStyle::Call => call_id_text(reading),
    }
}

/// The ids of so many readings, counted up from the first.
pub open spec fn counted_ids(style: IdStyle, first: nat, n: nat) -> Seq<Seq<char>> {
    Seq::new(n, |k: int| id_text(style, (first + k) as nat))
}

/// No two of the ids are the same.
pub open spec fn all_differ(ids: Seq<Seq<char>>) -> bool {
    forall|i: int, j: int| 0 <= i < j < ids.len() ==> #[trigger] ids[i] != #[trigger] ids[j]
}

/// The ids were made by a generator, which went from one reading to another: they
/// are counted up from a later reading than any before, and no two are the same.
pub open spec fn are_taken(
    style: IdStyle,
    before: u128,
    ids: Seq<Seq<char>>,
    n: nat,
    after: u128,
) -> bool {
    &&& ids.len() == n
    &&& all_differ(ids)
    &&& exists|first: u128| #[trigger]
        takes(style, before, n, first, after) && ids == counted_ids(style, first as nat, n)
}

/// So many ids in a style, made by a new generator, no two of them the same.
pub open spec fn are_fresh(style: IdStyle, ids: Seq<Seq<char>>, n: nat) -> bool {
    exists|after: u128| are_taken(style, 0, ids, n, after)
}

fn id_at(style: IdStyle, reading: u128) -> (r: String)
    ensures
        r@ == id_text(style, reading as nat),
{
    match style {
        IdStyle::Tool => tool_id_at(reading),
        IdStyle::Call => call_id_at(reading),
    }
}

proof fn lemma_counted_ids(style: IdStyle, first: u128, n: nat)
    requires
        n <= u64::MAX,
    ensures
        all_differ(counted_ids(style, first as nat, n)),
{
    let ids = counted_ids(style, first as nat, n);
    assert forall|i: int, j: int| 0 <= i < j < ids.len() implies #[trigger] ids[i]
        != #[trigger] ids[j] by {
        match style {
            IdStyle::Tool => tool_ids_of_two_readings_differ((first + i) as nat, (first + j) as nat),
            IdStyle::Call => call_ids_of_two_readings_differ((first + i) as nat, (first + j) as nat),
        }
    }
}

/// The ids of so many readings, counted up from the first.
pub fn ids_from(style: IdStyle, first: u128, n: usize) -> (r: Vec<String>)
    requires
        first + n <= u128::MAX,
    ensures
        views(r@) == counted_ids(style, first as nat, n as nat),
{
    let mut r: Vec<String> = Vec::new();
    for i in 0..n
        invariant
            first + n <= u128::MAX,
            r@.len() == i,
            forall|k: int| 0 <= k < i ==> (#[trigger] r@[k])@ == id_text(
                style,
                (first + k) as nat,
            ),
    {
        r.push(id_at(style, first + i as u128));
    }
    assert(views(r@) =~= counted_ids(style, first as nat, n as nat));
    r
}

/// An id for each call without one, for readings counted up from the first.
pub fn ids_for(messages: &[Message], style: IdStyle, first: u128) -> (r: Vec<String>)
    requires
        first <= LAST_READING,
    ensures
        views(r@) == counted_ids(style, first as nat, ids_needed(message_views(messages@))),
        r@.len() == ids_needed(message_views(messages@)),
{
    let mut r: Vec<String> = Vec::new();
    let ghost all = message_views(messages@);
    for i in 0..messages.len()
        invariant
            first <= LAST_READING,
            all == message_views(messages@),
            r@.len() == ids_needed(all.take(i as int)),
            forall|k: int| 0 <= k < r@.len() ==> (#[trigger] r@[k])@ == id_text(
                style,
                (first + k) as nat,
            ),
    {
        let blocks = &messages[i].content;
        let ghost content = all[i as int].content;
        let ghost base = r@.len();
        for j in 0..blocks.len()
            invariant
                first <= LAST_READING,
                content == block_views(blocks@),
                r@.len() == base + calls_without_id(content.take(j as int)),
                forall|k: int| 0 <= k < r@.len() ==> (#[trigger] r@[k])@ == id_text(
                    style,
                    (first + k) as nat,
                ),
        {
            assert(content.take(j + 1).drop_last() =~= content.take(j as int));
            if let ContentBlock::ToolUse { id, .. } = &blocks[j] {
                if is_empty(id.as_str()) {
                    let count: usize = r.len();
                    r.push(id_at(style, first + count as u128));
                }
            }
        }
        assert(content.take(content.len() as int) =~= content);
        assert(all.take(i + 1).drop_last() =~= all.take(i as int));
    }
    assert(all.take(all.len() as int) =~= all);
    assert(views(r@) =~= counted_ids(style, first as nat, ids_needed(all)));
    r
}

/// A generated id for each call without one, no two of them the same.
pub fn fresh_ids(messages: &[Message], style: IdStyle, generator: &mut IdGenerator) -> (r: Vec<
    String,
>)
    ensures
        are_taken(
            style,
            old(generator).last,
            views(r@),
            ids_needed(message_views(messages@)),
            final(generator).last,
        ),
{
    let first: u128 = generator.first_reading(style);
    let r = ids_for(messages, style, first);
    let n: usize = r.len();
    proof {
        lemma_counted_ids(style, first, n as nat);
    }
    if n > 0 {
        generator.last = first + (n - 1) as u128;
    }
    assert(takes(style, old(generator).last, n as nat, first, generator.last));
    r
}

// ---------------------------------------------------------------------------
// Laws
// ---------------------------------------------------------------------------

/// Tool ids of different readings differ. Each ends in the reading in hexadecimal,
/// an underscore and eight more digits.
pub proof fn tool_ids_of_two_readings_differ(a: nat, b: nat)
    requires
        a != b,
    ensures
        tool_id_text(a) != tool_id_text(b),
        zero_padded(hex(((a % 0x1_0000_0000) * 2654435761) % 0x1_0000_0000), 8).len() == 8,
{
    let x = zero_padded(hex(((a % 0x1_0000_0000) * 2654435761) % 0x1_0000_0000), 8);
    let y = zero_padded(hex(((b % 0x1_0000_0000) * 2654435761) % 0x1_0000_0000), 8);
    reveal_with_fuel(sixteens, 9);
    assert(sixteens(8) == 0x1_0000_0000);
    hexadecimal_length(((a % 0x1_0000_0000) * 2654435761) % 0x1_0000_0000, 8);
    hexadecimal_length(((b % 0x1_0000_0000) * 2654435761) % 0x1_0000_0000, 8);
    reveal_strlit("toolu_");
    reveal_strlit("_");
    let s = tool_id_text(a);
    let t = tool_id_text(b);
    if s == t {
        assert(s.len() == 6 + hex(a).len() + 1 + 8);
        assert(t.len() == 6 + hex(b).len() + 1 + 8);
        assert(s.subrange(6, s.len() - 9) =~= hex(a));
        assert(t.subrange(6, t.len() - 9) =~= hex(b));
        hexadecimal_reads_back(a);
        hexadecimal_reads_back(b);
    }
}

/// Multiplying by the constant of call ids loses nothing: it is odd.
proof fn lemma_mixing_loses_nothing(a: nat, b: nat)
    requires
        a < 0x1_0000_0000_0000_0000,
        b < 0x1_0000_0000_0000_0000,
        (a * 6364136223846793005) % 0x1_0000_0000_0000_0000 == (b * 6364136223846793005)
            % 0x1_0000_0000_0000_0000,
    ensures
        a == b,
{
    let q: int = (a * 6364136223846793005) as int / 0x1_0000_0000_0000_0000 - (b
        * 6364136223846793005) as int / 0x1_0000_0000_0000_0000;
    let d: int = a - b;
    assert(d * 6364136223846793005 == q * 0x1_0000_0000_0000_0000);
    // the constant and its inverse: their product is one more than a multiple of 2^64
    assert(d * 6364136223846793005 * 13877824140714322085int == d + d * 4787856489426250814int * 0x1_0000_0000_0000_0000);
    let t: int = q * 13877824140714322085 - d * 4787856489426250814;
    assert(d == t * 0x1_0000_0000_0000_0000);
}

/// Call ids of different readings differ, unless the readings are a multiple of
/// 2^64 nanoseconds apart.
pub proof fn call_ids_of_two_readings_differ(a: nat, b: nat)
    requires
        a % 0x1_0000_0000_0000_0000 != b % 0x1_0000_0000_0000_0000,
    ensures
        call_id_text(a) != call_id_text(b),
{
    let x = ((a % 0x1_0000_0000_0000_0000) * 6364136223846793005) % 0x1_0000_0000_0000_0000;
    let y = ((b % 0x1_0000_0000_0000_0000) * 6364136223846793005) % 0x1_0000_0000_0000_0000;
    let s = call_id_text(a);
    let t = call_id_text(b);
    if s == t {
        reveal_strlit("call_");
        assert(s.skip(5) =~= zero_padded(hex(x), 16));
        assert(t.skip(5) =~= zero_padded(hex(y), 16));
        padding_keeps_the_number(hex(x), 16);
        padding_keeps_the_number(hex(y), 16);
        hexadecimal_reads_back(x);
        hexadecimal_reads_back(y);
        lemma_mixing_loses_nothing(a % 0x1_0000_0000_0000_0000, b % 0x1_0000_0000_0000_0000);
    }
}

proof fn lemma_first_entry_pushed<T>(
    entries: Seq<(Seq<char>, T)>,
    entry: (Seq<char>, T),
    key: Seq<char>,
    i: nat,
)
    requires
        i <= entries.len(),
    ensures
        first_entry(entries.push(entry), key, i) == (match first_entry(entries, key, i) {
            Some(k) => Some(k),
            None => if entry.0 == key {
                Some(entries.len())
            } else {
                None
            },
        }),
    decreases entries.len() - i,
{
    let more = entries.push(entry);
    if i < entries.len() {
        assert(more[i as int] == entries[i as int]);
        if entries[i as int].0 != key {
            lemma_first_entry_pushed(entries, entry, key, i + 1);
        }
    } else {
        assert(more[i as int] == entry);
        assert(first_entry(more, key, i + 1) is None);
    }
}

/// However many ids a generator has made, its last reading is no further above the
/// clock's bound, so one that started anew stays below the limit for as long as
/// anyone can count.
pub proof fn generators_stay_below_their_limit(
    style: IdStyle,
    before: u128,
    n: nat,
    first: u128,
    after: u128,
    made: nat,
)
    requires
        takes(style, before, n, first, after),
        before <= CLOCK_BOUND + made,
        CLOCK_BOUND + made + n + 1 < LAST_READING,
    ensures
        after <= CLOCK_BOUND + made + n,
        after >= before,
        after + 1 < LAST_READING,
{
    the_next_reading_is_later(style, before, first);
}

/// Whatever ids a generator makes, now and at any time after, none of the first is
/// one of the later ones. Call ids repeat after 2^64 nanoseconds, some centuries.
pub proof fn ids_of_one_generator_differ(
    style: IdStyle,
    before: u128,
    n: nat,
    first: u128,
    between: u128,
    resumed: u128,
    m: nat,
    next: u128,
    after: u128,
    i: nat,
    j: nat,
)
    requires
        takes(style, before, n, first, between),
        takes(style, resumed, m, next, after),
        between <= resumed < LAST_READING,
        i < n,
        j < m,
        style == IdStyle::Call ==> after - first <= u64::MAX,
    ensures
        counted_ids(style, first as nat, n)[i as int] != counted_ids(
            style,
            next as nat,
            m,
        )[j as int],
{
    let a = (first + i) as nat;
    let b = (next + j) as nat;
    the_next_reading_is_later(style, resumed, next);
    assert(first <= a <= between < b <= after);
    match style {
        IdStyle::Tool => tool_ids_of_two_readings_differ(a, b),
        IdStyle::Call => call_ids_of_two_readings_differ(a, b),
    }
}

/// Two tool ids generated one after the other differ, whatever the clock says, also
/// within one millisecond.
pub proof fn two_generated_tool_ids_differ(before: u128, first: u128, second: u128)
    requires
        takes(IdStyle::Tool, before, 1, first, first),
        takes(IdStyle::Tool, first, 1, second, second),
        before + 1 < LAST_READING,
    ensures
        tool_id_text(first as nat) != tool_id_text(second as nat),
{
    the_next_reading_is_later(IdStyle::Tool, before, first);
    the_next_reading_is_later(IdStyle::Tool, first, second);
    tool_ids_of_two_readings_differ(first as nat, second as nat);
}

/// Two call ids generated one after the other differ, whatever the clock says, also
/// within one nanosecond.
pub proof fn two_generated_call_ids_differ(before: u128, first: u128, second: u128)
    requires
        takes(IdStyle::Call, before, 1, first, first),
        takes(IdStyle::Call, first, 1, second, second),
        before + 1 < LAST_READING,
    ensures
        call_id_text(first as nat) != call_id_text(second as nat),
{
    the_next_reading_is_later(IdStyle::Call, before, first);
    the_next_reading_is_later(IdStyle::Call, first, second);
    call_ids_of_two_readings_differ(first as nat, second as nat);
}

/// Of two calls without an id that go out in one request, each gets an id of its
/// own: the ledger has moved on by the time the second is met.
pub proof fn generated_ids_are_given_once(
    ids: Seq<Seq<char>>,
    rules: ToolIdRules,
    first: LedgerView,
    first_name: Seq<char>,
    second: LedgerView,
    second_name: Seq<char>,
)
    requires
        all_differ(ids),
        rules.auto_tool_id,
        second.drawn >= after_call(first, rules, ids, Seq::empty(), first_name).drawn,
        second.drawn < ids.len(),
        call_fate(first, rules, ids, Seq::empty(), first_name) is Sent,
        call_fate(second, rules, ids, Seq::empty(), second_name) is Sent,
    ensures
        call_fate(first, rules, ids, Seq::empty(), first_name) != call_fate(
            second,
            rules,
            ids,
            Seq::empty(),
            second_name,
        ),
{
    assert(ids[first.drawn as int] != ids[second.drawn as int]);
}

/// The result of a call that did not go out does not go out either, and the
/// ledger is then as if neither had been.
pub proof fn a_dropped_call_takes_its_result_with_it(
    l: LedgerView,
    rules: ToolIdRules,
    ids: Seq<Seq<char>>,
    id: Seq<char>,
    name: Seq<char>,
)
    requires
        call_fate(l, rules, ids, id, name) is Dropped,
        first_entry(l.dropped, id, 0) is None,
    ensures
        ({
            let after = after_call(l, rules, ids, id, name);
            &&& result_fate(after, rules, id) == ResultFate::Dropped(
                call_fate(l, rules, ids, id, name)->Dropped_0,
            )
            &&& after_result(after, id) == l
        }),
{
    let reason = call_fate(l, rules, ids, id, name)->Dropped_0;
    let after = after_call(l, rules, ids, id, name);
    lemma_first_entry_pushed(l.dropped, (id, reason), id, 0);
    assert(after.dropped.remove(l.dropped.len() as int) =~= l.dropped);
}

/// The result of a call that went out goes out under the id of the call, be it
/// the call's own or a generated one.
pub proof fn a_sent_call_gets_its_result(
    l: LedgerView,
    rules: ToolIdRules,
    ids: Seq<Seq<char>>,
    id: Seq<char>,
    name: Seq<char>,
)
    requires
        call_fate(l, rules, ids, id, name) is Sent,
        first_entry(l.dropped, id, 0) is None,
        first_entry(l.generated, id, 0) is None,
    ensures
        result_fate(after_call(l, rules, ids, id, name), rules, id) == ResultFate::Sent(
            call_fate(l, rules, ids, id, name)->Sent_0,
        ),
{
    let sent = call_fate(l, rules, ids, id, name)->Sent_0;
    lemma_first_entry_pushed(l.generated, (id, sent), id, 0);
}

} // verus!
