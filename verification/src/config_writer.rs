//! Write-back of hook settings into the configuration file, and the text
//! forms those settings take there.
use vstd::prelude::*;

use crate::config::{
    BackoffStrategy, FilterOperator, HookAuthConfig, PayloadFilter, TimeWindow, TriggerRules,
    MAX_DURATION_NANOS, NANOS_PER_SEC,
};
use crate::payload::{FieldType, PayloadField, PayloadSchema};
use crate::text::{dec, extend_str, push_dec, string_of};

verus! {

/// Fields submitted when creating or editing a hook via the web form.
#[derive(Debug)]
pub struct HookFormData {
    pub name: String,
    pub slug: String,
    pub description: String,
    pub enabled: bool,
    pub command: String,
    pub cwd: Option<String>,
    /// Environment variables, each name once, in the order first given.
    pub env: Vec<(String, String)>,
    /// Execution timeout, in nanoseconds.
    pub timeout: Option<u128>,
    pub retries: Option<RetryFormData>,
    pub auth: Option<HookAuthConfig>,
    pub payload: Option<PayloadSchema>,
    pub trigger_rules: Option<TriggerRules>,
}

/// Retry settings submitted with the hook form.
#[derive(Clone, Copy, Debug)]
pub struct RetryFormData {
    pub count: u32,
    pub backoff: BackoffStrategy,
    /// Delay before the first retry, in nanoseconds.
    pub initial_delay: u128,
    /// Upper bound of any retry delay, in nanoseconds.
    pub max_delay: u128,
}

/// The configuration name of a field type.
pub open spec fn field_type_key(ft: FieldType) -> Seq<char> {
    match ft {
        FieldType::String => "string"@,
        FieldType::Number => "number"@,
        FieldType::Boolean => "boolean"@,
        FieldType::Object => "object"@,
        FieldType::Array => "array"@,
    }
}

/// The configuration name of a field type.
pub fn field_type_str(ft: FieldType) -> (s: &'static str)
    ensures
        s@ == field_type_key(ft),
{
    match ft {
        FieldType::String => "string",
        FieldType::Number => "number",
        FieldType::Boolean => "boolean",
        FieldType::Object => "object",
        FieldType::Array => "array",
    }
}

/// The configuration name of a filter operator.
pub open spec fn filter_operator_name(op: FilterOperator) -> Seq<char> {
    match op {
        FilterOperator::Equals => "equals"@,
        FilterOperator::NotEquals => "not_equals"@,
        FilterOperator::Contains => "contains"@,
        FilterOperator::Regex => "regex"@,
        FilterOperator::Exists => "exists"@,
        FilterOperator::Gt => "gt"@,
        FilterOperator::Lt => "lt"@,
        FilterOperator::Gte => "gte"@,
        FilterOperator::Lte => "lte"@,
    }
}

/// The filter operator with the given configuration name, if any.
pub open spec fn filter_operator_named(s: Seq<char>) -> Option<FilterOperator> {
    if s == "equals"@ {
        Some(FilterOperator::Equals)
    } else if s == "not_equals"@ {
        Some(FilterOperator::NotEquals)
    } else if s == "contains"@ {
        Some(FilterOperator::Contains)
    } else if s == "regex"@ {
        Some(FilterOperator::Regex)
    } else if s == "exists"@ {
        Some(FilterOperator::Exists)
    } else if s == "gt"@ {
        Some(FilterOperator::Gt)
    } else if s == "lt"@ {
        Some(FilterOperator::Lt)
    } else if s == "gte"@ {
        Some(FilterOperator::Gte)
    } else if s == "lte"@ {
        Some(FilterOperator::Lte)
    } else {
        None
    }
}

/// The configuration name of a filter operator.
pub fn filter_operator_str(op: FilterOperator) -> (s: &'static str)
    ensures
        s@ == filter_operator_name(op),
{
    match op {
        FilterOperator::Equals => "equals",
        FilterOperator::NotEquals => "not_equals",
        FilterOperator::Contains => "contains",
        FilterOperator::Regex => "regex",
        FilterOperator::Exists => "exists",
        FilterOperator::Gt => "gt",
        FilterOperator::Lt => "lt",
        FilterOperator::Gte => "gte",
        FilterOperator::Lte => "lte",
    }
}

/// The filter operator named `s`, if any.
pub fn filter_operator_from_name(s: &[char]) -> (r: Option<FilterOperator>)
    ensures
        r == filter_operator_named(s@),
{
    if crate::text::str_is("equals", s) {
        Some(FilterOperator::Equals)
    } else if crate::text::str_is("not_equals", s) {
        Some(FilterOperator::NotEquals)
    } else if crate::text::str_is("contains", s) {
        Some(FilterOperator::Contains)
    } else if crate::text::str_is("regex", s) {
        Some(FilterOperator::Regex)
    } else if crate::text::str_is("exists", s) {
        Some(FilterOperator::Exists)
    } else if crate::text::str_is("gt", s) {
        Some(FilterOperator::Gt)
    } else if crate::text::str_is("lt", s) {
        Some(FilterOperator::Lt)
    } else if crate::text::str_is("gte", s) {
        Some(FilterOperator::Gte)
    } else if crate::text::str_is("lte", s) {
        Some(FilterOperator::Lte)
    } else {
        None
    }
}

/// Every operator name reads back as the operator it names.
pub proof fn filter_operator_names_read_back(op: FilterOperator)
    ensures
        filter_operator_named(filter_operator_name(op)) == Some(op),
{
    reveal_strlit("equals");
    reveal_strlit("not_equals");
    reveal_strlit("contains");
    reveal_strlit("regex");
    reveal_strlit("exists");
    reveal_strlit("gt");
    reveal_strlit("lt");
    reveal_strlit("gte");
    reveal_strlit("lte");
    match op {
        FilterOperator::Equals => {},
        FilterOperator::NotEquals => {
            assert("not_equals"@.len() != "equals"@.len());
        },
        FilterOperator::Contains => {
            assert("contains"@.len() != "equals"@.len());
            assert("contains"@.len() != "not_equals"@.len());
        },
        FilterOperator::Regex => {
            assert("regex"@.len() != "equals"@.len());
            assert("regex"@.len() != "not_equals"@.len());
            assert("regex"@.len() != "contains"@.len());
        },
        FilterOperator::Exists => {
            assert("exists"@[1] != "equals"@[1]);
            assert("exists"@.len() != "not_equals"@.len());
            assert("exists"@.len() != "contains"@.len());
            assert("exists"@.len() != "regex"@.len());
        },
        FilterOperator::Gt => {
            assert("gt"@.len() != "equals"@.len());
            assert("gt"@.len() != "not_equals"@.len());
            assert("gt"@.len() != "contains"@.len());
            assert("gt"@.len() != "regex"@.len());
            assert("gt"@.len() != "exists"@.len());
        },
        FilterOperator::Lt => {
            assert("lt"@.len() != "equals"@.len());
            assert("lt"@.len() != "not_equals"@.len());
            assert("lt"@.len() != "contains"@.len());
            assert("lt"@.len() != "regex"@.len());
            assert("lt"@.len() != "exists"@.len());
            assert("lt"@[0] != "gt"@[0]);
        },
        FilterOperator::Gte => {
            assert("gte"@.len() != "equals"@.len());
            assert("gte"@.len() != "not_equals"@.len());
            assert("gte"@.len() != "contains"@.len());
            assert("gte"@.len() != "regex"@.len());
            assert("gte"@.len() != "exists"@.len());
            assert("gte"@.len() != "gt"@.len());
            assert("gte"@.len() != "lt"@.len());
        },
        FilterOperator::Lte => {
            assert("lte"@.len() != "equals"@.len());
            assert("lte"@.len() != "not_equals"@.len());
            assert("lte"@.len() != "contains"@.len());
            assert("lte"@.len() != "regex"@.len());
            assert("lte"@.len() != "exists"@.len());
            assert("lte"@.len() != "gt"@.len());
            assert("lte"@.len() != "lt"@.len());
            assert("lte"@[0] != "gte"@[0]);
        },
    }
}

/// The configuration name of a backoff strategy.
pub open spec fn backoff_name(b: BackoffStrategy) -> Seq<char> {
    match b {
        BackoffStrategy::NoDelay => "none"@,
        BackoffStrategy::Linear => "linear"@,
        BackoffStrategy::Exponential => "exponential"@,
    }
}

/// The configuration name of a backoff strategy.
pub fn backoff_str(b: BackoffStrategy) -> (s: &'static str)
    ensures
        s@ == backoff_name(b),
{
    match b {
        BackoffStrategy::NoDelay => "none",
        BackoffStrategy::Linear => "linear",
        BackoffStrategy::Exponential => "exponential",
    }
}

/// The text `format_duration` writes for `nanos` nanoseconds: whole
/// milliseconds below one second, else seconds, whole minutes below an hour,
/// or whole hours, falling back to seconds.
pub open spec fn duration_text(nanos: nat) -> Seq<char> {
    let secs = nanos / (NANOS_PER_SEC as nat);
    let millis = (nanos % (NANOS_PER_SEC as nat)) / 1_000_000;
    if secs == 0 && millis > 0 {
        dec(millis) + "ms"@
    } else if secs < 60 {
        dec(secs) + "s"@
    } else if secs < 3600 && secs % 60 == 0 {
        dec(secs / 60) + "m"@
    } else if secs % 3600 == 0 {
        dec(secs / 3600) + "h"@
    } else {
        dec(secs) + "s"@
    }
}

/// Format a duration (in nanoseconds) as a human-readable string compatible
/// with `humantime`.
pub fn format_duration(d: u128) -> (s: String)
    requires
        d <= MAX_DURATION_NANOS,
    ensures
        s@ == duration_text(d as nat),
{
    let secs: u128 = d / NANOS_PER_SEC;
    let millis: u128 = (d % NANOS_PER_SEC) / 1_000_000;
    let mut out: Vec<char> = Vec::new();
    if secs == 0 && millis > 0 {
        push_dec(&mut out, millis);
        extend_str(&mut out, "ms");
    } else if secs < 60 {
        push_dec(&mut out, secs);
        extend_str(&mut out, "s");
    } else if secs < 3600 && secs % 60 == 0 {
        push_dec(&mut out, secs / 60);
        extend_str(&mut out, "m");
    } else if secs % 3600 == 0 {
        push_dec(&mut out, secs / 3600);
        extend_str(&mut out, "h");
    } else {
        push_dec(&mut out, secs);
        extend_str(&mut out, "s");
    }
    string_of(out.as_slice())
}

// ---------------------------------------------------------------------------
// The configuration document
// ---------------------------------------------------------------------------

/// `toml_edit::DocumentMut`: a parsed TOML document that keeps comments
/// and formatting.
#[verifier::external_type_specification]
#[verifier::external_body]
pub struct ExDocumentMut(toml_edit::DocumentMut);

/// `toml_edit::Item`: a value, table or array of tables in a document.
#[verifier::external_type_specification]
#[verifier::external_body]
pub struct ExItem(toml_edit::Item);

/// `toml_edit::Value`: a value, such as one member of an inline table.
#[verifier::external_type_specification]
#[verifier::external_body]
pub struct ExValue(toml_edit::Value);

/// The hooks a document holds: for each table of its `hooks` array of
/// tables, in order, the string value of its `slug` key (`None` when it
/// has none); empty when there is no such array.
pub uninterp spec fn hook_slugs(doc: toml_edit::DocumentMut) -> Seq<Option<Seq<char>>>;

/// Whether the document's `hooks` key holds something other than an array
/// of tables.
pub uninterp spec fn hooks_key_blocked(doc: toml_edit::DocumentMut) -> bool;

/// The message of the error `toml_edit` reports for `text`, or `None` when
/// it parses.
pub uninterp spec fn toml_parse_error(text: Seq<char>) -> Option<Seq<char>>;

/// The hooks of the document `text` parses to (see [`hook_slugs`]).
pub uninterp spec fn parsed_hook_slugs(text: Seq<char>) -> Seq<Option<Seq<char>>>;

/// Whether the `hooks` key of the document `text` parses to holds
/// something other than an array of tables.
pub uninterp spec fn parsed_hooks_blocked(text: Seq<char>) -> bool;

/// A TOML node by what it holds: a string, boolean or integer, a table by
/// its entries in order, an array by its elements, or anything else
/// (floats, dates, arrays of tables) as `Other`.
pub enum TomlNode {
    Str(Seq<char>),
    Bool(bool),
    Int(i64),
    Table(Seq<(Seq<char>, TomlNode)>),
    Array(Seq<TomlNode>),
    Other,
}

/// `entries` with `key` set to `node`, as `Table::insert` and
/// `InlineTable::insert` set it: in place where the key already stands,
/// appended otherwise.
pub open spec fn put(entries: Seq<(Seq<char>, TomlNode)>, key: Seq<char>, node: TomlNode) -> Seq<(Seq<char>, TomlNode)> {
    let i = key_index(entries, key);
    if i >= 0 {
        entries.update(i, (key, node))
    } else {
        entries.push((key, node))
    }
}

/// The position of the first entry with `key`, -1 when there is none.
pub open spec fn key_index(entries: Seq<(Seq<char>, TomlNode)>, key: Seq<char>) -> int
    decreases entries.len(),
{
    if entries.len() == 0 {
        -1
    } else {
        let j = key_index(entries.drop_last(), key);
        if j >= 0 {
            j
        } else if entries.last().0 == key {
            entries.len() - 1
        } else {
            -1
        }
    }
}

proof fn lemma_key_index(entries: Seq<(Seq<char>, TomlNode)>, key: Seq<char>)
    ensures
        -1 <= key_index(entries, key) < entries.len(),
        key_index(entries, key) >= 0 ==> entries[key_index(entries, key)].0 == key,
        key_index(entries, key) < 0 ==> forall|i: int| 0 <= i < entries.len() ==> entries[i].0 != key,
    decreases entries.len(),
{
    if entries.len() > 0 {
        lemma_key_index(entries.drop_last(), key);
        assert forall|i: int| 0 <= i < entries.len() - 1 implies entries.drop_last()[i] == entries[i] by {}
    }
}

/// `entries` without `key`, the others in order, as `Table::remove`
/// (`IndexMap::shift_remove`) leaves them.
pub open spec fn without(entries: Seq<(Seq<char>, TomlNode)>, key: Seq<char>) -> Seq<(Seq<char>, TomlNode)> {
    entries.filter(|e: (Seq<char>, TomlNode)| e.0 != key)
}

/// The node a value is written as: tables by their entries set in order.
pub open spec fn node_of(v: TomlValue) -> TomlNode
    decreases v, 0nat,
{
    match v {
        TomlValue::Str(s) => TomlNode::Str(s@),
        TomlValue::Bool(b) => TomlNode::Bool(b),
        TomlValue::Int(n) => TomlNode::Int(n),
        TomlValue::Table(es) => TomlNode::Table(entries_node(es@, es@.len())),
        TomlValue::InlineTables(ts) => TomlNode::Array(tables_node(ts@, ts@.len())),
    }
}

/// The entries a table holds after its first `n` entries of `es` are set,
/// in order.
pub open spec fn entries_node(es: Seq<(String, TomlValue)>, n: nat) -> Seq<(Seq<char>, TomlNode)>
    decreases es, n,
{
    if n == 0 || n > es.len() {
        seq![]
    } else {
        put(entries_node(es, (n - 1) as nat), es[n - 1].0@, node_of(es[n - 1].1))
    }
}

/// The tables of the first `n` entry lists of `ts`.
pub open spec fn tables_node(ts: Seq<Vec<(String, TomlValue)>>, n: nat) -> Seq<TomlNode>
    decreases ts, n,
{
    if n == 0 || n > ts.len() {
        seq![]
    } else {
        tables_node(ts, (n - 1) as nat).push(TomlNode::Table(entries_node(ts[n - 1]@, ts[n - 1]@.len())))
    }
}

/// What a `toml_edit::Item` holds.
pub uninterp spec fn item_node(item: toml_edit::Item) -> TomlNode;

/// What a `toml_edit::Value` holds.
pub uninterp spec fn value_node(value: toml_edit::Value) -> TomlNode;

/// The entries a `toml_edit::Table` holds, in order.
pub uninterp spec fn table_entries(table: toml_edit::Table) -> Seq<(Seq<char>, TomlNode)>;

/// The entries a `toml_edit::InlineTable` holds, in order.
pub uninterp spec fn inline_entries_of(table: toml_edit::InlineTable) -> Seq<(Seq<char>, TomlNode)>;

/// The elements a `toml_edit::Array` holds, in order.
pub uninterp spec fn array_elements(array: toml_edit::Array) -> Seq<TomlNode>;

/// The entries of each table of the document's `hooks` array of tables,
/// in order; empty when there is no such array.
pub uninterp spec fn hook_tables(doc: toml_edit::DocumentMut) -> Seq<Seq<(Seq<char>, TomlNode)>>;

/// The hook tables of the document `text` parses to (see [`hook_tables`]).
pub uninterp spec fn parsed_hook_tables(text: Seq<char>) -> Seq<Seq<(Seq<char>, TomlNode)>>;

/// Whether the document has a `hooks` key.
pub uninterp spec fn hooks_key_present(doc: toml_edit::DocumentMut) -> bool;

/// The document's top-level entries other than `hooks`, in order (values
/// that [`TomlNode`] does not tell apart stand as `Other`).
pub uninterp spec fn other_entries(doc: toml_edit::DocumentMut) -> Seq<(Seq<char>, TomlNode)>;

/// The top-level entries other than `hooks` of the document `text` parses
/// to.
pub uninterp spec fn parsed_other_entries(text: Seq<char>) -> Seq<(Seq<char>, TomlNode)>;

/// Whether no key occurs twice among the entries.
pub open spec fn distinct_keys(entries: Seq<(Seq<char>, TomlNode)>) -> bool {
    forall|i: int, j: int| 0 <= i < j < entries.len() ==> #[trigger] entries[i].0 != #[trigger] entries[j].0
}

/// The slug a table with these entries has, as `Item::as_str` reads its
/// `slug` key: the string it holds, `None` when it is missing or holds
/// something else.
pub open spec fn entries_slug(entries: Seq<(Seq<char>, TomlNode)>) -> Option<Seq<char>> {
    if exists|i: int| 0 <= i < entries.len() && entries[i].0 == "slug"@ {
        let i = choose|i: int| 0 <= i < entries.len() && entries[i].0 == "slug"@;
        match entries[i].1 {
            TomlNode::Str(s) => Some(s),
            _ => None,
        }
    } else {
        None
    }
}

/// `entries` after the inserting edits, in order; removals are skipped.
pub open spec fn inserts_applied(entries: Seq<(Seq<char>, TomlNode)>, edits: Seq<FieldEdit>) -> Seq<(Seq<char>, TomlNode)>
    decreases edits.len(),
{
    if edits.len() == 0 {
        entries
    } else {
        let before = inserts_applied(entries, edits.drop_last());
        match edits.last() {
            FieldEdit::Insert(k, v) => put(before, k@, node_of(v)),
            FieldEdit::Remove(_) => before,
        }
    }
}

/// The table a new hook gets: the inserted values of the edits, in order,
/// then its slug.
pub open spec fn new_hook_entries(edits: Seq<FieldEdit>, slug: Seq<char>) -> Seq<(Seq<char>, TomlNode)> {
    put(inserts_applied(Seq::empty(), edits), "slug"@, TomlNode::Str(slug))
}

/// The node `entries` holds for `key`: that of its first entry with the
/// key, `None` when there is none.
pub open spec fn entry_of(entries: Seq<(Seq<char>, TomlNode)>, key: Seq<char>) -> Option<TomlNode>
    decreases entries.len(),
{
    if entries.len() == 0 {
        None
    } else {
        match entry_of(entries.drop_last(), key) {
            Some(n) => Some(n),
            None => if entries.last().0 == key {
                Some(entries.last().1)
            } else {
                None
            },
        }
    }
}

/// The keys the hook edit form writes.
pub open spec fn form_key(k: Seq<char>) -> bool {
    ||| k == "name"@
    ||| k == "description"@
    ||| k == "enabled"@
    ||| k == "executor"@
    ||| k == "cwd"@
    ||| k == "env"@
    ||| k == "timeout"@
    ||| k == "retries"@
    ||| k == "auth"@
    ||| k == "payload"@
    ||| k == "trigger_rules"@
}

proof fn lemma_update_other(entries: Seq<(Seq<char>, TomlNode)>, i: int, e: (Seq<char>, TomlNode), key: Seq<char>)
    requires
        0 <= i < entries.len(),
        entries[i].0 != key,
        e.0 != key,
    ensures
        entry_of(entries.update(i, e), key) == entry_of(entries, key),
    decreases entries.len(),
{
    let u = entries.update(i, e);
    if i == entries.len() - 1 {
        assert(u.drop_last() =~= entries.drop_last());
    } else {
        assert(u.drop_last() =~= entries.drop_last().update(i, e));
        lemma_update_other(entries.drop_last(), i, e, key);
        assert(u.last() == entries.last());
    }
}

proof fn lemma_without_other(entries: Seq<(Seq<char>, TomlNode)>, k: Seq<char>, key: Seq<char>)
    requires
        k != key,
    ensures
        entry_of(without(entries, k), key) == entry_of(entries, key),
    decreases entries.len(),
{
    reveal(Seq::filter);
    if entries.len() > 0 {
        lemma_without_other(entries.drop_last(), k, key);
        let sub = without(entries.drop_last(), k);
        if entries.last().0 != k {
            assert(without(entries, k) == sub.push(entries.last()));
            assert(sub.push(entries.last()).drop_last() =~= sub);
        } else {
            assert(without(entries, k) == sub);
        }
    }
}

proof fn lemma_put_other(entries: Seq<(Seq<char>, TomlNode)>, k: Seq<char>, n: TomlNode, key: Seq<char>)
    requires
        k != key,
    ensures
        entry_of(put(entries, k, n), key) == entry_of(entries, key),
{
    lemma_key_index(entries, k);
    if key_index(entries, k) >= 0 {
        let i = key_index(entries, k);
        lemma_update_other(entries, i, (k, n), key);
    } else {
        let p = entries.push((k, n));
        assert(p.drop_last() =~= entries);
        assert(p.last() == (k, n));
        assert(put(entries, k, n) == p);
    }
}

proof fn lemma_edited_other(entries: Seq<(Seq<char>, TomlNode)>, edits: Seq<FieldEdit>, key: Seq<char>)
    requires
        forall|i: int| 0 <= i < edits.len() ==> (#[trigger] edits[i]).key()@ != key,
    ensures
        entry_of(edited(entries, edits), key) == entry_of(entries, key),
    decreases edits.len(),
{
    if edits.len() > 0 {
        let init = edits.drop_last();
        assert forall|i: int| 0 <= i < init.len() implies (#[trigger] init[i]).key()@ != key by {
            assert(init[i] == edits[i]);
        }
        lemma_edited_other(entries, init, key);
        assert(edits.last() == edits[edits.len() - 1]);
        match edits.last() {
            FieldEdit::Insert(k, v) => lemma_put_other(edited(entries, init), k@, node_of(v), key),
            FieldEdit::Remove(k) => lemma_without_other(edited(entries, init), k@, key),
        }
    }
}

/// The edits of the hook form leave every other key of a hook's table as
/// it was, its `slug` among them: for a key the form does not write, the
/// edited table holds what the table held.
pub proof fn form_edits_keep_other_keys(
    entries: Seq<(Seq<char>, TomlNode)>,
    edits: Seq<FieldEdit>,
    data: HookFormData,
    key: Seq<char>,
)
    requires
        writes_form(edits, data),
        !form_key(key),
    ensures
        entry_of(edited(entries, edits), key) == entry_of(entries, key),
{
    assert forall|i: int| 0 <= i < edits.len() implies (#[trigger] edits[i]).key()@ != key by {
        assert(form_key(edits[i].key()@)) by {
            if i == 0 {} else if i == 1 {} else if i == 2 {} else if i == 3 {} else if i == 4 {} else if i == 5 {
            } else if i == 6 {} else if i == 7 {} else if i == 8 {} else if i == 9 {} else {}
        }
    }
    lemma_edited_other(entries, edits, key);
}

proof fn lemma_entry_of_index(entries: Seq<(Seq<char>, TomlNode)>, key: Seq<char>)
    ensures
        entry_of(entries, key) == (if key_index(entries, key) >= 0 {
            Some(entries[key_index(entries, key)].1)
        } else {
            None
        }),
    decreases entries.len(),
{
    if entries.len() > 0 {
        lemma_entry_of_index(entries.drop_last(), key);
        lemma_key_index(entries.drop_last(), key);
        if key_index(entries.drop_last(), key) >= 0 {
            assert(entries.drop_last()[key_index(entries.drop_last(), key)] == entries[key_index(entries.drop_last(), key)]);
        }
    }
}

proof fn lemma_key_index_update_same(entries: Seq<(Seq<char>, TomlNode)>, key: Seq<char>, node: TomlNode)
    requires
        key_index(entries, key) >= 0,
    ensures
        key_index(entries.update(key_index(entries, key), (key, node)), key) == key_index(entries, key),
    decreases entries.len(),
{
    let i = key_index(entries, key);
    lemma_key_index(entries, key);
    let u = entries.update(i, (key, node));
    lemma_key_index(entries.drop_last(), key);
    if key_index(entries.drop_last(), key) >= 0 {
        assert(u.drop_last() =~= entries.drop_last().update(i, (key, node)));
        lemma_key_index_update_same(entries.drop_last(), key, node);
    } else {
        assert(u.drop_last() =~= entries.drop_last());
    }
}

proof fn lemma_put_same(entries: Seq<(Seq<char>, TomlNode)>, key: Seq<char>, node: TomlNode)
    ensures
        entry_of(put(entries, key, node), key) == Some(node),
{
    lemma_key_index(entries, key);
    let r = put(entries, key, node);
    lemma_entry_of_index(r, key);
    if key_index(entries, key) >= 0 {
        lemma_key_index_update_same(entries, key, node);
    } else {
        assert(r.drop_last() =~= entries);
    }
}

proof fn lemma_without_same(entries: Seq<(Seq<char>, TomlNode)>, key: Seq<char>)
    ensures
        entry_of(without(entries, key), key) is None,
    decreases entries.len(),
{
    reveal(Seq::filter);
    if entries.len() > 0 {
        lemma_without_same(entries.drop_last(), key);
        let sub = without(entries.drop_last(), key);
        if entries.last().0 != key {
            assert(without(entries, key) == sub.push(entries.last()));
            assert(sub.push(entries.last()).drop_last() =~= sub);
        } else {
            assert(without(entries, key) == sub);
        }
    }
}

/// What an edit leaves under its key: the inserted value, or nothing.
pub open spec fn edit_result(e: FieldEdit) -> Option<TomlNode> {
    match e {
        FieldEdit::Insert(_, v) => Some(node_of(v)),
        FieldEdit::Remove(_) => None,
    }
}

proof fn lemma_edited_key(entries: Seq<(Seq<char>, TomlNode)>, edits: Seq<FieldEdit>, i: int)
    requires
        0 <= i < edits.len(),
        forall|j: int| 0 <= j < edits.len() && j != i ==> (#[trigger] edits[j]).key()@ != edits[i].key()@,
    ensures
        entry_of(edited(entries, edits), edits[i].key()@) == edit_result(edits[i]),
    decreases edits.len(),
{
    let init = edits.drop_last();
    let k = edits[i].key()@;
    assert(edits.last() == edits[edits.len() - 1]);
    if i == edits.len() - 1 {
        match edits.last() {
            FieldEdit::Insert(kk, v) => lemma_put_same(edited(entries, init), kk@, node_of(v)),
            FieldEdit::Remove(kk) => lemma_without_same(edited(entries, init), kk@),
        }
    } else {
        assert forall|j: int| 0 <= j < init.len() && j != i implies (#[trigger] init[j]).key()@ != init[i].key()@ by {
            assert(init[j] == edits[j]);
            assert(init[i] == edits[i]);
        }
        assert(init[i] == edits[i]);
        lemma_edited_key(entries, init, i);
        assert(edits[edits.len() - 1].key()@ != k);
        match edits.last() {
            FieldEdit::Insert(kk, v) => lemma_put_other(edited(entries, init), kk@, node_of(v), k),
            FieldEdit::Remove(kk) => lemma_without_other(edited(entries, init), kk@, k),
        }
    }
}

/// After the edits of the hook form, each key the form writes holds what
/// its edit leaves there: the inserted value, or nothing when the edit
/// removes it (so, by [`writes_form`], `cwd` is present exactly when a
/// non-empty directory is given, `env` when there are variables, and so
/// on).
pub proof fn form_edits_set_form_keys(entries: Seq<(Seq<char>, TomlNode)>, edits: Seq<FieldEdit>, data: HookFormData, i: int)
    requires
        writes_form(edits, data),
        0 <= i < edits.len(),
    ensures
        entry_of(edited(entries, edits), edits[i].key()@) == edit_result(edits[i]),
{
    reveal_strlit("name");
    reveal_strlit("description");
    reveal_strlit("enabled");
    reveal_strlit("executor");
    reveal_strlit("cwd");
    reveal_strlit("env");
    reveal_strlit("timeout");
    reveal_strlit("retries");
    reveal_strlit("auth");
    reveal_strlit("payload");
    reveal_strlit("trigger_rules");
    assert forall|j: int| 0 <= j < edits.len() && j != i implies (#[trigger] edits[j]).key()@ != edits[i].key()@ by {
        let ki = edits[i].key()@;
        let kj = edits[j].key()@;
        if ki == kj {
            assert(ki.len() == kj.len());
            if ki.len() > 0 {
                assert(ki[0] == kj[0]);
            }
            if ki.len() > 1 {
                assert(ki[1] == kj[1]);
            }
        }
    }
    lemma_edited_key(entries, edits, i);
}

proof fn lemma_put_distinct(entries: Seq<(Seq<char>, TomlNode)>, key: Seq<char>, node: TomlNode)
    requires
        distinct_keys(entries),
    ensures
        distinct_keys(put(entries, key, node)),
        exists|i: int| 0 <= i < put(entries, key, node).len() && put(entries, key, node)[i] == (key, node),
{
    let r = put(entries, key, node);
    lemma_key_index(entries, key);
    if key_index(entries, key) >= 0 {
        let i = key_index(entries, key);
        assert(r[i] == (key, node));
        assert forall|a: int, b: int| 0 <= a < b < r.len() implies #[trigger] r[a].0 != #[trigger] r[b].0 by {
            assert(r[a].0 == entries[a].0);
            assert(r[b].0 == entries[b].0);
        }
    } else {
        assert(r[entries.len() as int] == (key, node));
        assert forall|a: int, b: int| 0 <= a < b < r.len() implies #[trigger] r[a].0 != #[trigger] r[b].0 by {
            if b == entries.len() {
                assert(r[a] == entries[a]);
            } else {
                assert(r[a] == entries[a]);
                assert(r[b] == entries[b]);
            }
        }
    }
}

proof fn lemma_slug_after_put(entries: Seq<(Seq<char>, TomlNode)>, slug: Seq<char>)
    requires
        distinct_keys(entries),
    ensures
        entries_slug(put(entries, "slug"@, TomlNode::Str(slug))) == Some(slug),
{
    let r = put(entries, "slug"@, TomlNode::Str(slug));
    lemma_put_distinct(entries, "slug"@, TomlNode::Str(slug));
    let p = choose|i: int| 0 <= i < r.len() && r[i] == ("slug"@, TomlNode::Str(slug));
    assert(r[p].0 == "slug"@);
    let q = choose|i: int| 0 <= i < r.len() && r[i].0 == "slug"@;
    if q != p {
        if q < p {
            assert(r[q].0 != r[p].0);
        } else {
            assert(r[p].0 != r[q].0);
        }
    }
}

/// `entries` after the edits, in order.
pub open spec fn edited(entries: Seq<(Seq<char>, TomlNode)>, edits: Seq<FieldEdit>) -> Seq<(Seq<char>, TomlNode)>
    decreases edits.len(),
{
    if edits.len() == 0 {
        entries
    } else {
        let before = edited(entries, edits.drop_last());
        match edits.last() {
            FieldEdit::Insert(k, v) => put(before, k@, node_of(v)),
            FieldEdit::Remove(k) => without(before, k@),
        }
    }
}

/// `text.parse::<toml_edit::DocumentMut>()`, the error by its `Display`
/// text. Claims whether it failed with the named message, and that the
/// document holds the named hooks of `text`.
#[verifier::external_body]
fn parse_document(text: &str) -> (r: Result<toml_edit::DocumentMut, String>)
    ensures
        r matches Err(e) ==> toml_parse_error(text@) == Some(e@),
        r is Ok ==> toml_parse_error(text@) is None,
        r matches Ok(d) ==> hook_slugs(d) == parsed_hook_slugs(text@),
        r matches Ok(d) ==> hook_tables(d) == parsed_hook_tables(text@),
        r matches Ok(d) ==> other_entries(d) == parsed_other_entries(text@),
        r matches Ok(d) ==> hooks_key_blocked(d) == parsed_hooks_blocked(text@),
{
    text.parse::<toml_edit::DocumentMut>().map_err(|e| e.to_string())
}

/// The number of tables in the document's `hooks` array of tables
/// (`DocumentMut::get`, `Item::as_array_of_tables`, `ArrayOfTables::len`),
/// zero when there is none. Claims it is the number of named hooks and of
/// hook tables.
#[verifier::external_body]
fn hook_count(doc: &toml_edit::DocumentMut) -> (n: usize)
    ensures
        n == hook_slugs(*doc).len(),
        n == hook_tables(*doc).len(),
{
    match doc.get("hooks").and_then(toml_edit::Item::as_array_of_tables) {
        Some(hooks) => hooks.len(),
        None => 0,
    }
}

/// The string value of the `slug` key of the hook table at `i`
/// (`DocumentMut::get`, `Item::as_array_of_tables`, `ArrayOfTables::get`,
/// `Table::get`, `Item::as_str`). Claims it is the named slug of that hook.
#[verifier::external_body]
fn hook_slug_at(doc: &toml_edit::DocumentMut, i: usize) -> (r: Option<String>)
    requires
        i < hook_slugs(*doc).len(),
    ensures
        match r {
            Some(s) => hook_slugs(*doc)[i as int] == Some(s@),
            None => hook_slugs(*doc)[i as int] is None,
        },
{
    doc.get("hooks")
        .and_then(toml_edit::Item::as_array_of_tables)
        .and_then(|hooks| hooks.get(i))
        .and_then(|table| table.get("slug"))
        .and_then(toml_edit::Item::as_str)
        .map(str::to_owned)
}

/// The slugs of the document's hooks, in order.
fn read_hook_slugs(doc: &toml_edit::DocumentMut) -> (r: Vec<Option<String>>)
    ensures
        r@.len() == hook_slugs(*doc).len(),
        hook_tables(*doc).len() == hook_slugs(*doc).len(),
        forall|i: int| 0 <= i < r@.len() ==> match #[trigger] r@[i] {
            Some(s) => hook_slugs(*doc)[i] == Some(s@),
            None => hook_slugs(*doc)[i] is None,
        },
{
    let n = hook_count(doc);
    let mut r: Vec<Option<String>> = Vec::new();
    let mut i: usize = 0;
    while i < n
        invariant
            i <= n,
            n == hook_slugs(*doc).len(),
            n == hook_tables(*doc).len(),
            r@.len() == i,
            forall|j: int| 0 <= j < i ==> match #[trigger] r@[j] {
                Some(s) => hook_slugs(*doc)[j] == Some(s@),
                None => hook_slugs(*doc)[j] is None,
            },
        decreases n - i,
    {
        let slug = hook_slug_at(doc, i);
        r.push(slug);
        i = i + 1;
    }
    r
}

/// `ArrayOfTables::remove` on the document's `hooks` array. Claims that
/// the hook at `idx` is gone, the others keep their order, and the other
/// top-level entries stay as they are.
#[verifier::external_body]
fn remove_hook_at(doc: &mut toml_edit::DocumentMut, idx: usize)
    requires
        idx < hook_slugs(*old(doc)).len(),
        idx < hook_tables(*old(doc)).len(),
    ensures
        hook_slugs(*final(doc)) == hook_slugs(*old(doc)).remove(idx as int),
        hook_tables(*final(doc)) == hook_tables(*old(doc)).remove(idx as int),
        other_entries(*final(doc)) == other_entries(*old(doc)),
{
    if let Some(hooks) = doc.get_mut("hooks").and_then(|v| v.as_array_of_tables_mut()) {
        hooks.remove(idx);
    }
}

/// `Table::remove("hooks")` on the document. Claims that it then has no
/// `hooks` key and so no hooks, the other top-level entries staying as
/// they are.
#[verifier::external_body]
fn remove_hooks_key(doc: &mut toml_edit::DocumentMut)
    ensures
        hook_slugs(*final(doc)).len() == 0,
        hook_tables(*final(doc)).len() == 0,
        !hooks_key_present(*final(doc)),
        other_entries(*final(doc)) == other_entries(*old(doc)),
{
    doc.remove("hooks");
}

/// `toml_edit::Table`.
#[verifier::external_type_specification]
#[verifier::external_body]
pub struct ExTable(toml_edit::Table);

/// `toml_edit::InlineTable`.
#[verifier::external_type_specification]
#[verifier::external_body]
pub struct ExInlineTable(toml_edit::InlineTable);

/// `toml_edit::Array`.
#[verifier::external_type_specification]
#[verifier::external_body]
pub struct ExArray(toml_edit::Array);

/// `Table::new`: an empty table.
#[verifier::external_body]
fn new_table() -> (t: toml_edit::Table)
    ensures
        table_entries(t) == Seq::<(Seq<char>, TomlNode)>::empty(),
{
    toml_edit::Table::new()
}

/// `Table::insert`: sets `key` to `item`, dropping what it held.
#[verifier::external_body]
fn table_insert(table: &mut toml_edit::Table, key: &str, item: toml_edit::Item)
    ensures
        table_entries(*final(table)) == put(table_entries(*old(table)), key@, item_node(item)),
{
    table.insert(key, item);
}

/// `Item::Table`: a table as an item.
#[verifier::external_body]
fn table_item(table: toml_edit::Table) -> (i: toml_edit::Item)
    ensures
        item_node(i) == TomlNode::Table(table_entries(table)),
{
    toml_edit::Item::Table(table)
}

/// `Item::Value`: a value as an item.
#[verifier::external_body]
fn value_item(value: toml_edit::Value) -> (i: toml_edit::Item)
    ensures
        item_node(i) == value_node(value),
{
    toml_edit::Item::Value(value)
}

/// `Value::from(&str)`: a string value.
#[verifier::external_body]
fn str_value(s: &str) -> (v: toml_edit::Value)
    ensures
        value_node(v) == TomlNode::Str(s@),
{
    toml_edit::Value::from(s)
}

/// `Value::from(bool)`: a boolean value.
#[verifier::external_body]
fn bool_value(b: bool) -> (v: toml_edit::Value)
    ensures
        value_node(v) == TomlNode::Bool(b),
{
    toml_edit::Value::from(b)
}

/// `Value::from(i64)`: an integer value.
#[verifier::external_body]
fn int_value(n: i64) -> (v: toml_edit::Value)
    ensures
        value_node(v) == TomlNode::Int(n),
{
    toml_edit::Value::from(n)
}

/// `Value::from(InlineTable)`: an inline table as a value.
#[verifier::external_body]
fn inline_table_value(table: toml_edit::InlineTable) -> (v: toml_edit::Value)
    ensures
        value_node(v) == TomlNode::Table(inline_entries_of(table)),
{
    toml_edit::Value::from(table)
}

/// `Value::from(Array)`: an array as a value.
#[verifier::external_body]
fn array_value(array: toml_edit::Array) -> (v: toml_edit::Value)
    ensures
        value_node(v) == TomlNode::Array(array_elements(array)),
{
    toml_edit::Value::from(array)
}

/// `InlineTable::new`: an empty inline table.
#[verifier::external_body]
fn new_inline_table() -> (t: toml_edit::InlineTable)
    ensures
        inline_entries_of(t) == Seq::<(Seq<char>, TomlNode)>::empty(),
{
    toml_edit::InlineTable::new()
}

/// `InlineTable::insert`: sets `key` to `value`, dropping what it held.
#[verifier::external_body]
fn inline_table_insert(table: &mut toml_edit::InlineTable, key: &str, value: toml_edit::Value)
    ensures
        inline_entries_of(*final(table)) == put(inline_entries_of(*old(table)), key@, value_node(value)),
{
    table.insert(key, value);
}

/// `Array::new`: an empty array.
#[verifier::external_body]
fn new_array() -> (a: toml_edit::Array)
    ensures
        array_elements(a) == Seq::<TomlNode>::empty(),
{
    toml_edit::Array::new()
}

/// `Array::push` of an inline table.
#[verifier::external_body]
fn array_push(array: &mut toml_edit::Array, table: toml_edit::InlineTable)
    ensures
        array_elements(*final(array)) == array_elements(*old(array)).push(TomlNode::Table(inline_entries_of(table))),
{
    array.push(table);
}

/// The inline table of these entries, set in order.
fn inline_entries(entries: &Vec<(String, TomlValue)>, Ghost(outer): Ghost<TomlValue>) -> (t: toml_edit::InlineTable)
    requires
        decreases_to!(outer => *entries),
    ensures
        inline_entries_of(t) == entries_node(entries@, entries@.len()),
    decreases outer, 0nat,
{
    let mut t = new_inline_table();
    let mut i: usize = 0;
    while i < entries.len()
        invariant
            i <= entries@.len(),
            decreases_to!(outer => *entries),
            inline_entries_of(t) == entries_node(entries@, i as nat),
        decreases entries@.len() - i,
    {
        proof {
            assert(decreases_to!(outer => entries@[i as int].1));
        }
        let value = toml_value(&entries[i].1);
        inline_table_insert(&mut t, entries[i].0.as_str(), value);
        i = i + 1;
    }
    t
}

/// The value form of `v`: strings, booleans and integers as such, a table
/// as an inline table, and a list of tables as an array of inline tables.
fn toml_value(v: &TomlValue) -> (r: toml_edit::Value)
    ensures
        value_node(r) == node_of(*v),
    decreases *v, 1nat,
{
    match v {
        TomlValue::Str(s) => str_value(s.as_str()),
        TomlValue::Bool(b) => bool_value(*b),
        TomlValue::Int(n) => int_value(*n),
        TomlValue::Table(entries) => inline_table_value(inline_entries(entries, Ghost(*v))),
        TomlValue::InlineTables(tables) => {
            let mut a = new_array();
            proof {
                assert(decreases_to!(*v => *tables));
            }
            let mut i: usize = 0;
            while i < tables.len()
                invariant
                    i <= tables@.len(),
                    decreases_to!(*v => *tables),
                    array_elements(a) == tables_node(tables@, i as nat),
                decreases tables@.len() - i,
            {
                proof {
                    assert(decreases_to!(*tables => tables@[i as int]));
                }
                let t = inline_entries(&tables[i], Ghost(*v));
                array_push(&mut a, t);
                i = i + 1;
            }
            array_value(a)
        },
    }
}

/// The item form of `v`: a table as a table of the item forms of its
/// entries, in order; anything else as its value form.
fn toml_item(v: &TomlValue) -> (r: toml_edit::Item)
    ensures
        item_node(r) == node_of(*v),
    decreases *v,
{
    match v {
        TomlValue::Table(entries) => {
            let mut t = new_table();
            proof {
                assert(decreases_to!(*v => *entries));
            }
            let mut i: usize = 0;
            while i < entries.len()
                invariant
                    i <= entries@.len(),
                    decreases_to!(*v => *entries),
                    table_entries(t) == entries_node(entries@, i as nat),
                decreases entries@.len() - i,
            {
                proof {
                    assert(decreases_to!(*entries => entries@[i as int].1));
                }
                let item = toml_item(&entries[i].1);
                table_insert(&mut t, entries[i].0.as_str(), item);
                i = i + 1;
            }
            table_item(t)
        },
        _ => value_item(toml_value(v)),
    }
}

/// `Table::insert` of `key` with `item` on the hook table at `idx`
/// (reached with `DocumentMut::get_mut`, `Item::as_array_of_tables_mut` and
/// `ArrayOfTables::get_mut`). Claims that no hook's slug changes, as the
/// key is not `slug`, that the key is set in that table, and that the
/// other top-level entries stay as they are.
#[verifier::external_body]
fn hook_field_insert(doc: &mut toml_edit::DocumentMut, idx: usize, key: &str, item: toml_edit::Item)
    requires
        idx < hook_slugs(*old(doc)).len(),
        idx < hook_tables(*old(doc)).len(),
        key@ != "slug"@,
    ensures
        hook_slugs(*final(doc)) == hook_slugs(*old(doc)),
        hook_tables(*final(doc)) == hook_tables(*old(doc)).update(
            idx as int,
            put(hook_tables(*old(doc))[idx as int], key@, item_node(item)),
        ),
        other_entries(*final(doc)) == other_entries(*old(doc)),
{
    if let Some(table) = doc.get_mut("hooks").and_then(|v| v.as_array_of_tables_mut()).and_then(|a| a.get_mut(idx)) {
        table.insert(key, item);
    }
}

/// `Table::remove` of `key` on the hook table at `idx` (reached as for
/// [`hook_field_insert`]). Claims that no hook's slug changes, as the key
/// is not `slug`, that the key is gone from that table, the other
/// entries keeping their order, and that the other top-level entries stay
/// as they are.
#[verifier::external_body]
fn hook_field_remove(doc: &mut toml_edit::DocumentMut, idx: usize, key: &str)
    requires
        idx < hook_slugs(*old(doc)).len(),
        idx < hook_tables(*old(doc)).len(),
        key@ != "slug"@,
    ensures
        hook_slugs(*final(doc)) == hook_slugs(*old(doc)),
        hook_tables(*final(doc)) == hook_tables(*old(doc)).update(
            idx as int,
            without(hook_tables(*old(doc))[idx as int], key@),
        ),
        other_entries(*final(doc)) == other_entries(*old(doc)),
{
    if let Some(table) = doc.get_mut("hooks").and_then(|v| v.as_array_of_tables_mut()).and_then(|a| a.get_mut(idx)) {
        table.remove(key);
    }
}

/// Applies the edits, in order, to the hook table at `idx`.
fn apply_edits_at(doc: &mut toml_edit::DocumentMut, idx: usize, edits: &Vec<FieldEdit>)
    requires
        idx < hook_slugs(*old(doc)).len(),
        idx < hook_tables(*old(doc)).len(),
        forall|i: int| 0 <= i < edits@.len() ==> (#[trigger] edits@[i]).key()@ != "slug"@,
    ensures
        hook_slugs(*final(doc)) == hook_slugs(*old(doc)),
        hook_tables(*final(doc)) == hook_tables(*old(doc)).update(
            idx as int,
            edited(hook_tables(*old(doc))[idx as int], edits@),
        ),
        other_entries(*final(doc)) == other_entries(*old(doc)),
{
    let ghost start = hook_slugs(*doc);
    let ghost rest = other_entries(*doc);
    let ghost tables = hook_tables(*doc);
    let mut i: usize = 0;
    proof {
        assert(edits@.subrange(0, 0).len() == 0);
        assert(tables.update(idx as int, tables[idx as int]) =~= tables);
    }
    while i < edits.len()
        invariant
            i <= edits@.len(),
            hook_slugs(*doc) == start,
            idx < start.len(),
            idx < tables.len(),
            hook_tables(*doc) == tables.update(idx as int, edited(tables[idx as int], edits@.subrange(0, i as int))),
            other_entries(*doc) == rest,
            forall|j: int| 0 <= j < edits@.len() ==> (#[trigger] edits@[j]).key()@ != "slug"@,
        decreases edits@.len() - i,
    {
        assert(edits@[i as int].key()@ != "slug"@);
        proof {
            let next = edits@.subrange(0, i as int + 1);
            assert(next.drop_last() =~= edits@.subrange(0, i as int));
            assert(next.last() == edits@[i as int]);
        }
        match &edits[i] {
            FieldEdit::Insert(k, v) => {
                let item = toml_item(v);
                hook_field_insert(doc, idx, k.as_str(), item);
            },
            FieldEdit::Remove(k) => hook_field_remove(doc, idx, k.as_str()),
        }
        proof {
            assert(tables.update(idx as int, edited(tables[idx as int], edits@.subrange(0, i as int)))[idx as int]
                == edited(tables[idx as int], edits@.subrange(0, i as int)));
        }
        i = i + 1;
    }
    proof {
        assert(edits@.subrange(0, edits@.len() as int) =~= edits@);
    }
}

/// `table` pushed onto the document's `hooks` array of tables (created
/// when missing) with `Table::entry`, `Entry::or_insert` and
/// `ArrayOfTables::push`. Claims the new hook, with the entries and slug of
/// `table`, comes last, unless the `hooks` key holds something else, which
/// is then left as it is; the other top-level entries stay as they are.
#[verifier::external_body]
fn push_hook_table(doc: &mut toml_edit::DocumentMut, table: toml_edit::Table)
    ensures
        !hooks_key_blocked(*old(doc)) ==> hook_slugs(*final(doc)) == hook_slugs(*old(doc)).push(
            entries_slug(table_entries(table)),
        ),
        !hooks_key_blocked(*old(doc)) ==> hook_tables(*final(doc)) == hook_tables(*old(doc)).push(table_entries(table)),
        hooks_key_blocked(*old(doc)) ==> hook_slugs(*final(doc)) == hook_slugs(*old(doc)),
        hooks_key_blocked(*old(doc)) ==> hook_tables(*final(doc)) == hook_tables(*old(doc)),
        other_entries(*final(doc)) == other_entries(*old(doc)),
{
    let hooks = doc.entry("hooks").or_insert(toml_edit::Item::ArrayOfTables(toml_edit::ArrayOfTables::new()));
    if let Some(arr) = hooks.as_array_of_tables_mut() {
        arr.push(table);
    }
}

/// Appends a new hook with the inserted values of the edits, in order
/// (removals have nothing to remove from a new table), then its `slug`.
fn append_hook_table(doc: &mut toml_edit::DocumentMut, edits: &Vec<FieldEdit>, slug: &str)
    ensures
        !hooks_key_blocked(*old(doc)) ==> hook_slugs(*final(doc)) == hook_slugs(*old(doc)).push(Some(slug@)),
        !hooks_key_blocked(*old(doc)) ==> hook_tables(*final(doc)) == hook_tables(*old(doc)).push(
            new_hook_entries(edits@, slug@),
        ),
        hooks_key_blocked(*old(doc)) ==> hook_slugs(*final(doc)) == hook_slugs(*old(doc)),
        hooks_key_blocked(*old(doc)) ==> hook_tables(*final(doc)) == hook_tables(*old(doc)),
        other_entries(*final(doc)) == other_entries(*old(doc)),
{
    let mut table = new_table();
    let mut i: usize = 0;
    proof {
        assert(edits@.subrange(0, 0).len() == 0);
    }
    while i < edits.len()
        invariant
            i <= edits@.len(),
            table_entries(table) == inserts_applied(Seq::empty(), edits@.subrange(0, i as int)),
            distinct_keys(table_entries(table)),
        decreases edits@.len() - i,
    {
        proof {
            let next = edits@.subrange(0, i as int + 1);
            assert(next.drop_last() =~= edits@.subrange(0, i as int));
            assert(next.last() == edits@[i as int]);
        }
        match &edits[i] {
            FieldEdit::Insert(k, v) => {
                let item = toml_item(v);
                proof {
                    lemma_put_distinct(table_entries(table), k@, item_node(item));
                }
                table_insert(&mut table, k.as_str(), item);
            },
            FieldEdit::Remove(_) => {},
        }
        i = i + 1;
    }
    proof {
        assert(edits@.subrange(0, edits@.len() as int) =~= edits@);
        lemma_slug_after_put(table_entries(table), slug@);
        reveal_strlit("slug");
    }
    let slug_item = value_item(str_value(slug));
    table_insert(&mut table, "slug", slug_item);
    push_hook_table(doc, table);
}

/// A value written into the configuration file.
#[derive(Debug)]
pub enum TomlValue {
    Str(String),
    Bool(bool),
    Int(i64),
    /// A table (an inline table where it stands inside a value), its
    /// entries in order.
    Table(Vec<(String, TomlValue)>),
    /// An array of inline tables, each given by its entries in order.
    InlineTables(Vec<Vec<(String, TomlValue)>>),
}

/// One change to a hook's table.
#[derive(Debug)]
pub enum FieldEdit {
    /// Set the key to the value.
    Insert(String, TomlValue),
    /// Remove the key.
    Remove(String),
}

impl FieldEdit {
    /// The key this edit changes.
    pub open spec fn key(&self) -> String {
        match self {
            FieldEdit::Insert(k, _) => *k,
            FieldEdit::Remove(k) => *k,
        }
    }
}

// ---------------------------------------------------------------------------
// The edits that write a hook's settings
// ---------------------------------------------------------------------------

/// Whether `v` is the string `s`.
pub open spec fn is_str(v: TomlValue, s: Seq<char>) -> bool {
    v matches TomlValue::Str(x) && x@ == s
}

/// Whether `e` is the entry `key = "s"`.
pub open spec fn str_entry(e: (String, TomlValue), key: Seq<char>, s: Seq<char>) -> bool {
    e.0@ == key && is_str(e.1, s)
}

/// Whether `v` is a table whose entries are the strings `kvs`, in order.
pub open spec fn str_table(v: TomlValue, kvs: Seq<(Seq<char>, Seq<char>)>) -> bool {
    v matches TomlValue::Table(es) && es@.len() == kvs.len() && forall|i: int|
        0 <= i < kvs.len() ==> str_entry(#[trigger] es@[i], kvs[i].0, kvs[i].1)
}

/// Whether `e` inserts `key` with a value satisfying the given view.
pub open spec fn inserts(e: FieldEdit, key: Seq<char>) -> bool {
    e matches FieldEdit::Insert(k, _) && k@ == key
}

/// Whether `e` removes `key`.
pub open spec fn removes(e: FieldEdit, key: Seq<char>) -> bool {
    e matches FieldEdit::Remove(k) && k@ == key
}

/// The value an edit inserts.
pub open spec fn inserted(e: FieldEdit) -> TomlValue {
    match e {
        FieldEdit::Insert(_, v) => v,
        FieldEdit::Remove(_) => TomlValue::Bool(false),
    }
}

/// The `[retries]` table of the form: count, backoff and both delays.
pub open spec fn retries_table(v: TomlValue, r: RetryFormData) -> bool {
    &&& v matches TomlValue::Table(es)
    &&& es@.len() == 4
    &&& es@[0].0@ == "count"@ && es@[0].1 == TomlValue::Int(r.count as i64)
    &&& str_entry(es@[1], "backoff"@, backoff_name(r.backoff))
    &&& str_entry(es@[2], "initial_delay"@, duration_text(r.initial_delay as nat))
    &&& str_entry(es@[3], "max_delay"@, duration_text(r.max_delay as nat))
}

/// The inline table of one payload field: name, type and `required`.
pub open spec fn field_entries(es: Seq<(String, TomlValue)>, f: PayloadField) -> bool {
    &&& es.len() == 3
    &&& str_entry(es[0], "name"@, f.name@)
    &&& str_entry(es[1], "type"@, field_type_key(f.field_type))
    &&& es[2].0@ == "required"@ && es[2].1 == TomlValue::Bool(f.required)
}

/// The `[payload]` table of a schema: its fields as inline tables.
pub open spec fn payload_table(v: TomlValue, s: PayloadSchema) -> bool {
    &&& v matches TomlValue::Table(es)
    &&& es@.len() == 1
    &&& es@[0].0@ == "fields"@
    &&& es@[0].1 matches TomlValue::InlineTables(ts)
    &&& ts@.len() == s.fields@.len()
    &&& forall|i: int| 0 <= i < ts@.len() ==> field_entries(#[trigger] ts@[i]@, s.fields@[i])
}

/// The inline table of one filter: field, operator and, when set, value.
pub open spec fn filter_entries(es: Seq<(String, TomlValue)>, f: PayloadFilter) -> bool {
    &&& es.len() == if f.value is Some { 3int } else { 2int }
    &&& str_entry(es[0], "field"@, f.field@)
    &&& str_entry(es[1], "operator"@, filter_operator_name(f.operator))
    &&& (f.value matches Some(v) ==> str_entry(es[2], "value"@, v@))
}

/// The inline table of one window: days joined by commas, start and end.
pub open spec fn window_entries(es: Seq<(String, TomlValue)>, w: TimeWindow) -> bool {
    &&& es.len() == 3
    &&& str_entry(es[0], "days"@, crate::hook_view::joined(crate::log_stream::string_views(w.days@), seq![',']))
    &&& str_entry(es[1], "start_time"@, w.start_time@)
    &&& str_entry(es[2], "end_time"@, w.end_time@)
}

/// Whether the trigger rules set anything.
pub open spec fn rules_set(r: TriggerRules) -> bool {
    ||| (r.payload_filters matches Some(f) && f@.len() > 0)
    ||| (r.time_windows matches Some(w) && w@.len() > 0)
    ||| r.cooldown is Some
    ||| r.rate_limit is Some
}

/// The entries of the `[trigger_rules]` table: filters and windows when
/// there are some, the cooldown and the rate limit when set, in that
/// order.
pub open spec fn rules_entries(es: Seq<(String, TomlValue)>, r: TriggerRules) -> bool {
    let nf: int = if r.payload_filters matches Some(f) && f@.len() > 0 { 1 } else { 0 };
    let nw: int = if r.time_windows matches Some(w) && w@.len() > 0 { 1 } else { 0 };
    let nc: int = if r.cooldown is Some { 1 } else { 0 };
    let nr: int = if r.rate_limit is Some { 1 } else { 0 };
    &&& es.len() == nf + nw + nc + nr
    &&& (r.payload_filters matches Some(fs) ==> fs@.len() > 0 ==> {
        &&& es[0].0@ == "payload_filters"@
        &&& es[0].1 matches TomlValue::InlineTables(ts)
        &&& ts@.len() == fs@.len()
        &&& forall|i: int| 0 <= i < ts@.len() ==> filter_entries(#[trigger] ts@[i]@, fs@[i])
    })
    &&& (r.time_windows matches Some(ws) ==> ws@.len() > 0 ==> {
        &&& es[nf].0@ == "time_windows"@
        &&& es[nf].1 matches TomlValue::InlineTables(ts)
        &&& ts@.len() == ws@.len()
        &&& forall|i: int| 0 <= i < ts@.len() ==> window_entries(#[trigger] ts@[i]@, ws@[i])
    })
    &&& (r.cooldown matches Some(c) ==> str_entry(es[nf + nw], "cooldown"@, duration_text(c as nat)))
    &&& (r.rate_limit matches Some(rl) ==> {
        &&& es[nf + nw + nc].0@ == "rate_limit"@
        &&& es[nf + nw + nc].1 matches TomlValue::Table(rs)
        &&& rs@.len() == 2
        &&& rs@[0].0@ == "max_requests"@
        &&& rs@[0].1 == TomlValue::Int(if rl.max_requests > i64::MAX as u64 { i64::MAX } else { rl.max_requests as i64 })
        &&& str_entry(rs@[1], "window"@, duration_text(rl.window as nat))
    })
}

/// The durations of the form are within what a `Duration` holds.
pub open spec fn form_durations_in_range(data: HookFormData) -> bool {
    &&& (data.timeout matches Some(t) ==> t <= MAX_DURATION_NANOS)
    &&& (data.retries matches Some(r) ==> r.initial_delay <= MAX_DURATION_NANOS && r.max_delay <= MAX_DURATION_NANOS)
    &&& (data.trigger_rules matches Some(rules) ==> {
        &&& (rules.cooldown matches Some(c) ==> c <= MAX_DURATION_NANOS)
        &&& (rules.rate_limit matches Some(rl) ==> rl.window <= MAX_DURATION_NANOS)
    })
}

/// Whether `edits` write the form's settings into a hook table, in the
/// order: name, description, enabled, executor, cwd, env, timeout,
/// retries, auth, payload, trigger rules. A setting the form leaves out
/// removes its key.
pub open spec fn writes_form(edits: Seq<FieldEdit>, data: HookFormData) -> bool {
    &&& edits.len() == 11
    &&& inserts(edits[0], "name"@) && is_str(inserted(edits[0]), data.name@)
    &&& inserts(edits[1], "description"@) && is_str(inserted(edits[1]), data.description@)
    &&& inserts(edits[2], "enabled"@) && inserted(edits[2]) == TomlValue::Bool(data.enabled)
    &&& inserts(edits[3], "executor"@) && str_table(inserted(edits[3]), seq![("type"@, "shell"@), ("command"@, data.command@)])
    &&& (match data.cwd {
        Some(c) => if c@.len() > 0 {
            inserts(edits[4], "cwd"@) && is_str(inserted(edits[4]), c@)
        } else {
            removes(edits[4], "cwd"@)
        },
        None => removes(edits[4], "cwd"@),
    })
    &&& (if data.env@.len() == 0 {
        removes(edits[5], "env"@)
    } else {
        &&& inserts(edits[5], "env"@)
        &&& inserted(edits[5]) matches TomlValue::Table(es)
        &&& exists|sorted: Seq<(String, String)>|
            #![trigger sorted.to_multiset()]
            crate::hook_view::sorted_by_name(sorted) && sorted.to_multiset() == data.env@.to_multiset()
            && str_table(inserted(edits[5]), sorted.map_values(|p: (String, String)| (p.0@, p.1@)))
    })
    &&& (match data.timeout {
        Some(t) => inserts(edits[6], "timeout"@) && is_str(inserted(edits[6]), duration_text(t as nat)),
        None => removes(edits[6], "timeout"@),
    })
    &&& (match data.retries {
        Some(r) => if r.count > 0 {
            inserts(edits[7], "retries"@) && retries_table(inserted(edits[7]), r)
        } else {
            removes(edits[7], "retries"@)
        },
        None => removes(edits[7], "retries"@),
    })
    &&& (match data.auth {
        Some(HookAuthConfig::Bearer { token }) => inserts(edits[8], "auth"@) && str_table(
            inserted(edits[8]),
            seq![("mode"@, "bearer"@), ("token"@, token@)],
        ),
        Some(HookAuthConfig::Hmac { header, algorithm: _, secret }) => inserts(edits[8], "auth"@) && str_table(
            inserted(edits[8]),
            seq![("mode"@, "hmac"@), ("header"@, header@), ("algorithm"@, "sha256"@), ("secret"@, secret@)],
        ),
        _ => removes(edits[8], "auth"@),
    })
    &&& (match data.payload {
        Some(sc) => if sc.fields@.len() > 0 {
            inserts(edits[9], "payload"@) && payload_table(inserted(edits[9]), sc)
        } else {
            removes(edits[9], "payload"@)
        },
        None => removes(edits[9], "payload"@),
    })
    &&& (match data.trigger_rules {
        Some(r) => if rules_set(r) {
            &&& inserts(edits[10], "trigger_rules"@)
            &&& inserted(edits[10]) matches TomlValue::Table(es)
            &&& rules_entries(es@, r)
        } else {
            removes(edits[10], "trigger_rules"@)
        },
        None => removes(edits[10], "trigger_rules"@),
    })
}

fn text_value(s: String) -> (v: TomlValue)
    ensures
        is_str(v, s@),
{
    TomlValue::Str(s)
}

fn str_pair(key: &str, value: String) -> (e: (String, TomlValue))
    ensures
        str_entry(e, key@, value@),
{
    (key.to_owned(), TomlValue::Str(value))
}

fn insert_edit(key: &str, value: TomlValue) -> (e: FieldEdit)
    ensures
        inserts(e, key@),
        inserted(e) == value,
{
    FieldEdit::Insert(key.to_owned(), value)
}

fn remove_edit(key: &str) -> (e: FieldEdit)
    ensures
        removes(e, key@),
{
    FieldEdit::Remove(key.to_owned())
}

fn env_edit(env: &Vec<(String, String)>) -> (e: FieldEdit)
    ensures
        env@.len() == 0 ==> removes(e, "env"@),
        env@.len() > 0 ==> {
            &&& inserts(e, "env"@)
            &&& inserted(e) matches TomlValue::Table(es)
            &&& exists|sorted: Seq<(String, String)>|
                #![trigger sorted.to_multiset()]
                crate::hook_view::sorted_by_name(sorted) && sorted.to_multiset() == env@.to_multiset()
                && str_table(inserted(e), sorted.map_values(|p: (String, String)| (p.0@, p.1@)))
        },
{
    if env.len() == 0 {
        return remove_edit("env");
    }
    let sorted = crate::hook_view::sort_env(env);
    let ghost kvs = sorted@.map_values(|p: (String, String)| (p.0@, p.1@));
    let mut es: Vec<(String, TomlValue)> = Vec::new();
    let mut i: usize = 0;
    while i < sorted.len()
        invariant
            i <= sorted@.len(),
            kvs == sorted@.map_values(|p: (String, String)| (p.0@, p.1@)),
            es@.len() == i,
            forall|j: int| 0 <= j < i ==> str_entry(#[trigger] es@[j], kvs[j].0, kvs[j].1),
        decreases sorted@.len() - i,
    {
        es.push((sorted[i].0.clone(), TomlValue::Str(sorted[i].1.clone())));
        i = i + 1;
    }
    insert_edit("env", TomlValue::Table(es))
}

fn retries_edit(retries: &Option<RetryFormData>) -> (e: FieldEdit)
    requires
        retries matches Some(r) ==> r.initial_delay <= MAX_DURATION_NANOS && r.max_delay <= MAX_DURATION_NANOS,
    ensures
        match *retries {
            Some(r) => if r.count > 0 {
                inserts(e, "retries"@) && retries_table(inserted(e), r)
            } else {
                removes(e, "retries"@)
            },
            None => removes(e, "retries"@),
        },
{
    match retries {
        Some(r) => {
            if r.count > 0 {
                let mut es: Vec<(String, TomlValue)> = Vec::new();
                es.push(("count".to_owned(), TomlValue::Int(r.count as i64)));
                es.push(str_pair("backoff", backoff_str(r.backoff).to_owned()));
                es.push(str_pair("initial_delay", format_duration(r.initial_delay)));
                es.push(str_pair("max_delay", format_duration(r.max_delay)));
                insert_edit("retries", TomlValue::Table(es))
            } else {
                remove_edit("retries")
            }
        },
        None => remove_edit("retries"),
    }
}

fn auth_edit(auth: &Option<HookAuthConfig>) -> (e: FieldEdit)
    ensures
        match *auth {
            Some(HookAuthConfig::Bearer { token }) => inserts(e, "auth"@) && str_table(
                inserted(e),
                seq![("mode"@, "bearer"@), ("token"@, token@)],
            ),
            Some(HookAuthConfig::Hmac { header, algorithm: _, secret }) => inserts(e, "auth"@) && str_table(
                inserted(e),
                seq![("mode"@, "hmac"@), ("header"@, header@), ("algorithm"@, "sha256"@), ("secret"@, secret@)],
            ),
            _ => removes(e, "auth"@),
        },
{
    match auth {
        Some(HookAuthConfig::Bearer { token }) => {
            let mut es: Vec<(String, TomlValue)> = Vec::new();
            es.push(str_pair("mode", "bearer".to_owned()));
            es.push(str_pair("token", token.clone()));
            insert_edit("auth", TomlValue::Table(es))
        },
        Some(HookAuthConfig::Hmac { header, algorithm: _, secret }) => {
            let mut es: Vec<(String, TomlValue)> = Vec::new();
            es.push(str_pair("mode", "hmac".to_owned()));
            es.push(str_pair("header", header.clone()));
            es.push(str_pair("algorithm", "sha256".to_owned()));
            es.push(str_pair("secret", secret.clone()));
            insert_edit("auth", TomlValue::Table(es))
        },
        _ => remove_edit("auth"),
    }
}

fn payload_edit(payload: &Option<PayloadSchema>) -> (e: FieldEdit)
    ensures
        match *payload {
            Some(sc) => if sc.fields@.len() > 0 {
                inserts(e, "payload"@) && payload_table(inserted(e), sc)
            } else {
                removes(e, "payload"@)
            },
            None => removes(e, "payload"@),
        },
{
    match payload {
        Some(sc) => {
            if sc.fields.len() == 0 {
                return remove_edit("payload");
            }
            let mut ts: Vec<Vec<(String, TomlValue)>> = Vec::new();
            let mut i: usize = 0;
            while i < sc.fields.len()
                invariant
                    i <= sc.fields@.len(),
                    ts@.len() == i,
                    forall|j: int| 0 <= j < i ==> field_entries(#[trigger] ts@[j]@, sc.fields@[j]),
                decreases sc.fields@.len() - i,
            {
                let f = &sc.fields[i];
                let mut es: Vec<(String, TomlValue)> = Vec::new();
                es.push(str_pair("name", f.name.clone()));
                es.push(str_pair("type", field_type_str(f.field_type).to_owned()));
                es.push(("required".to_owned(), TomlValue::Bool(f.required)));
                ts.push(es);
                i = i + 1;
            }
            let mut es: Vec<(String, TomlValue)> = Vec::new();
            es.push(("fields".to_owned(), TomlValue::InlineTables(ts)));
            insert_edit("payload", TomlValue::Table(es))
        },
        None => remove_edit("payload"),
    }
}

fn filters_value(fs: &Vec<PayloadFilter>) -> (v: TomlValue)
    ensures
        v matches TomlValue::InlineTables(ts) && ts@.len() == fs@.len() && forall|i: int|
            0 <= i < ts@.len() ==> filter_entries(#[trigger] ts@[i]@, fs@[i]),
{
    let mut ts: Vec<Vec<(String, TomlValue)>> = Vec::new();
    let mut i: usize = 0;
    while i < fs.len()
        invariant
            i <= fs@.len(),
            ts@.len() == i,
            forall|j: int| 0 <= j < i ==> filter_entries(#[trigger] ts@[j]@, fs@[j]),
        decreases fs@.len() - i,
    {
        let f = &fs[i];
        let mut es: Vec<(String, TomlValue)> = Vec::new();
        es.push(str_pair("field", f.field.clone()));
        es.push(str_pair("operator", filter_operator_str(f.operator).to_owned()));
        match &f.value {
            Some(v) => es.push(str_pair("value", v.clone())),
            None => {},
        }
        ts.push(es);
        i = i + 1;
    }
    TomlValue::InlineTables(ts)
}

fn windows_value(ws: &Vec<TimeWindow>) -> (v: TomlValue)
    ensures
        v matches TomlValue::InlineTables(ts) && ts@.len() == ws@.len() && forall|i: int|
            0 <= i < ts@.len() ==> window_entries(#[trigger] ts@[i]@, ws@[i]),
{
    let comma: Vec<char> = vec![','];
    let mut ts: Vec<Vec<(String, TomlValue)>> = Vec::new();
    let mut i: usize = 0;
    while i < ws.len()
        invariant
            i <= ws@.len(),
            comma@ == seq![','],
            ts@.len() == i,
            forall|j: int| 0 <= j < i ==> window_entries(#[trigger] ts@[j]@, ws@[j]),
        decreases ws@.len() - i,
    {
        let w = &ws[i];
        let days = crate::hook_view::join_day_names(&w.days, comma.as_slice());
        let mut es: Vec<(String, TomlValue)> = Vec::new();
        es.push(str_pair("days", string_of(days.as_slice())));
        es.push(str_pair("start_time", w.start_time.clone()));
        es.push(str_pair("end_time", w.end_time.clone()));
        ts.push(es);
        i = i + 1;
    }
    TomlValue::InlineTables(ts)
}

fn rules_edit(rules: &Option<TriggerRules>) -> (e: FieldEdit)
    requires
        rules matches Some(r) ==> (r.cooldown matches Some(c) ==> c <= MAX_DURATION_NANOS) && (
        r.rate_limit matches Some(rl) ==> rl.window <= MAX_DURATION_NANOS),
    ensures
        match *rules {
            Some(r) => if rules_set(r) {
                &&& inserts(e, "trigger_rules"@)
                &&& inserted(e) matches TomlValue::Table(es)
                &&& rules_entries(es@, r)
            } else {
                removes(e, "trigger_rules"@)
            },
            None => removes(e, "trigger_rules"@),
        },
{
    let r = match rules {
        Some(r) => r,
        None => return remove_edit("trigger_rules"),
    };
    let has_filters = match &r.payload_filters {
        Some(f) => f.len() > 0,
        None => false,
    };
    let has_windows = match &r.time_windows {
        Some(w) => w.len() > 0,
        None => false,
    };
    if !(has_filters || has_windows || r.cooldown.is_some() || r.rate_limit.is_some()) {
        return remove_edit("trigger_rules");
    }
    let mut es: Vec<(String, TomlValue)> = Vec::new();
    match &r.payload_filters {
        Some(fs) => if fs.len() > 0 {
            es.push(("payload_filters".to_owned(), filters_value(fs)));
        },
        None => {},
    }
    let ghost nf = es@.len();
    match &r.time_windows {
        Some(ws) => if ws.len() > 0 {
            es.push(("time_windows".to_owned(), windows_value(ws)));
        },
        None => {},
    }
    let ghost nw = es@.len();
    match r.cooldown {
        Some(c) => es.push(str_pair("cooldown", format_duration(c))),
        None => {},
    }
    match r.rate_limit {
        Some(rl) => {
            let max: i64 = if rl.max_requests > 9223372036854775807 {
                9223372036854775807
            } else {
                rl.max_requests as i64
            };
            let mut rs: Vec<(String, TomlValue)> = Vec::new();
            rs.push(("max_requests".to_owned(), TomlValue::Int(max)));
            rs.push(str_pair("window", format_duration(rl.window)));
            es.push(("rate_limit".to_owned(), TomlValue::Table(rs)));
        },
        None => {},
    }
    insert_edit("trigger_rules", TomlValue::Table(es))
}

/// The edits that write the form's settings into a hook table (all but
/// the slug).
pub fn hook_field_edits(data: &HookFormData) -> (edits: Vec<FieldEdit>)
    requires
        form_durations_in_range(*data),
    ensures
        writes_form(edits@, *data),
        forall|i: int| 0 <= i < edits@.len() ==> (#[trigger] edits@[i]).key()@ != "slug"@,
{
    let mut edits: Vec<FieldEdit> = Vec::new();
    edits.push(insert_edit("name", text_value(data.name.clone())));
    edits.push(insert_edit("description", text_value(data.description.clone())));
    edits.push(insert_edit("enabled", TomlValue::Bool(data.enabled)));
    let mut exec: Vec<(String, TomlValue)> = Vec::new();
    exec.push(str_pair("type", "shell".to_owned()));
    exec.push(str_pair("command", data.command.clone()));
    edits.push(insert_edit("executor", TomlValue::Table(exec)));
    let cwd_edit = match &data.cwd {
        Some(c) => if c.as_str().is_empty() {
            remove_edit("cwd")
        } else {
            insert_edit("cwd", text_value(c.clone()))
        },
        None => remove_edit("cwd"),
    };
    edits.push(cwd_edit);
    edits.push(env_edit(&data.env));
    let timeout_edit = match data.timeout {
        Some(t) => insert_edit("timeout", text_value(format_duration(t))),
        None => remove_edit("timeout"),
    };
    edits.push(timeout_edit);
    edits.push(retries_edit(&data.retries));
    edits.push(auth_edit(&data.auth));
    edits.push(payload_edit(&data.payload));
    edits.push(rules_edit(&data.trigger_rules));
    proof {
        reveal_strlit("slug");
        reveal_strlit("name");
        reveal_strlit("description");
        reveal_strlit("enabled");
        reveal_strlit("executor");
        reveal_strlit("cwd");
        reveal_strlit("env");
        reveal_strlit("timeout");
        reveal_strlit("retries");
        reveal_strlit("auth");
        reveal_strlit("payload");
        reveal_strlit("trigger_rules");
        assert forall|i: int| 0 <= i < edits@.len() implies (#[trigger] edits@[i]).key()@ != "slug"@ by {
            assert(edits@[i].key()@.len() != 4 || edits@[i].key()@[0] != 's');
        }
    }
    edits
}

// ---------------------------------------------------------------------------
// ConfigWriter
// ---------------------------------------------------------------------------

/// Why the configuration could not be written.
#[derive(Debug)]
pub enum WriteError {
    /// Reading or writing the file failed.
    Io(String),
    /// The file is not valid TOML.
    Parse(String),
    HookNotFound(String),
    SlugConflict(String),
    /// The written configuration does not load.
    Validation(String),
}

/// Position of the first hook with the slug, if any.
pub open spec fn slug_position(slugs: Seq<Option<Seq<char>>>, slug: Seq<char>) -> Option<int>
    decreases slugs.len(),
{
    if slugs.len() == 0 {
        None
    } else {
        match slug_position(slugs.drop_last(), slug) {
            Some(i) => Some(i),
            None => if slugs.last() == Some(slug) {
                Some(slugs.len() - 1)
            } else {
                None
            },
        }
    }
}

proof fn lemma_slug_position_extends(slugs: Seq<Option<Seq<char>>>, n: int, slug: Seq<char>, i: int)
    requires
        0 <= n <= slugs.len(),
        slug_position(slugs.take(n), slug) == Some(i),
    ensures
        slug_position(slugs, slug) == Some(i),
    decreases slugs.len() - n,
{
    if n < slugs.len() {
        assert(slugs.take(n + 1).drop_last() == slugs.take(n));
        lemma_slug_position_extends(slugs, n + 1, slug, i);
    } else {
        assert(slugs.take(n) == slugs);
    }
}

fn find_slug(slugs: &Vec<Option<String>>, slug: &str, ghost_slugs: Ghost<Seq<Option<Seq<char>>>>) -> (r: Option<usize>)
    requires
        slugs@.len() == ghost_slugs@.len(),
        forall|i: int| 0 <= i < slugs@.len() ==> match #[trigger] slugs@[i] {
            Some(s) => ghost_slugs@[i] == Some(s@),
            None => ghost_slugs@[i] is None,
        },
    ensures
        r matches Some(i) ==> slug_position(ghost_slugs@, slug@) == Some(i as int) && i < slugs@.len(),
        r is None ==> slug_position(ghost_slugs@, slug@) is None,
{
    let ghost gs = ghost_slugs@;
    let mut i: usize = 0;
    while i < slugs.len()
        invariant
            i <= slugs@.len(),
            gs == ghost_slugs@,
            slugs@.len() == gs.len(),
            forall|k: int| 0 <= k < slugs@.len() ==> match #[trigger] slugs@[k] {
                Some(s) => gs[k] == Some(s@),
                None => gs[k] is None,
            },
            slug_position(gs.take(i as int), slug@) is None,
        decreases slugs@.len() - i,
    {
        assert(gs.take(i + 1).drop_last() == gs.take(i as int));
        assert(gs.take(i + 1).last() == gs[i as int]);
        let hit = match &slugs[i] {
            Some(s) => crate::models::same_text(s.as_str(), slug),
            None => false,
        };
        if hit {
            proof {
                lemma_slug_position_extends(gs, i + 1, slug@, i as int);
            }
            return Some(i);
        }
        i = i + 1;
    }
    assert(gs.take(slugs@.len() as int) == gs);
    None
}

/// Reads, modifies and writes back the configuration file. The file
/// itself is read and written by the caller; these methods turn its text
/// into the changed document.
#[derive(Debug)]
pub struct ConfigWriter {
    path: String,
}

impl ConfigWriter {
    /// The path of the configuration file.
    pub closed spec fn file(&self) -> Seq<char> {
        self.path@
    }

    /// A writer for the configuration file at `path`.
    pub fn new(path: &str) -> (w: Self)
        ensures
            w.file() == path@,
    {
        ConfigWriter { path: path.to_owned() }
    }

    /// Path to the config file.
    pub fn path(&self) -> (p: &str)
        ensures
            p@ == self.file(),
    {
        self.path.as_str()
    }

    /// Append a new hook to the `[[hooks]]` array of the file's text
    /// `content`: refused when a hook already has the slug.
    pub fn add_hook(&self, content: &str, data: &HookFormData) -> (r: Result<toml_edit::DocumentMut, WriteError>)
        requires
            form_durations_in_range(*data),
        ensures
            toml_parse_error(content@) matches Some(e) ==> (r matches Err(WriteError::Parse(m)) && m@ == e),
            toml_parse_error(content@) is None && slug_position(parsed_hook_slugs(content@), data.slug@) is Some
                ==> (r matches Err(WriteError::SlugConflict(s)) && s@ == data.slug@),
            toml_parse_error(content@) is None && slug_position(parsed_hook_slugs(content@), data.slug@) is None
                ==> r is Ok,
            r matches Ok(d) ==> !parsed_hooks_blocked(content@) ==> hook_slugs(d) == parsed_hook_slugs(content@).push(
                Some(data.slug@),
            ),
            r matches Ok(d) ==> parsed_hooks_blocked(content@) ==> hook_slugs(d) == parsed_hook_slugs(content@),
            r matches Ok(d) ==> !parsed_hooks_blocked(content@) ==> exists|edits: Seq<FieldEdit>|
                #![trigger writes_form(edits, *data)]
                writes_form(edits, *data) && hook_tables(d) == parsed_hook_tables(content@).push(
                    new_hook_entries(edits, data.slug@),
                ),
            r matches Ok(d) ==> parsed_hooks_blocked(content@) ==> hook_tables(d) == parsed_hook_tables(content@),
            r matches Ok(d) ==> other_entries(d) == parsed_other_entries(content@),
    {
        let mut doc = match parse_document(content) {
            Ok(d) => d,
            Err(e) => return Err(WriteError::Parse(e)),
        };
        let slugs = read_hook_slugs(&doc);
        if find_slug(&slugs, data.slug.as_str(), Ghost(hook_slugs(doc))).is_some() {
            return Err(WriteError::SlugConflict(data.slug.clone()));
        }
        let edits = hook_field_edits(data);
        append_hook_table(&mut doc, &edits, data.slug.as_str());
        Ok(doc)
    }

    /// Update the hook identified by `slug` in the file's text `content`.
    ///
    /// The slug itself is immutable after creation. All other fields in
    /// `data` overwrite the existing values (except `data.slug` which is
    /// used only for lookup); [`hook_field_edits`] lists the changes.
    pub fn update_hook(&self, content: &str, slug: &str, data: &HookFormData) -> (r: Result<toml_edit::DocumentMut, WriteError>)
        requires
            form_durations_in_range(*data),
        ensures
            toml_parse_error(content@) matches Some(e) ==> (r matches Err(WriteError::Parse(m)) && m@ == e),
            toml_parse_error(content@) is None && slug_position(parsed_hook_slugs(content@), slug@) is None
                ==> (r matches Err(WriteError::HookNotFound(s)) && s@ == slug@),
            toml_parse_error(content@) is None && slug_position(parsed_hook_slugs(content@), slug@) is Some
                ==> r is Ok,
            r matches Ok(d) ==> hook_slugs(d) == parsed_hook_slugs(content@),
            r matches Ok(d) ==> (slug_position(parsed_hook_slugs(content@), slug@) matches Some(i) && exists|edits: Seq<
                FieldEdit,
            >|
                #![trigger writes_form(edits, *data)]
                writes_form(edits, *data) && hook_tables(d) == parsed_hook_tables(content@).update(
                    i,
                    edited(parsed_hook_tables(content@)[i], edits),
                )),
            r matches Ok(d) ==> other_entries(d) == parsed_other_entries(content@),
    {
        let mut doc = match parse_document(content) {
            Ok(d) => d,
            Err(e) => return Err(WriteError::Parse(e)),
        };
        let slugs = read_hook_slugs(&doc);
        let idx = match find_slug(&slugs, slug, Ghost(hook_slugs(doc))) {
            Some(i) => i,
            None => return Err(WriteError::HookNotFound(slug.to_owned())),
        };
        let edits = hook_field_edits(data);
        apply_edits_at(&mut doc, idx, &edits);
        Ok(doc)
    }

    /// Remove the hook with `slug` from the file's text `content`; the
    /// `hooks` key goes when no hook remains.
    pub fn remove_hook(&self, content: &str, slug: &str) -> (r: Result<toml_edit::DocumentMut, WriteError>)
        ensures
            toml_parse_error(content@) matches Some(e) ==> (r matches Err(WriteError::Parse(m)) && m@ == e),
            toml_parse_error(content@) is None && slug_position(parsed_hook_slugs(content@), slug@) is None
                ==> (r matches Err(WriteError::HookNotFound(s)) && s@ == slug@),
            toml_parse_error(content@) is None && slug_position(parsed_hook_slugs(content@), slug@) is Some
                ==> r is Ok,
            r matches Ok(d) ==> (slug_position(parsed_hook_slugs(content@), slug@) matches Some(i)
                && hook_slugs(d) == parsed_hook_slugs(content@).remove(i)
                && hook_tables(d) == parsed_hook_tables(content@).remove(i)),
            r matches Ok(d) ==> hook_slugs(d).len() == 0 ==> !hooks_key_present(d),
            r matches Ok(d) ==> other_entries(d) == parsed_other_entries(content@),
    {
        let mut doc = match parse_document(content) {
            Ok(d) => d,
            Err(e) => return Err(WriteError::Parse(e)),
        };
        let slugs = read_hook_slugs(&doc);
        let idx = match find_slug(&slugs, slug, Ghost(hook_slugs(doc))) {
            Some(i) => i,
            None => return Err(WriteError::HookNotFound(slug.to_owned())),
        };
        remove_hook_at(&mut doc, idx);
        let left = read_hook_slugs(&doc);
        if left.len() == 0 {
            remove_hooks_key(&mut doc);
            proof {
                assert(hook_slugs(doc) =~= parsed_hook_slugs(content@).remove(idx as int));
                assert(hook_tables(doc) =~= parsed_hook_tables(content@).remove(idx as int));
            }
        }
        Ok(doc)
    }
}

/// The message shown to the user for a write error.
pub fn write_error_message(e: &WriteError) -> (m: String)
    ensures
        e matches WriteError::SlugConflict(s) ==> m@ == "A hook with slug '"@ + s@ + "' already exists"@,
        e matches WriteError::HookNotFound(s) ==> m@ == "Hook '"@ + s@ + "' not found"@,
        e matches WriteError::Validation(v) ==> m@ == "Validation error: "@ + v@,
        e is Io ==> m@ == "Failed to write config file"@,
        e is Parse ==> m@ == "Failed to parse config file"@,
{
    let mut out: Vec<char> = Vec::new();
    match e {
        WriteError::SlugConflict(s) => {
            extend_str(&mut out, "A hook with slug '");
            extend_str(&mut out, s.as_str());
            extend_str(&mut out, "' already exists");
        },
        WriteError::HookNotFound(s) => {
            extend_str(&mut out, "Hook '");
            extend_str(&mut out, s.as_str());
            extend_str(&mut out, "' not found");
        },
        WriteError::Validation(v) => {
            extend_str(&mut out, "Validation error: ");
            extend_str(&mut out, v.as_str());
        },
        WriteError::Io(_) => {
            extend_str(&mut out, "Failed to write config file");
        },
        WriteError::Parse(_) => {
            extend_str(&mut out, "Failed to parse config file");
        },
    }
    string_of(out.as_slice())
}

} // verus!
