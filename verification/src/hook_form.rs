//! The hook create/edit form: its text fields, one setting per line, and
//! their parsing into [`HookFormData`].
use vstd::prelude::*;

use crate::config::{
    BackoffStrategy, FilterOperator, HmacAlgorithm, HookAuthConfig, PayloadFilter, TimeWindow,
    TriggerRateLimit, TriggerRules, MAX_DURATION_NANOS, NANOS_PER_SEC,
};
use crate::config_writer::{filter_operator_from_name, filter_operator_named, HookFormData, RetryFormData};
use crate::log_stream::string_views;
use crate::payload::{field_type_named, FieldType, PayloadField, PayloadSchema};
use crate::text::{
    chars_of, dec, extend_chars, extend_str, find_char, find_first, push_dec, split_chars,
    split_seq, splitn_chars, splitn_seq, str_is, string_of, sub_chars, trim, trim_chars, trim_str,
    views,
};

verus! {

/// What `humantime::parse_duration(text)` gives: the duration in
/// nanoseconds, or the `Display` text of its error.
pub uninterp spec fn humantime_duration(text: Seq<char>) -> Result<u128, Seq<char>>;

/// The number of ASCII digits in `s`.
pub open spec fn digit_count(s: Seq<char>) -> nat
    decreases s.len(),
{
    if s.len() == 0 {
        0
    } else {
        digit_count(s.drop_last()) + if '0' <= s.last() && s.last() <= '9' { 1nat } else { 0nat }
    }
}

/// The most digits a duration field may hold. With at most eleven digits
/// every span is below 10^11 of the largest unit (a year, 31,557,600 s), so
/// the total stays far below `u64::MAX` seconds: `humantime` only panics
/// (in `Duration::new`) when the total reaches exactly `u64::MAX` seconds.
pub const MAX_DURATION_DIGITS: usize = 11;

/// `humantime::parse_duration`, with the duration taken in nanoseconds and
/// the error by its `Display` text. Claims the named result, and that a
/// duration, being a `std::time::Duration`, is at most its maximum. Given
/// at most [`MAX_DURATION_DIGITS`] digits, it cannot reach the total of
/// `u64::MAX` seconds at which `humantime` panics.
#[verifier::external_body]
fn parse_humantime(text: &str) -> (r: Result<u128, String>)
    requires
        digit_count(text@) <= MAX_DURATION_DIGITS,
    ensures
        r matches Ok(n) ==> (humantime_duration(text@) matches Ok(m) && m == n),
        r matches Ok(n) ==> n <= MAX_DURATION_NANOS,
        r matches Err(e) ==> (humantime_duration(text@) matches Err(m) && m == e@),
{
    match humantime::parse_duration(text) {
        Ok(d) => Ok(d.as_nanos()),
        Err(e) => Err(e.to_string()),
    }
}

/// A duration field: empty (after trimming) means none; more than
/// [`MAX_DURATION_DIGITS`] digits are refused; anything else must be a
/// `humantime` duration.
pub open spec fn duration_field(s: Seq<char>) -> Result<Option<u128>, Seq<char>> {
    let t = trim(s);
    if t.len() == 0 {
        Ok(None)
    } else if digit_count(t) > MAX_DURATION_DIGITS {
        Err("invalid duration '"@ + t + "': too many digits"@)
    } else {
        match humantime_duration(t) {
            Ok(n) => Ok(Some(n)),
            Err(e) => Err("invalid duration '"@ + t + "': "@ + e),
        }
    }
}

fn count_digits(s: &[char]) -> (n: usize)
    ensures
        n == digit_count(s@),
{
    let mut n: usize = 0;
    let mut i: usize = 0;
    proof {
        assert(s@.take(0) =~= Seq::<char>::empty());
    }
    while i < s.len()
        invariant
            i <= s@.len(),
            n == digit_count(s@.take(i as int)),
            n <= i,
        decreases s@.len() - i,
    {
        proof {
            assert(s@.take(i + 1).drop_last() =~= s@.take(i as int));
        }
        if '0' <= s[i] && s[i] <= '9' {
            n = n + 1;
        }
        i = i + 1;
    }
    proof {
        assert(s@.take(s@.len() as int) =~= s@);
    }
    n
}

/// Parse a human-readable duration string (e.g., "30s", "5m", "2h") into
/// nanoseconds. Returns `None` for empty strings.
pub fn parse_duration_field(s: &str) -> (r: Result<Option<u128>, String>)
    ensures
        r matches Ok(d) ==> duration_field(s@) == Ok::<Option<u128>, Seq<char>>(d),
        r matches Err(e) ==> duration_field(s@) == Err::<Option<u128>, Seq<char>>(e@),
        r matches Ok(Some(n)) ==> n <= MAX_DURATION_NANOS,
{
    let t = trim_str(s);
    if t.len() == 0 {
        return Ok(None);
    }
    if count_digits(t.as_slice()) > MAX_DURATION_DIGITS {
        let mut m: Vec<char> = Vec::new();
        extend_str(&mut m, "invalid duration '");
        extend_chars(&mut m, t.as_slice());
        extend_str(&mut m, "': too many digits");
        return Err(string_of(m.as_slice()));
    }
    let ts = string_of(t.as_slice());
    match parse_humantime(ts.as_str()) {
        Ok(n) => Ok(Some(n)),
        Err(e) => {
            let mut m: Vec<char> = Vec::new();
            extend_str(&mut m, "invalid duration '");
            extend_chars(&mut m, t.as_slice());
            extend_str(&mut m, "': ");
            extend_str(&mut m, e.as_str());
            Err(string_of(m.as_slice()))
        },
    }
}

// ---------------------------------------------------------------------------
// Line-oriented text fields
// ---------------------------------------------------------------------------

/// The items of a line-oriented text field: each non-blank line, trimmed,
/// read by `parse` with its line number; the first error stops the reading.
pub open spec fn parsed_lines<T>(
    lines: Seq<Seq<char>>,
    parse: spec_fn(nat, Seq<char>) -> Result<T, Seq<char>>,
) -> Result<Seq<T>, Seq<char>>
    decreases lines.len(),
{
    if lines.len() == 0 {
        Ok(seq![])
    } else {
        match parsed_lines(lines.drop_last(), parse) {
            Err(e) => Err(e),
            Ok(items) => {
                let line = trim(lines.last());
                if line.len() == 0 {
                    Ok(items)
                } else {
                    match parse(lines.len(), line) {
                        Ok(x) => Ok(items.push(x)),
                        Err(e) => Err(e),
                    }
                }
            },
        }
    }
}

/// The lines of a text field.
pub open spec fn lines_of(text: Seq<char>) -> Seq<Seq<char>> {
    split_seq(text, '\n')
}

proof fn lemma_parsed_err_sticks<T>(
    lines: Seq<Seq<char>>,
    i: int,
    parse: spec_fn(nat, Seq<char>) -> Result<T, Seq<char>>,
)
    requires
        0 <= i <= lines.len(),
        parsed_lines(lines.take(i), parse) is Err,
    ensures
        parsed_lines(lines, parse) == parsed_lines(lines.take(i), parse),
    decreases lines.len() - i,
{
    if i < lines.len() {
        assert(lines.take(i + 1).drop_last() == lines.take(i));
        lemma_parsed_err_sticks(lines, i + 1, parse);
    } else {
        assert(lines.take(i) == lines);
    }
}

proof fn lemma_parsed_step<T>(
    lines: Seq<Seq<char>>,
    i: int,
    parse: spec_fn(nat, Seq<char>) -> Result<T, Seq<char>>,
)
    requires
        0 <= i < lines.len(),
    ensures
        lines.take(i + 1).drop_last() == lines.take(i),
        lines.take(i + 1).last() == lines[i],
        lines.take(i + 1).len() == i + 1,
{
}

/// A payload line `name:type[:required|optional]`, read into the field's
/// name, type and whether it is required.
pub open spec fn payload_line(n: nat, line: Seq<char>) -> Result<(Seq<char>, FieldType, bool), Seq<char>> {
    let parts = splitn_seq(line, 3, ':');
    if parts.len() < 2 {
        Err("payload line "@ + dec(n) + ": expected 'name:type' or 'name:type:required', got '"@
            + line + "'"@)
    } else {
        let name = trim(parts[0]);
        let type_str = trim(parts[1]);
        if name.len() == 0 {
            Err("payload line "@ + dec(n) + ": field name cannot be empty"@)
        } else {
            match field_type_named(type_str) {
                None => Err("payload line "@ + dec(n) + ": unknown type '"@ + type_str
                    + "' (expected string, number, boolean, object, or array)"@),
                Some(t) => if parts.len() == 3 {
                    let flag = trim(parts[2]);
                    if flag == "required"@ {
                        Ok((name, t, true))
                    } else if flag == "optional"@ || flag.len() == 0 {
                        Ok((name, t, false))
                    } else {
                        Err("payload line "@ + dec(n) + ": expected 'required' or 'optional', got '"@
                            + flag + "'"@)
                    }
                } else {
                    Ok((name, t, false))
                },
            }
        }
    }
}

/// The reader of payload lines.
pub open spec fn payload_reader() -> spec_fn(nat, Seq<char>) -> Result<(Seq<char>, FieldType, bool), Seq<char>> {
    |n: nat, line: Seq<char>| payload_line(n, line)
}

/// A payload field as name, type and whether it is required.
pub open spec fn field_view(f: PayloadField) -> (Seq<char>, FieldType, bool) {
    (f.name@, f.field_type, f.required)
}

/// The views of a list of payload fields.
pub open spec fn field_views(fs: Seq<PayloadField>) -> Seq<(Seq<char>, FieldType, bool)> {
    fs.map_values(|f: PayloadField| field_view(f))
}

fn line_message(prefix: &str, n: usize, tail: &str) -> (m: Vec<char>)
    ensures
        m@ == prefix@ + dec(n as nat) + tail@,
{
    let mut m: Vec<char> = Vec::new();
    extend_str(&mut m, prefix);
    push_dec(&mut m, n as u128);
    extend_str(&mut m, tail);
    m
}

fn payload_line_exec(n: usize, line: &[char]) -> (r: Result<PayloadField, String>)
    ensures
        r matches Ok(f) ==> payload_line(n as nat, line@) == Ok::<(Seq<char>, FieldType, bool), Seq<char>>(field_view(f)),
        r matches Err(e) ==> payload_line(n as nat, line@) == Err::<(Seq<char>, FieldType, bool), Seq<char>>(e@),
{
    let parts = splitn_chars(line, 3, ':');
    let ghost ps = views(parts@);
    if parts.len() < 2 {
        let mut m = line_message(
            "payload line ",
            n,
            ": expected 'name:type' or 'name:type:required', got '",
        );
        extend_chars(&mut m, line);
        extend_str(&mut m, "'");
        return Err(string_of(m.as_slice()));
    }
    assert(ps[0] == parts@[0]@ && ps[1] == parts@[1]@);
    let name = trim_chars(parts[0].as_slice());
    let type_str = trim_chars(parts[1].as_slice());
    if name.len() == 0 {
        let m = line_message("payload line ", n, ": field name cannot be empty");
        return Err(string_of(m.as_slice()));
    }
    let ts = string_of(type_str.as_slice());
    match FieldType::from_name(ts.as_str()) {
        None => {
            let mut m = line_message("payload line ", n, ": unknown type '");
            extend_chars(&mut m, type_str.as_slice());
            extend_str(&mut m, "' (expected string, number, boolean, object, or array)");
            Err(string_of(m.as_slice()))
        },
        Some(t) => {
            let required = if parts.len() == 3 {
                assert(ps[2] == parts@[2]@);
                let flag = trim_chars(parts[2].as_slice());
                if str_is("required", flag.as_slice()) {
                    true
                } else if str_is("optional", flag.as_slice()) || flag.len() == 0 {
                    false
                } else {
                    let mut m = line_message(
                        "payload line ",
                        n,
                        ": expected 'required' or 'optional', got '",
                    );
                    extend_chars(&mut m, flag.as_slice());
                    extend_str(&mut m, "'");
                    return Err(string_of(m.as_slice()));
                }
            } else {
                false
            };
            Ok(PayloadField { name: string_of(name.as_slice()), field_type: t, required })
        },
    }
}

/// The schema a payload text field defines: `None` when it has no field.
pub open spec fn payload_text_result(text: Seq<char>) -> Result<Seq<(Seq<char>, FieldType, bool)>, Seq<char>> {
    parsed_lines(lines_of(text), payload_reader())
}

/// Parse payload field definitions from textarea.
///
/// Each non-empty line is `name:type` or `name:type:required`.
/// The `:required` suffix marks the field as required; otherwise optional.
/// Returns `None` if the text is empty (no schema defined).
pub fn parse_payload_text(text: &str) -> (r: Result<Option<PayloadSchema>, String>)
    ensures
        r matches Err(e) ==> payload_text_result(text@) == Err::<Seq<(Seq<char>, FieldType, bool)>, Seq<char>>(e@),
        r matches Ok(o) ==> payload_text_result(text@) matches Ok(fs) && (o is None <==> fs.len() == 0)
            && (o matches Some(s) ==> field_views(s.fields@) == fs),
{
    let tc = chars_of(text);
    let lines = split_chars(tc.as_slice(), '\n');
    let ghost ls = views(lines@);
    let ghost reader = payload_reader();
    let mut fields: Vec<PayloadField> = Vec::new();
    assert(field_views(fields@) =~= Seq::<(Seq<char>, FieldType, bool)>::empty());
    let mut i: usize = 0;
    assert(ls.take(0) =~= Seq::<Seq<char>>::empty());
    assert(tc@ == text@);
    while i < lines.len()
        invariant
            ls == views(lines@),
            ls == lines_of(text@),
            reader == payload_reader(),
            i <= lines@.len(),
            parsed_lines(ls.take(i as int), reader) == Ok::<Seq<(Seq<char>, FieldType, bool)>, Seq<char>>(field_views(fields@)),
        decreases lines@.len() - i,
    {
        proof {
            lemma_parsed_step(ls, i as int, reader);
        }
        assert(ls[i as int] == lines@[i as int]@);
        let line = trim_chars(lines[i].as_slice());
        if line.len() > 0 {
            match payload_line_exec(i + 1, line.as_slice()) {
                Ok(f) => {
                    let ghost before = fields@;
                    fields.push(f);
                    assert(field_views(fields@) == field_views(before).push(field_view(f)));
                },
                Err(e) => {
                    proof {
                        lemma_parsed_err_sticks(ls, i + 1, reader);
                    }
                    return Err(e);
                },
            }
        }
        i = i + 1;
    }
    assert(ls.take(lines@.len() as int) == ls);
    if fields.len() == 0 {
        Ok(None)
    } else {
        Ok(Some(PayloadSchema { fields }))
    }
}

// ---------------------------------------------------------------------------
// Payload filters
// ---------------------------------------------------------------------------

/// A filter line `field:operator[:value]`, read into the field, the
/// operator and the value (none for `exists`).
pub open spec fn filter_line(n: nat, line: Seq<char>) -> Result<(Seq<char>, FilterOperator, Option<Seq<char>>), Seq<char>> {
    let parts = splitn_seq(line, 3, ':');
    if parts.len() < 2 {
        Err("filter line "@ + dec(n) + ": expected 'field:operator' or 'field:operator:value', got '"@
            + line + "'"@)
    } else {
        let field = trim(parts[0]);
        let op_str = trim(parts[1]);
        if field.len() == 0 {
            Err("filter line "@ + dec(n) + ": field name cannot be empty"@)
        } else {
            match filter_operator_named(op_str) {
                None => Err("filter line "@ + dec(n) + ": unknown operator '"@ + op_str
                    + "' (expected equals, not_equals, contains, regex, exists, gt, lt, gte, lte)"@),
                Some(op) => if op == FilterOperator::Exists {
                    Ok((field, op, None))
                } else if parts.len() == 3 {
                    let v = trim(parts[2]);
                    if v.len() == 0 {
                        Err("filter line "@ + dec(n) + ": value required for operator '"@ + op_str
                            + "'"@)
                    } else {
                        Ok((field, op, Some(v)))
                    }
                } else {
                    Err("filter line "@ + dec(n) + ": operator '"@ + op_str + "' requires a value"@)
                },
            }
        }
    }
}

/// The reader of filter lines.
pub open spec fn filter_reader() -> spec_fn(nat, Seq<char>) -> Result<(Seq<char>, FilterOperator, Option<Seq<char>>), Seq<char>> {
    |n: nat, line: Seq<char>| filter_line(n, line)
}

/// A payload filter as field, operator and value.
pub open spec fn filter_view(f: PayloadFilter) -> (Seq<char>, FilterOperator, Option<Seq<char>>) {
    (
        f.field@,
        f.operator,
        match f.value {
            Some(v) => Some(v@),
            None => None,
        },
    )
}

/// The views of a list of payload filters.
pub open spec fn filter_views(fs: Seq<PayloadFilter>) -> Seq<(Seq<char>, FilterOperator, Option<Seq<char>>)> {
    fs.map_values(|f: PayloadFilter| filter_view(f))
}

fn filter_line_exec(n: usize, line: &[char]) -> (r: Result<PayloadFilter, String>)
    ensures
        r matches Ok(f) ==> filter_line(n as nat, line@) == Ok::<(Seq<char>, FilterOperator, Option<Seq<char>>), Seq<char>>(filter_view(f)),
        r matches Err(e) ==> filter_line(n as nat, line@) == Err::<(Seq<char>, FilterOperator, Option<Seq<char>>), Seq<char>>(e@),
{
    let parts = splitn_chars(line, 3, ':');
    let ghost ps = views(parts@);
    if parts.len() < 2 {
        let mut m = line_message(
            "filter line ",
            n,
            ": expected 'field:operator' or 'field:operator:value', got '",
        );
        extend_chars(&mut m, line);
        extend_str(&mut m, "'");
        return Err(string_of(m.as_slice()));
    }
    assert(ps[0] == parts@[0]@ && ps[1] == parts@[1]@);
    let field = trim_chars(parts[0].as_slice());
    let op_str = trim_chars(parts[1].as_slice());
    if field.len() == 0 {
        let m = line_message("filter line ", n, ": field name cannot be empty");
        return Err(string_of(m.as_slice()));
    }
    match filter_operator_from_name(op_str.as_slice()) {
        None => {
            let mut m = line_message("filter line ", n, ": unknown operator '");
            extend_chars(&mut m, op_str.as_slice());
            extend_str(
                &mut m,
                "' (expected equals, not_equals, contains, regex, exists, gt, lt, gte, lte)",
            );
            Err(string_of(m.as_slice()))
        },
        Some(op) => {
            let value = if op == FilterOperator::Exists {
                None
            } else if parts.len() == 3 {
                assert(ps[2] == parts@[2]@);
                let v = trim_chars(parts[2].as_slice());
                if v.len() == 0 {
                    let mut m = line_message("filter line ", n, ": value required for operator '");
                    extend_chars(&mut m, op_str.as_slice());
                    extend_str(&mut m, "'");
                    return Err(string_of(m.as_slice()));
                }
                Some(string_of(v.as_slice()))
            } else {
                let mut m = line_message("filter line ", n, ": operator '");
                extend_chars(&mut m, op_str.as_slice());
                extend_str(&mut m, "' requires a value");
                return Err(string_of(m.as_slice()));
            };
            Ok(PayloadFilter { field: string_of(field.as_slice()), operator: op, value })
        },
    }
}

/// The filters a filter text field defines.
pub open spec fn filters_text_result(text: Seq<char>) -> Result<Seq<(Seq<char>, FilterOperator, Option<Seq<char>>)>, Seq<char>> {
    parsed_lines(lines_of(text), filter_reader())
}

/// Parse payload filter definitions from textarea.
///
/// Each non-empty line is `field:operator` or `field:operator:value`.
/// The `exists` operator does not require a value.
pub fn parse_filters_text(text: &str) -> (r: Result<Option<Vec<PayloadFilter>>, String>)
    ensures
        r matches Err(e) ==> filters_text_result(text@) == Err::<Seq<(Seq<char>, FilterOperator, Option<Seq<char>>)>, Seq<char>>(e@),
        r matches Ok(o) ==> filters_text_result(text@) matches Ok(fs) && (o is None <==> fs.len() == 0)
            && (o matches Some(v) ==> filter_views(v@) == fs),
{
    let tc = chars_of(text);
    let lines = split_chars(tc.as_slice(), '\n');
    let ghost ls = views(lines@);
    let ghost reader = filter_reader();
    let mut filters: Vec<PayloadFilter> = Vec::new();
    assert(filter_views(filters@) =~= Seq::<(Seq<char>, FilterOperator, Option<Seq<char>>)>::empty());
    let mut i: usize = 0;
    assert(ls.take(0) =~= Seq::<Seq<char>>::empty());
    assert(tc@ == text@);
    while i < lines.len()
        invariant
            ls == views(lines@),
            ls == lines_of(text@),
            reader == filter_reader(),
            i <= lines@.len(),
            parsed_lines(ls.take(i as int), reader) == Ok::<Seq<(Seq<char>, FilterOperator, Option<Seq<char>>)>, Seq<char>>(filter_views(filters@)),
        decreases lines@.len() - i,
    {
        proof {
            lemma_parsed_step(ls, i as int, reader);
        }
        assert(ls[i as int] == lines@[i as int]@);
        let line = trim_chars(lines[i].as_slice());
        if line.len() > 0 {
            match filter_line_exec(i + 1, line.as_slice()) {
                Ok(f) => {
                    let ghost before = filters@;
                    filters.push(f);
                    assert(filter_views(filters@) == filter_views(before).push(filter_view(f)));
                },
                Err(e) => {
                    proof {
                        lemma_parsed_err_sticks(ls, i + 1, reader);
                    }
                    return Err(e);
                },
            }
        }
        i = i + 1;
    }
    assert(ls.take(lines@.len() as int) == ls);
    if filters.len() == 0 {
        Ok(None)
    } else {
        Ok(Some(filters))
    }
}

// ---------------------------------------------------------------------------
// Time windows
// ---------------------------------------------------------------------------

/// The non-empty trimmed pieces, in order.
pub open spec fn day_list(pieces: Seq<Seq<char>>) -> Seq<Seq<char>>
    decreases pieces.len(),
{
    if pieces.len() == 0 {
        seq![]
    } else {
        let rest = day_list(pieces.drop_last());
        let d = trim(pieces.last());
        if d.len() == 0 {
            rest
        } else {
            rest.push(d)
        }
    }
}

/// The time range `HH:MM-HH:MM` of a window line, read into start and end.
pub open spec fn window_times(n: nat, time: Seq<char>) -> Result<(Seq<char>, Seq<char>), Seq<char>> {
    match find_first(time, '-') {
        None => Err("window line "@ + dec(n) + ": expected time range 'HH:MM-HH:MM', got '"@ + time
            + "'"@),
        Some(d) => {
            let start = trim(time.subrange(0, d));
            let end = trim(time.subrange(d + 1, time.len() as int));
            if start.len() == 0 || end.len() == 0 {
                Err("window line "@ + dec(n) + ": start and end times must not be empty"@)
            } else {
                Ok((start, end))
            }
        },
    }
}

/// A window line `Days:HH:MM-HH:MM`, read into its days, start and end.
pub open spec fn window_line(n: nat, line: Seq<char>) -> Result<(Seq<Seq<char>>, Seq<char>, Seq<char>), Seq<char>> {
    match find_first(line, ':') {
        None => Err("window line "@ + dec(n) + ": expected 'Days:HH:MM-HH:MM', got '"@ + line + "'"@),
        Some(c) => {
            let days = day_list(split_seq(line.subrange(0, c), ','));
            if days.len() == 0 {
                Err("window line "@ + dec(n) + ": at least one day is required"@)
            } else {
                match window_times(n, line.subrange(c + 1, line.len() as int)) {
                    Err(e) => Err(e),
                    Ok((start, end)) => Ok((days, start, end)),
                }
            }
        },
    }
}

/// The reader of window lines.
pub open spec fn window_reader() -> spec_fn(nat, Seq<char>) -> Result<(Seq<Seq<char>>, Seq<char>, Seq<char>), Seq<char>> {
    |n: nat, line: Seq<char>| window_line(n, line)
}

/// A time window as days, start and end.
pub open spec fn window_view(w: TimeWindow) -> (Seq<Seq<char>>, Seq<char>, Seq<char>) {
    (string_views(w.days@), w.start_time@, w.end_time@)
}

/// The views of a list of time windows.
pub open spec fn window_views(ws: Seq<TimeWindow>) -> Seq<(Seq<Seq<char>>, Seq<char>, Seq<char>)> {
    ws.map_values(|w: TimeWindow| window_view(w))
}

fn day_list_exec(pieces: &Vec<Vec<char>>) -> (r: Vec<String>)
    ensures
        string_views(r@) == day_list(views(pieces@)),
{
    let ghost ps = views(pieces@);
    let mut days: Vec<String> = Vec::new();
    let mut k: usize = 0;
    while k < pieces.len()
        invariant
            ps == views(pieces@),
            k <= pieces@.len(),
            string_views(days@) == day_list(ps.take(k as int)),
        decreases pieces@.len() - k,
    {
        assert(ps.take(k + 1).drop_last() == ps.take(k as int));
        assert(ps.take(k + 1).last() == pieces@[k as int]@);
        let d = trim_chars(pieces[k].as_slice());
        if d.len() > 0 {
            let ghost before = days@;
            days.push(string_of(d.as_slice()));
            assert(string_views(days@) == string_views(before).push(d@));
        }
        k = k + 1;
    }
    assert(ps.take(pieces@.len() as int) == ps);
    days
}

fn window_times_exec(n: usize, time: &[char]) -> (r: Result<(String, String), String>)
    ensures
        r matches Ok((a, b)) ==> (window_times(n as nat, time@) matches Ok((x, y)) && x == a@ && y == b@),
        r matches Err(e) ==> (window_times(n as nat, time@) matches Err(m) && m == e@),
{
    match find_char(time, '-') {
        None => {
            let mut m = line_message("window line ", n, ": expected time range 'HH:MM-HH:MM', got '");
            extend_chars(&mut m, time);
            extend_str(&mut m, "'");
            Err(string_of(m.as_slice()))
        },
        Some(d) => {
            let tl = time.len();
            assert(d < tl);
            let start_part = sub_chars(time, 0, d);
            let end_part = sub_chars(time, d + 1, time.len());
            let start = trim_chars(start_part.as_slice());
            let end = trim_chars(end_part.as_slice());
            if start.len() == 0 || end.len() == 0 {
                let m = line_message("window line ", n, ": start and end times must not be empty");
                return Err(string_of(m.as_slice()));
            }
            Ok((string_of(start.as_slice()), string_of(end.as_slice())))
        },
    }
}

fn window_line_exec(n: usize, line: &[char]) -> (r: Result<TimeWindow, String>)
    ensures
        r matches Ok(w) ==> window_line(n as nat, line@) == Ok::<(Seq<Seq<char>>, Seq<char>, Seq<char>), Seq<char>>(window_view(w)),
        r matches Err(e) ==> window_line(n as nat, line@) == Err::<(Seq<Seq<char>>, Seq<char>, Seq<char>), Seq<char>>(e@),
{
    match find_char(line, ':') {
        None => {
            let mut m = line_message("window line ", n, ": expected 'Days:HH:MM-HH:MM', got '");
            extend_chars(&mut m, line);
            extend_str(&mut m, "'");
            Err(string_of(m.as_slice()))
        },
        Some(c) => {
            let ll = line.len();
            assert(c < ll);
            let days_part = sub_chars(line, 0, c);
            let pieces = split_chars(days_part.as_slice(), ',');
            let days = day_list_exec(&pieces);
            if days.len() == 0 {
                let m = line_message("window line ", n, ": at least one day is required");
                return Err(string_of(m.as_slice()));
            }
            let time = sub_chars(line, c + 1, line.len());
            match window_times_exec(n, time.as_slice()) {
                Err(e) => Err(e),
                Ok((start_time, end_time)) => Ok(TimeWindow { days, start_time, end_time }),
            }
        },
    }
}

/// The windows a window text field defines.
pub open spec fn windows_text_result(text: Seq<char>) -> Result<Seq<(Seq<Seq<char>>, Seq<char>, Seq<char>)>, Seq<char>> {
    parsed_lines(lines_of(text), window_reader())
}

/// Parse time window definitions from textarea.
///
/// Each non-empty line is `Mon,Tue,Wed:09:00-17:00`.
/// Days are comma-separated, followed by `:`, then `HH:MM-HH:MM`.
#[verifier::rlimit(40)]
pub fn parse_windows_text(text: &str) -> (r: Result<Option<Vec<TimeWindow>>, String>)
    ensures
        r matches Err(e) ==> windows_text_result(text@) == Err::<Seq<(Seq<Seq<char>>, Seq<char>, Seq<char>)>, Seq<char>>(e@),
        r matches Ok(o) ==> windows_text_result(text@) matches Ok(ws) && (o is None <==> ws.len() == 0)
            && (o matches Some(v) ==> window_views(v@) == ws),
{
    let tc = chars_of(text);
    let lines = split_chars(tc.as_slice(), '\n');
    let ghost ls = views(lines@);
    let ghost reader = window_reader();
    let mut windows: Vec<TimeWindow> = Vec::new();
    assert(window_views(windows@) =~= Seq::<(Seq<Seq<char>>, Seq<char>, Seq<char>)>::empty());
    let mut i: usize = 0;
    assert(ls.take(0) =~= Seq::<Seq<char>>::empty());
    assert(tc@ == text@);
    while i < lines.len()
        invariant
            ls == views(lines@),
            ls == lines_of(text@),
            reader == window_reader(),
            i <= lines@.len(),
            parsed_lines(ls.take(i as int), reader) == Ok::<Seq<(Seq<Seq<char>>, Seq<char>, Seq<char>)>, Seq<char>>(window_views(windows@)),
        decreases lines@.len() - i,
    {
        proof {
            lemma_parsed_step(ls, i as int, reader);
        }
        assert(ls[i as int] == lines@[i as int]@);
        let line = trim_chars(lines[i].as_slice());
        if line.len() > 0 {
            match window_line_exec(i + 1, line.as_slice()) {
                Ok(w) => {
                    let ghost before = windows@;
                    let ghost wv = window_view(w);
                    windows.push(w);
                    assert(window_views(windows@) == window_views(before).push(wv));
                },
                Err(e) => {
                    proof {
                        lemma_parsed_err_sticks(ls, i + 1, reader);
                    }
                    return Err(e);
                },
            }
        }
        i = i + 1;
    }
    assert(ls.take(lines@.len() as int) == ls);
    if windows.len() == 0 {
        Ok(None)
    } else {
        Ok(Some(windows))
    }
}

// ---------------------------------------------------------------------------
// Unsigned integers
// ---------------------------------------------------------------------------

/// Whether `c` is an ASCII decimal digit.
pub open spec fn is_digit(c: char) -> bool {
    '0' <= c && c <= '9'
}

/// The value of a string of decimal digits.
pub open spec fn digits_value(s: Seq<char>) -> nat
    decreases s.len(),
{
    if s.len() == 0 {
        0
    } else {
        digits_value(s.drop_last()) * 10 + ((s.last() as int) - ('0' as int)) as nat
    }
}

/// The digits of an unsigned number: the text without one leading `+`.
pub open spec fn unsigned_digits(s: Seq<char>) -> Seq<char> {
    if s.len() > 0 && s[0] == '+' {
        s.drop_first()
    } else {
        s
    }
}

/// Whether every character of `d` is a decimal digit.
pub open spec fn all_digits(d: Seq<char>) -> bool {
    forall|i: int| 0 <= i < d.len() ==> is_digit(#[trigger] d[i])
}

/// The value `str::parse` reads from `s` for an unsigned integer type of
/// unbounded width: an optional `+` then at least one decimal digit.
pub open spec fn unsigned_value(s: Seq<char>) -> Option<nat> {
    let d = unsigned_digits(s);
    if d.len() > 0 && all_digits(d) {
        Some(digits_value(d))
    } else {
        None
    }
}

/// What `str::parse` gives for an unsigned integer type whose largest value
/// is `max`.
pub open spec fn parsed_unsigned(s: Seq<char>, max: nat) -> Option<nat> {
    match unsigned_value(s) {
        Some(v) => if v <= max {
            Some(v)
        } else {
            None
        },
        None => None,
    }
}

proof fn lemma_digits_prefix(d: Seq<char>, k: int)
    requires
        0 <= k <= d.len(),
    ensures
        digits_value(d.take(k)) <= digits_value(d),
    decreases d.len(),
{
    if k < d.len() {
        assert(d.drop_last().take(k) == d.take(k));
        lemma_digits_prefix(d.drop_last(), k);
    } else {
        assert(d.take(k) == d);
    }
}

/// Reads an unsigned integer of at most `max` from `s`, as `str::parse`
/// does for the unsigned type whose largest value is `max`.
pub fn parse_unsigned(s: &[char], max: u128) -> (r: Option<u128>)
    requires
        max <= u64::MAX,
    ensures
        r matches Some(v) ==> parsed_unsigned(s@, max as nat) == Some(v as nat),
        r is None ==> parsed_unsigned(s@, max as nat) is None,
{
    let n = s.len();
    let start: usize = if n > 0 && s[0] == '+' { 1 } else { 0 };
    let ghost d = unsigned_digits(s@);
    assert(d == s@.subrange(start as int, n as int));
    if start >= n {
        return None;
    }
    let mut acc: u128 = 0;
    let mut i: usize = start;
    while i < n
        invariant
            start <= i <= n,
            n == s@.len(),
            start < n,
            max <= u64::MAX,
            d == unsigned_digits(s@),
            d == s@.subrange(start as int, n as int),
            forall|j: int| 0 <= j < i - start ==> is_digit(#[trigger] d[j]),
            acc == digits_value(d.take(i - start)),
            acc <= max,
        decreases n - i,
    {
        let c = s[i];
        assert(d[i - start] == c);
        if !('0' <= c && c <= '9') {
            assert(!is_digit(d[i - start]));
            assert(!all_digits(d));
            return None;
        }
        let digit: u128 = (c as u32 - '0' as u32) as u128;
        assert(d.take(i - start + 1).drop_last() == d.take(i - start));
        assert(d.take(i - start + 1).last() == c);
        assert(digit == (c as int) - ('0' as int));
        assert(digits_value(d.take(i - start + 1)) == acc * 10 + digit);
        let next = acc * 10 + digit;
        if next > max {
            proof {
                lemma_digits_prefix(d, i - start + 1);
                assert(digits_value(d) > max);
            }
            return None;
        }
        acc = next;
        i = i + 1;
    }
    assert(d.take(n - start) == d);
    Some(acc)
}

// ---------------------------------------------------------------------------
// The whole form
// ---------------------------------------------------------------------------

/// Raw form data from the hook create/edit form.
///
/// Environment variables arrive as a single textarea (`env_text`) with one
/// `KEY=value` pair per line.
#[derive(Debug)]
pub struct HookForm {
    pub name: String,
    pub slug: String,
    pub description: String,
    /// Checkbox: present with value "true" when checked, absent when unchecked.
    pub enabled: Option<String>,
    pub command: String,
    pub cwd: String,
    pub timeout: String,
    /// One `KEY=value` pair per line.
    pub env_text: String,
    pub retry_count: Option<String>,
    pub retry_backoff: Option<String>,
    pub retry_initial_delay: Option<String>,
    pub retry_max_delay: Option<String>,
    pub auth_mode: Option<String>,
    pub auth_token: Option<String>,
    pub auth_header: Option<String>,
    pub auth_algorithm: Option<String>,
    pub auth_secret: Option<String>,
    /// One field per line: name:type[:required]
    pub payload_text: String,
    /// Trigger rules: payload filters as "field:operator:value" per line
    pub trigger_filters_text: String,
    /// Trigger rules: time windows as "Mon,Tue:09:00-17:00" per line
    pub trigger_windows_text: String,
    /// Trigger rules: cooldown duration string (e.g. "5m")
    pub trigger_cooldown: String,
    /// Trigger rules: rate limit max_requests count
    pub trigger_rate_max: Option<String>,
    /// Trigger rules: rate limit window duration string (e.g. "1h")
    pub trigger_rate_window: String,
}

/// The text of an optional form field, or `default` when it is absent.
pub open spec fn opt_text(o: Option<String>, default: Seq<char>) -> Seq<char> {
    match o {
        Some(s) => s@,
        None => default,
    }
}

fn opt_str<'a>(o: &'a Option<String>, default: &'a str) -> (r: &'a str)
    ensures
        r@ == opt_text(*o, default@),
{
    match o {
        Some(s) => s.as_str(),
        None => default,
    }
}

/// The views of `(name, value)` pairs.
pub open spec fn pair_views(v: Seq<(String, String)>) -> Seq<(Seq<char>, Seq<char>)> {
    v.map_values(|p: (String, String)| (p.0@, p.1@))
}

/// `env` with `key` set to `value`: in place if `key` is there, else added
/// at the end.
pub open spec fn env_insert(env: Seq<(Seq<char>, Seq<char>)>, key: Seq<char>, value: Seq<char>) -> Seq<(Seq<char>, Seq<char>)>
    decreases env.len(),
{
    if env.len() == 0 {
        seq![(key, value)]
    } else if env[0].0 == key {
        env.update(0, (key, value))
    } else {
        seq![env[0]] + env_insert(env.drop_first(), key, value)
    }
}

/// `env` after one line of the environment field: a trimmed `KEY=value`
/// line with a non-empty trimmed key sets it; other lines are ignored.
pub open spec fn env_line(env: Seq<(Seq<char>, Seq<char>)>, line: Seq<char>) -> Seq<(Seq<char>, Seq<char>)> {
    let t = trim(line);
    match find_first(t, '=') {
        None => env,
        Some(i) => {
            let key = trim(t.subrange(0, i));
            if key.len() == 0 {
                env
            } else {
                env_insert(env, key, t.subrange(i + 1, t.len() as int))
            }
        },
    }
}

/// The variables set by the lines of the environment field, in order.
pub open spec fn env_from_lines(lines: Seq<Seq<char>>) -> Seq<(Seq<char>, Seq<char>)>
    decreases lines.len(),
{
    if lines.len() == 0 {
        seq![]
    } else {
        env_line(env_from_lines(lines.drop_last()), lines.last())
    }
}

fn env_set(env: &mut Vec<(String, String)>, key: String, value: String)
    ensures
        pair_views(final(env)@) == env_insert(pair_views(old(env)@), key@, value@),
{
    let ghost ev = pair_views(env@);
    let mut i: usize = 0;
    assert(ev.skip(0) == ev);
    assert(ev.take(0) + ev == ev);
    while i < env.len()
        invariant
            i <= env@.len(),
            env@ == old(env)@,
            ev == pair_views(env@),
            env_insert(ev, key@, value@) == ev.take(i as int) + env_insert(ev.skip(i as int), key@, value@),
        decreases env@.len() - i,
    {
        assert(ev[i as int] == (env@[i as int].0@, env@[i as int].1@));
        if env[i].0 == key {
            proof {
                let rest = ev.skip(i as int);
                assert(rest[0].0 == key@);
                assert(env_insert(rest, key@, value@) == rest.update(0, (key@, value@)));
            }
            env.set(i, (key, value));
            proof {
                assert(pair_views(env@) == ev.update(i as int, (key@, value@)));
                assert(ev.take(i as int) + ev.skip(i as int).update(0, (key@, value@)) == ev.update(
                    i as int,
                    (key@, value@),
                ));
            }
            return;
        }
        proof {
            let rest = ev.skip(i as int);
            assert(rest[0] == ev[i as int]);
            assert(rest.drop_first() == ev.skip(i + 1));
            assert(ev.take(i + 1) == ev.take(i as int) + seq![ev[i as int]]);
        }
        i = i + 1;
    }
    assert(ev.skip(i as int) =~= Seq::<(Seq<char>, Seq<char>)>::empty());
    assert(ev.take(i as int) == ev);
    let ghost before = env@;
    env.push((key, value));
    assert(pair_views(env@) == pair_views(before).push((key@, value@)));
}

/// Reads the environment field: one `KEY=value` pair per line.
pub fn parse_env_text(text: &str) -> (env: Vec<(String, String)>)
    ensures
        pair_views(env@) == env_from_lines(lines_of(text@)),
{
    let tc = chars_of(text);
    let lines = split_chars(tc.as_slice(), '\n');
    let ghost ls = views(lines@);
    let mut env: Vec<(String, String)> = Vec::new();
    let mut i: usize = 0;
    assert(ls.take(0) =~= Seq::<Seq<char>>::empty());
    assert(pair_views(env@) =~= Seq::<(Seq<char>, Seq<char>)>::empty());
    while i < lines.len()
        invariant
            ls == views(lines@),
            ls == lines_of(text@),
            i <= lines@.len(),
            pair_views(env@) == env_from_lines(ls.take(i as int)),
        decreases lines@.len() - i,
    {
        assert(ls.take(i + 1).drop_last() == ls.take(i as int));
        assert(ls.take(i + 1).last() == lines@[i as int]@);
        let t = trim_chars(lines[i].as_slice());
        match find_char(t.as_slice(), '=') {
            None => {},
            Some(k) => {
                let tl = t.len();
                assert(k < tl);
                let key_part = sub_chars(t.as_slice(), 0, k);
                let key = trim_chars(key_part.as_slice());
                if key.len() > 0 {
                    let value = sub_chars(t.as_slice(), k + 1, tl);
                    env_set(&mut env, string_of(key.as_slice()), string_of(value.as_slice()));
                }
            },
        }
        i = i + 1;
    }
    assert(ls.take(lines@.len() as int) == ls);
    env
}

/// The retry count the form asks for; an unreadable count means none.
pub open spec fn retry_count_value(form: HookForm) -> nat {
    match parsed_unsigned(trim(opt_text(form.retry_count, ""@)), u32::MAX as nat) {
        Some(v) => v,
        None => 0,
    }
}

/// The backoff strategy with the given form name: anything other than
/// `none` and `linear` is exponential.
pub open spec fn backoff_named(s: Seq<char>) -> BackoffStrategy {
    if s == "none"@ {
        BackoffStrategy::NoDelay
    } else if s == "linear"@ {
        BackoffStrategy::Linear
    } else {
        BackoffStrategy::Exponential
    }
}

/// The retry settings of the form: none when the count is zero, else the
/// count, backoff and delays (one second and one minute when left empty).
pub open spec fn retries_part(form: HookForm) -> Result<Option<RetryFormData>, Seq<char>> {
    let count = retry_count_value(form);
    if count == 0 {
        Ok(None)
    } else {
        match duration_field(opt_text(form.retry_initial_delay, ""@)) {
            Err(e) => Err(e),
            Ok(initial) => match duration_field(opt_text(form.retry_max_delay, ""@)) {
                Err(e) => Err(e),
                Ok(max) => Ok(
                    Some(
                        RetryFormData {
                            count: count as u32,
                            backoff: backoff_named(opt_text(form.retry_backoff, "exponential"@)),
                            initial_delay: match initial {
                                Some(d) => d,
                                None => NANOS_PER_SEC,
                            },
                            max_delay: match max {
                                Some(d) => d,
                                None => (60 * NANOS_PER_SEC) as u128,
                            },
                        },
                    ),
                ),
            },
        }
    }
}

fn parse_retries(form: &HookForm) -> (r: Result<Option<RetryFormData>, String>)
    ensures
        r matches Ok(v) ==> retries_part(*form) == Ok::<Option<RetryFormData>, Seq<char>>(v),
        r matches Err(e) ==> retries_part(*form) == Err::<Option<RetryFormData>, Seq<char>>(e@),
{
    let count_text = trim_str(opt_str(&form.retry_count, ""));
    let count: u128 = match parse_unsigned(count_text.as_slice(), 4294967295) {
        Some(v) => v,
        None => 0,
    };
    if count == 0 {
        return Ok(None);
    }
    let mode = chars_of(opt_str(&form.retry_backoff, "exponential"));
    let backoff = if str_is("none", mode.as_slice()) {
        BackoffStrategy::NoDelay
    } else if str_is("linear", mode.as_slice()) {
        BackoffStrategy::Linear
    } else {
        BackoffStrategy::Exponential
    };
    let initial_delay = match parse_duration_field(opt_str(&form.retry_initial_delay, "")) {
        Err(e) => return Err(e),
        Ok(Some(d)) => d,
        Ok(None) => NANOS_PER_SEC,
    };
    let max_delay = match parse_duration_field(opt_str(&form.retry_max_delay, "")) {
        Err(e) => return Err(e),
        Ok(Some(d)) => d,
        Ok(None) => 60 * NANOS_PER_SEC,
    };
    Ok(Some(RetryFormData { count: count as u32, backoff, initial_delay, max_delay }))
}

/// The error the authentication settings of the form give, if any.
pub open spec fn auth_error(form: HookForm) -> Option<Seq<char>> {
    let mode = opt_text(form.auth_mode, "none"@);
    if mode == "bearer"@ {
        if trim(opt_text(form.auth_token, ""@)).len() == 0 {
            Some("auth token must be non-empty for bearer mode"@)
        } else {
            None
        }
    } else if mode == "hmac"@ {
        let header = trim(opt_text(form.auth_header, ""@));
        let secret = trim(opt_text(form.auth_secret, ""@));
        let algorithm = opt_text(form.auth_algorithm, "sha256"@);
        if header.len() == 0 {
            Some("auth header must be non-empty for HMAC mode"@)
        } else if secret.len() == 0 {
            Some("auth secret must be non-empty for HMAC mode"@)
        } else if algorithm != "sha256"@ {
            Some("unsupported HMAC algorithm: "@ + algorithm)
        } else {
            None
        }
    } else {
        None
    }
}

/// Whether `auth` is what the form's authentication settings describe:
/// a bearer token, an HMAC header and secret, or no authentication.
pub open spec fn auth_built(form: HookForm, auth: Option<HookAuthConfig>) -> bool {
    let mode = opt_text(form.auth_mode, "none"@);
    if mode == "bearer"@ {
        auth matches Some(HookAuthConfig::Bearer { token }) && token@ == trim(
            opt_text(form.auth_token, ""@),
        )
    } else if mode == "hmac"@ {
        &&& auth matches Some(HookAuthConfig::Hmac { header, algorithm, secret })
        &&& header@ == trim(opt_text(form.auth_header, ""@))
        &&& algorithm == HmacAlgorithm::Sha256
        &&& secret@ == trim(opt_text(form.auth_secret, ""@))
    } else {
        auth is None
    }
}

fn parse_auth(form: &HookForm) -> (r: Result<Option<HookAuthConfig>, String>)
    ensures
        r matches Ok(a) ==> auth_error(*form) is None && auth_built(*form, a),
        r matches Err(e) ==> auth_error(*form) == Some(e@),
{
    let mode = chars_of(opt_str(&form.auth_mode, "none"));
    if str_is("bearer", mode.as_slice()) {
        let token = trim_str(opt_str(&form.auth_token, ""));
        if token.len() == 0 {
            return Err("auth token must be non-empty for bearer mode".to_owned());
        }
        Ok(Some(HookAuthConfig::Bearer { token: string_of(token.as_slice()) }))
    } else if str_is("hmac", mode.as_slice()) {
        let header = trim_str(opt_str(&form.auth_header, ""));
        let secret = trim_str(opt_str(&form.auth_secret, ""));
        if header.len() == 0 {
            return Err("auth header must be non-empty for HMAC mode".to_owned());
        }
        if secret.len() == 0 {
            return Err("auth secret must be non-empty for HMAC mode".to_owned());
        }
        let algorithm = opt_str(&form.auth_algorithm, "sha256");
        let ac = chars_of(algorithm);
        if !str_is("sha256", ac.as_slice()) {
            let mut m: Vec<char> = Vec::new();
            extend_str(&mut m, "unsupported HMAC algorithm: ");
            extend_str(&mut m, algorithm);
            return Err(string_of(m.as_slice()));
        }
        Ok(
            Some(
                HookAuthConfig::Hmac {
                    header: string_of(header.as_slice()),
                    algorithm: HmacAlgorithm::Sha256,
                    secret: string_of(secret.as_slice()),
                },
            ),
        )
    } else {
        Ok(None)
    }
}

/// The rate limit of the form: set when the maximum is a positive number
/// and the window is not empty.
pub open spec fn rate_part(form: HookForm) -> Result<Option<TriggerRateLimit>, Seq<char>> {
    let max = match parsed_unsigned(trim(opt_text(form.trigger_rate_max, ""@)), u64::MAX as nat) {
        Some(v) => v,
        None => 0,
    };
    let window = trim(form.trigger_rate_window@);
    if max > 0 && window.len() > 0 {
        match duration_field(window) {
            Err(e) => Err(e),
            Ok(None) => Err("trigger rate window must be a valid duration"@),
            Ok(Some(d)) => Ok(Some(TriggerRateLimit { max_requests: max as u64, window: d })),
        }
    } else {
        Ok(None)
    }
}

fn parse_rate_limit(form: &HookForm) -> (r: Result<Option<TriggerRateLimit>, String>)
    ensures
        r matches Ok(v) ==> rate_part(*form) == Ok::<Option<TriggerRateLimit>, Seq<char>>(v),
        r matches Err(e) ==> rate_part(*form) == Err::<Option<TriggerRateLimit>, Seq<char>>(e@),
{
    let max_text = trim_str(opt_str(&form.trigger_rate_max, ""));
    let max: u128 = match parse_unsigned(max_text.as_slice(), 18446744073709551615) {
        Some(v) => v,
        None => 0,
    };
    let window = trim_str(form.trigger_rate_window.as_str());
    if max > 0 && window.len() > 0 {
        let ws = string_of(window.as_slice());
        match parse_duration_field(ws.as_str()) {
            Err(e) => Err(e),
            Ok(None) => Err("trigger rate window must be a valid duration".to_owned()),
            Ok(Some(d)) => Ok(Some(TriggerRateLimit { max_requests: max as u64, window: d })),
        }
    } else {
        Ok(None)
    }
}

/// The first error in the form, taking its parts in order: timeout,
/// retries, authentication, payload, filters, windows, cooldown, rate limit.
pub open spec fn hook_form_error(form: HookForm) -> Option<Seq<char>> {
    if let Err(e) = duration_field(form.timeout@) {
        Some(e)
    } else if let Err(e) = retries_part(form) {
        Some(e)
    } else if let Some(e) = auth_error(form) {
        Some(e)
    } else if let Err(e) = payload_text_result(form.payload_text@) {
        Some(e)
    } else if let Err(e) = filters_text_result(form.trigger_filters_text@) {
        Some(e)
    } else if let Err(e) = windows_text_result(form.trigger_windows_text@) {
        Some(e)
    } else if let Err(e) = duration_field(trim(form.trigger_cooldown@)) {
        Some(e)
    } else if let Err(e) = rate_part(form) {
        Some(e)
    } else {
        None
    }
}

/// Whether `p` is the schema the payload field of the form defines.
pub open spec fn payload_built(form: HookForm, p: Option<PayloadSchema>) -> bool {
    payload_text_result(form.payload_text@) matches Ok(fs) && (p is None <==> fs.len() == 0) && (
    p matches Some(s) ==> field_views(s.fields@) == fs)
}

/// Whether `o` is what the filter field of the form defines.
pub open spec fn filters_built(form: HookForm, o: Option<Vec<PayloadFilter>>) -> bool {
    filters_text_result(form.trigger_filters_text@) matches Ok(fs) && (o is None <==> fs.len() == 0)
        && (o matches Some(v) ==> filter_views(v@) == fs)
}

/// Whether `o` is what the window field of the form defines.
pub open spec fn windows_built(form: HookForm, o: Option<Vec<TimeWindow>>) -> bool {
    windows_text_result(form.trigger_windows_text@) matches Ok(ws) && (o is None <==> ws.len() == 0)
        && (o matches Some(v) ==> window_views(v@) == ws)
}

/// Whether `rules` are the trigger rules the form describes: none when it
/// sets no filter, window, cooldown or rate limit.
pub open spec fn rules_built(form: HookForm, rules: Option<TriggerRules>) -> bool {
    let cooldown = duration_field(trim(form.trigger_cooldown@));
    let rate = rate_part(form);
    match rules {
        None => {
            &&& filters_built(form, None)
            &&& windows_built(form, None)
            &&& cooldown == Ok::<Option<u128>, Seq<char>>(None)
            &&& rate == Ok::<Option<TriggerRateLimit>, Seq<char>>(None)
        },
        Some(r) => {
            &&& filters_built(form, r.payload_filters)
            &&& windows_built(form, r.time_windows)
            &&& cooldown == Ok::<Option<u128>, Seq<char>>(r.cooldown)
            &&& rate == Ok::<Option<TriggerRateLimit>, Seq<char>>(r.rate_limit)
            &&& (r.payload_filters is Some || r.time_windows is Some || r.cooldown is Some
                || r.rate_limit is Some)
        },
    }
}

/// Convert raw form data into `HookFormData` used by ConfigWriter.
pub fn parse_hook_form(form: &HookForm) -> (r: Result<HookFormData, String>)
    ensures
        r matches Err(e) ==> hook_form_error(*form) == Some(e@),
        r is Ok ==> hook_form_error(*form) is None,
        r matches Ok(d) ==> {
            &&& d.name@ == trim(form.name@)
            &&& d.slug@ == trim(form.slug@)
            &&& d.description@ == trim(form.description@)
            &&& d.enabled == form.enabled is Some
            &&& d.command@ == trim(form.command@)
            &&& (d.cwd is None <==> trim(form.cwd@).len() == 0)
            &&& (d.cwd matches Some(c) ==> c@ == trim(form.cwd@))
            &&& pair_views(d.env@) == env_from_lines(lines_of(form.env_text@))
            &&& duration_field(form.timeout@) == Ok::<Option<u128>, Seq<char>>(d.timeout)
            &&& retries_part(*form) == Ok::<Option<RetryFormData>, Seq<char>>(d.retries)
            &&& auth_built(*form, d.auth)
            &&& payload_built(*form, d.payload)
            &&& rules_built(*form, d.trigger_rules)
        },
{
    let timeout = match parse_duration_field(form.timeout.as_str()) {
        Ok(t) => t,
        Err(e) => return Err(e),
    };
    let env = parse_env_text(form.env_text.as_str());
    let retries = match parse_retries(form) {
        Ok(r) => r,
        Err(e) => return Err(e),
    };
    let cwd_text = trim_str(form.cwd.as_str());
    let cwd = if cwd_text.len() == 0 {
        None
    } else {
        Some(string_of(cwd_text.as_slice()))
    };
    let auth = match parse_auth(form) {
        Ok(a) => a,
        Err(e) => return Err(e),
    };
    let payload = match parse_payload_text(form.payload_text.as_str()) {
        Ok(p) => p,
        Err(e) => return Err(e),
    };
    let payload_filters = match parse_filters_text(form.trigger_filters_text.as_str()) {
        Ok(f) => f,
        Err(e) => return Err(e),
    };
    let time_windows = match parse_windows_text(form.trigger_windows_text.as_str()) {
        Ok(w) => w,
        Err(e) => return Err(e),
    };
    let cooldown_text = string_of(trim_str(form.trigger_cooldown.as_str()).as_slice());
    let cooldown = match parse_duration_field(cooldown_text.as_str()) {
        Ok(c) => c,
        Err(e) => return Err(e),
    };
    let rate_limit = match parse_rate_limit(form) {
        Ok(r) => r,
        Err(e) => return Err(e),
    };
    let trigger_rules = if payload_filters.is_some() || time_windows.is_some() || cooldown.is_some()
        || rate_limit.is_some() {
        Some(TriggerRules { payload_filters, time_windows, cooldown, rate_limit })
    } else {
        None
    };
    Ok(
        HookFormData {
            name: string_of(trim_str(form.name.as_str()).as_slice()),
            slug: string_of(trim_str(form.slug.as_str()).as_slice()),
            description: string_of(trim_str(form.description.as_str()).as_slice()),
            enabled: form.enabled.is_some(),
            command: string_of(trim_str(form.command.as_str()).as_slice()),
            cwd,
            env,
            timeout,
            retries,
            auth,
            payload,
            trigger_rules,
        },
    )
}

} // verus!
