//! Payload filters: conditions on fields of the webhook payload.
use vstd::prelude::*;

use super::EvalOutcome;
use crate::config::{FilterOperator, PayloadFilter};
use crate::json::{resolve_field, resolve_path, to_json_string, to_text, Json};
use crate::models::TriggerAttemptStatus;
use crate::text::{chars_of, contains_chars, contains_seq, extend_chars, extend_str, string_of};

verus! {

/// What `Regex::new(pattern)` and `is_match(text)` give: `None` when the
/// pattern does not compile, else whether it matches somewhere in `text`.
pub uninterp spec fn regex_outcome(pattern: Seq<char>, text: Seq<char>) -> Option<bool>;

/// `regex::Regex::new(pattern)` followed by `Regex::is_match(text)`.
/// Claims the named outcome, and that the empty pattern compiles and
/// matches every text.
#[verifier::external_body]
fn regex_is_match(pattern: &str, text: &str) -> (r: Option<bool>)
    ensures
        r == regex_outcome(pattern@, text@),
        pattern@.len() == 0 ==> r == Some(true),
{
    match regex::Regex::new(pattern) {
        Ok(re) => Some(re.is_match(text)),
        Err(_) => None,
    }
}

/// Whether the filter pattern matches `text`; a pattern that does not
/// compile is replaced by the empty pattern, which matches everything.
pub open spec fn regex_accepts(pattern: Seq<char>, text: Seq<char>) -> bool {
    match regex_outcome(pattern, text) {
        Some(b) => b,
        None => true,
    }
}

/// What the floating-point part of a numeric filter found: the filter value
/// and the field as floats (rendered as `Display` writes them), and whether
/// the comparison holds.
pub struct NumericReading {
    /// The filter value parsed as a float, rendered; `None` if it is not a number.
    pub threshold: Option<String>,
    /// The field value as a float, rendered; `None` if missing or not numeric.
    pub field: Option<String>,
    /// Whether `field <op> threshold` holds.
    pub holds: bool,
}

/// The string a JSON value compares as: strings unquoted, others as JSON.
pub open spec fn json_as_text(v: Json) -> Seq<char> {
    match v {
        Json::String(s) => s@,
        _ => to_text(v),
    }
}

/// The filter's value, or the empty string.
pub open spec fn filter_value(f: PayloadFilter) -> Seq<char> {
    match f.value {
        Some(v) => v@,
        None => Seq::empty(),
    }
}

/// The comparison symbol of a numeric operator.
pub open spec fn numeric_symbol(op: FilterOperator) -> Seq<char> {
    match op {
        FilterOperator::Gt => ">"@,
        FilterOperator::Lt => "<"@,
        FilterOperator::Gte => ">="@,
        _ => "<="@,
    }
}

/// Why a numeric filter fails, if it does.
pub open spec fn numeric_failure(f: PayloadFilter, payload: Json, reading: NumericReading) -> Option<Seq<char>> {
    let op = numeric_symbol(f.operator);
    match reading.threshold {
        None => Some("filter value '"@ + filter_value(f) + "' is not a number (required for "@ + op
            + " operator)"@),
        Some(t) => match resolve_path(payload, f.field@) {
            None => Some("field '"@ + f.field@ + "' not found"@),
            Some(v) => match reading.field {
                Some(fv) => if reading.holds {
                    None
                } else {
                    Some("field '"@ + f.field@ + "' = "@ + fv@ + " is not "@ + op + " "@ + t@)
                },
                None => Some("field '"@ + f.field@ + "' = "@ + to_text(v) + " is not numeric (required for "@
                    + op + " operator)"@),
            },
        },
    }
}

/// Why a filter rejects the payload, if it does.
pub open spec fn filter_failure(f: PayloadFilter, payload: Json, reading: NumericReading) -> Option<Seq<char>> {
    let expected = filter_value(f);
    match f.operator {
        FilterOperator::Exists => match resolve_path(payload, f.field@) {
            Some(v) => if v is Null {
                Some("field '"@ + f.field@ + "' does not exist or is null"@)
            } else {
                None
            },
            None => Some("field '"@ + f.field@ + "' does not exist or is null"@),
        },
        FilterOperator::Equals => match resolve_path(payload, f.field@) {
            None => Some("field '"@ + f.field@ + "' not found"@),
            Some(v) => if json_as_text(v) == expected {
                None
            } else {
                Some("field '"@ + f.field@ + "' = "@ + to_text(v) + " does not equal '"@ + expected + "'"@)
            },
        },
        FilterOperator::NotEquals => match resolve_path(payload, f.field@) {
            None => Some("field '"@ + f.field@ + "' not found"@),
            Some(v) => if json_as_text(v) != expected {
                None
            } else {
                Some("field '"@ + f.field@ + "' = "@ + to_text(v) + " equals '"@ + expected
                    + "' (not_equals failed)"@)
            },
        },
        FilterOperator::Contains => match resolve_path(payload, f.field@) {
            None => Some("field '"@ + f.field@ + "' not found"@),
            Some(v) => match v {
                Json::String(s) => if contains_seq(s@, expected) {
                    None
                } else {
                    Some("field '"@ + f.field@ + "' = '"@ + s@ + "' does not contain '"@ + expected + "'"@)
                },
                Json::Array(items) => if exists|i: int|
                    0 <= i < items@.len() && json_as_text(#[trigger] items@[i]) == expected {
                    None
                } else {
                    Some("field '"@ + f.field@ + "' array does not contain element '"@ + expected + "'"@)
                },
                _ => Some("field '"@ + f.field@ + "' is "@ + crate::json::kind_name(v)
                    + " (contains requires string or array)"@),
            },
        },
        FilterOperator::Regex => match resolve_path(payload, f.field@) {
            None => Some("field '"@ + f.field@ + "' not found"@),
            Some(v) => if regex_accepts(expected, json_as_text(v)) {
                None
            } else {
                Some("field '"@ + f.field@ + "' = '"@ + json_as_text(v) + "' does not match regex '"@
                    + expected + "'"@)
            },
        },
        _ => numeric_failure(f, payload, reading),
    }
}

/// The string representation of a JSON value used for equality comparison.
pub fn json_as_str(v: &Json) -> (r: Vec<char>)
    ensures
        r@ == json_as_text(*v),
{
    match v {
        Json::String(s) => chars_of(s.as_str()),
        _ => to_json_string(v),
    }
}

fn filter_value_chars(f: &PayloadFilter) -> (r: Vec<char>)
    ensures
        r@ == filter_value(*f),
{
    match &f.value {
        Some(v) => chars_of(v.as_str()),
        None => Vec::new(),
    }
}

fn numeric_symbol_str(op: FilterOperator) -> (s: &'static str)
    ensures
        s@ == numeric_symbol(op),
{
    match op {
        FilterOperator::Gt => ">",
        FilterOperator::Lt => "<",
        FilterOperator::Gte => ">=",
        _ => "<=",
    }
}

/// `field '<name>'` followed by `rest`.
fn field_msg(f: &PayloadFilter, rest: &str) -> (r: Vec<char>)
    ensures
        r@ == "field '"@ + f.field@ + rest@,
{
    let mut m: Vec<char> = Vec::new();
    extend_str(&mut m, "field '");
    extend_str(&mut m, f.field.as_str());
    extend_str(&mut m, rest);
    m
}

fn numeric_check(f: &PayloadFilter, payload: &Json, reading: &NumericReading) -> (r: Option<Vec<char>>)
    requires
        matches!(f.operator, FilterOperator::Gt | FilterOperator::Lt | FilterOperator::Gte | FilterOperator::Lte),
    ensures
        msg_view(r) == filter_failure(*f, *payload, *reading),
{
    let op = numeric_symbol_str(f.operator);
    match &reading.threshold {
        None => {
            let mut m: Vec<char> = Vec::new();
            extend_str(&mut m, "filter value '");
            let fv = filter_value_chars(f);
            extend_chars(&mut m, fv.as_slice());
            extend_str(&mut m, "' is not a number (required for ");
            extend_str(&mut m, op);
            extend_str(&mut m, " operator)");
            Some(m)
        },
        Some(t) => match resolve_field(payload, f.field.as_str()) {
            None => Some(field_msg(f, "' not found")),
            Some(v) => match &reading.field {
                Some(fv) => {
                    if reading.holds {
                        None
                    } else {
                        let mut m = field_msg(f, "' = ");
                        extend_str(&mut m, fv.as_str());
                        extend_str(&mut m, " is not ");
                        extend_str(&mut m, op);
                        extend_str(&mut m, " ");
                        extend_str(&mut m, t.as_str());
                        Some(m)
                    }
                },
                None => {
                    let mut m = field_msg(f, "' = ");
                    let vt = to_json_string(v);
                    extend_chars(&mut m, vt.as_slice());
                    extend_str(&mut m, " is not numeric (required for ");
                    extend_str(&mut m, op);
                    extend_str(&mut m, " operator)");
                    Some(m)
                },
            },
        },
    }
}

fn array_has_text(items: &Vec<Json>, expected: &[char]) -> (b: bool)
    ensures
        b == exists|i: int| 0 <= i < items@.len() && json_as_text(#[trigger] items@[i]) == expected@,
{
    let mut i: usize = 0;
    while i < items.len()
        invariant
            i <= items@.len(),
            forall|j: int| 0 <= j < i ==> json_as_text(#[trigger] items@[j]) != expected@,
        decreases items@.len() - i,
    {
        let t = json_as_str(&items[i]);
        if crate::text::chars_eq(t.as_slice(), expected) {
            return true;
        }
        i = i + 1;
    }
    false
}

/// The failure view of an optional message.
pub open spec fn msg_view(r: Option<Vec<char>>) -> Option<Seq<char>> {
    match r {
        Some(m) => Some(m@),
        None => None,
    }
}

fn exists_check(f: &PayloadFilter, payload: &Json) -> (r: Option<Vec<char>>)
    requires
        f.operator == FilterOperator::Exists,
    ensures
        msg_view(r) == filter_failure(*f, *payload, NumericReading { threshold: None, field: None, holds: false }),
{
    match resolve_field(payload, f.field.as_str()) {
        Some(v) => if v.is_null() {
            Some(field_msg(f, "' does not exist or is null"))
        } else {
            None
        },
        None => Some(field_msg(f, "' does not exist or is null")),
    }
}

fn equals_check(f: &PayloadFilter, payload: &Json, expected: &Vec<char>) -> (r: Option<Vec<char>>)
    requires
        f.operator == FilterOperator::Equals || f.operator == FilterOperator::NotEquals,
        expected@ == filter_value(*f),
    ensures
        msg_view(r) == filter_failure(*f, *payload, NumericReading { threshold: None, field: None, holds: false }),
{
    match resolve_field(payload, f.field.as_str()) {
        None => Some(field_msg(f, "' not found")),
        Some(v) => {
            let t = json_as_str(v);
            let same = crate::text::chars_eq(t.as_slice(), expected.as_slice());
            if f.operator == FilterOperator::Equals {
                if same {
                    None
                } else {
                    let mut m = field_msg(f, "' = ");
                    let vt = to_json_string(v);
                    extend_chars(&mut m, vt.as_slice());
                    extend_str(&mut m, " does not equal '");
                    extend_chars(&mut m, expected.as_slice());
                    extend_str(&mut m, "'");
                    Some(m)
                }
            } else {
                if !same {
                    None
                } else {
                    let mut m = field_msg(f, "' = ");
                    let vt = to_json_string(v);
                    extend_chars(&mut m, vt.as_slice());
                    extend_str(&mut m, " equals '");
                    extend_chars(&mut m, expected.as_slice());
                    extend_str(&mut m, "' (not_equals failed)");
                    Some(m)
                }
            }
        },
    }
}

fn contains_check(f: &PayloadFilter, payload: &Json, expected: &Vec<char>) -> (r: Option<Vec<char>>)
    requires
        f.operator == FilterOperator::Contains,
        expected@ == filter_value(*f),
    ensures
        msg_view(r) == filter_failure(*f, *payload, NumericReading { threshold: None, field: None, holds: false }),
{
    match resolve_field(payload, f.field.as_str()) {
        None => Some(field_msg(f, "' not found")),
        Some(v) => match v {
            Json::String(s) => {
                let sc = chars_of(s.as_str());
                if contains_chars(sc.as_slice(), expected.as_slice()) {
                    None
                } else {
                    let mut m = field_msg(f, "' = '");
                    extend_chars(&mut m, sc.as_slice());
                    extend_str(&mut m, "' does not contain '");
                    extend_chars(&mut m, expected.as_slice());
                    extend_str(&mut m, "'");
                    Some(m)
                }
            },
            Json::Array(items) => {
                if array_has_text(items, expected.as_slice()) {
                    None
                } else {
                    let mut m = field_msg(f, "' array does not contain element '");
                    extend_chars(&mut m, expected.as_slice());
                    extend_str(&mut m, "'");
                    Some(m)
                }
            },
            _ => {
                let mut m = field_msg(f, "' is ");
                extend_str(&mut m, crate::json::json_type_name(v));
                extend_str(&mut m, " (contains requires string or array)");
                Some(m)
            },
        },
    }
}

fn regex_check(f: &PayloadFilter, payload: &Json, expected: &Vec<char>) -> (r: Option<Vec<char>>)
    requires
        f.operator == FilterOperator::Regex,
        expected@ == filter_value(*f),
    ensures
        msg_view(r) == filter_failure(*f, *payload, NumericReading { threshold: None, field: None, holds: false }),
{
    match resolve_field(payload, f.field.as_str()) {
        None => Some(field_msg(f, "' not found")),
        Some(v) => {
            let t = json_as_str(v);
            let ts = string_of(t.as_slice());
            let ps = string_of(expected.as_slice());
            proof {
                reveal_strlit("");
            }
            let accepted = match regex_is_match(ps.as_str(), ts.as_str()) {
                Some(b) => b,
                None => match regex_is_match("", ts.as_str()) {
                    Some(b) => b,
                    None => true,
                },
            };
            if accepted {
                None
            } else {
                let mut m = field_msg(f, "' = '");
                extend_chars(&mut m, t.as_slice());
                extend_str(&mut m, "' does not match regex '");
                extend_chars(&mut m, expected.as_slice());
                extend_str(&mut m, "'");
                Some(m)
            }
        },
    }
}

proof fn lemma_non_numeric_reading_irrelevant(f: PayloadFilter, payload: Json, a: NumericReading, b: NumericReading)
    requires
        !matches!(f.operator, FilterOperator::Gt | FilterOperator::Lt | FilterOperator::Gte | FilterOperator::Lte),
    ensures
        filter_failure(f, payload, a) == filter_failure(f, payload, b),
{
}

/// Returns `Some(reason)` if the filter fails, `None` if it passes.
pub fn check_filter(f: &PayloadFilter, payload: &Json, reading: &NumericReading) -> (r: Option<String>)
    ensures
        match r {
            Some(m) => filter_failure(*f, *payload, *reading) == Some(m@),
            None => filter_failure(*f, *payload, *reading) is None,
        },
{
    let expected = filter_value_chars(f);
    let ghost none = NumericReading { threshold: None, field: None, holds: false };
    let r: Option<Vec<char>> = match f.operator {
        FilterOperator::Exists => exists_check(f, payload),
        FilterOperator::Equals => equals_check(f, payload, &expected),
        FilterOperator::NotEquals => equals_check(f, payload, &expected),
        FilterOperator::Contains => contains_check(f, payload, &expected),
        FilterOperator::Regex => regex_check(f, payload, &expected),
        _ => numeric_check(f, payload, reading),
    };
    proof {
        if !matches!(f.operator, FilterOperator::Gt | FilterOperator::Lt | FilterOperator::Gte | FilterOperator::Lte) {
            lemma_non_numeric_reading_irrelevant(*f, *payload, *reading, none);
        }
    }
    assert(msg_view(r) == filter_failure(*f, *payload, *reading));
    match r {
        Some(m) => Some(string_of(m.as_slice())),
        None => None,
    }
}

/// The first failing filter's reason, if any.
pub open spec fn first_failure(filters: Seq<PayloadFilter>, payload: Json, readings: Seq<NumericReading>) -> Option<Seq<char>>
    decreases filters.len(),
{
    if filters.len() == 0 {
        None
    } else {
        match filter_failure(filters[0], payload, readings[0]) {
            Some(m) => Some(m),
            None => first_failure(filters.drop_first(), payload, readings.drop_first()),
        }
    }
}

/// The filters are a conjunction, checked in order: no filter fails
/// exactly when every filter passes on its own, and the failure reported
/// is that of the first filter that fails.
#[verifier::spinoff_prover]
#[verifier::rlimit(60)]
pub proof fn filters_are_a_conjunction(filters: Seq<PayloadFilter>, payload: Json, readings: Seq<NumericReading>)
    requires
        readings.len() == filters.len(),
    ensures
        first_failure(filters, payload, readings) is None <==> forall|i: int|
            0 <= i < filters.len() ==> (#[trigger] filter_failure(filters[i], payload, readings[i])) is None,
        first_failure(filters, payload, readings) matches Some(m) ==> exists|k: int|
            0 <= k < filters.len() && filter_failure(filters[k], payload, readings[k]) == Some(m) && forall|j: int|
                0 <= j < k ==> (#[trigger] filter_failure(filters[j], payload, readings[j])) is None,
    decreases filters.len(),
{
    if filters.len() > 0 {
        let fs = filters.drop_first();
        let rs = readings.drop_first();
        filters_are_a_conjunction(fs, payload, rs);
        assert forall|i: int| 0 <= i < fs.len() implies fs[i] == filters[i + 1] && rs[i] == readings[i + 1] by {}
        match filter_failure(filters[0], payload, readings[0]) {
            Some(m) => {
                assert(filter_failure(filters[0], payload, readings[0]) == Some(m));
            },
            None => {
                if first_failure(fs, payload, rs) is None {
                    assert forall|i: int| 0 <= i < filters.len() implies (#[trigger] filter_failure(
                        filters[i],
                        payload,
                        readings[i],
                    )) is None by {
                        if i > 0 {
                            assert(filter_failure(fs[i - 1], payload, rs[i - 1]) is None);
                        }
                    }
                } else {
                    let m = first_failure(fs, payload, rs)->0;
                    let k = choose|k: int|
                        0 <= k < fs.len() && filter_failure(fs[k], payload, rs[k]) == Some(m) && forall|j: int|
                            0 <= j < k ==> (#[trigger] filter_failure(fs[j], payload, rs[j])) is None;
                    assert(filter_failure(filters[k + 1], payload, readings[k + 1]) == Some(m));
                    assert forall|j: int| 0 <= j < k + 1 implies (#[trigger] filter_failure(
                        filters[j],
                        payload,
                        readings[j],
                    )) is None by {
                        if j > 0 {
                            assert(filter_failure(fs[j - 1], payload, rs[j - 1]) is None);
                        }
                    }
                    assert(!(forall|i: int|
                        0 <= i < filters.len() ==> (#[trigger] filter_failure(filters[i], payload, readings[i])) is None))
                        by {
                        assert(filter_failure(filters[k + 1], payload, readings[k + 1]) is Some);
                    }
                }
            },
        }
    }
}

/// Evaluates the filters in order; the first failing one rejects the
/// trigger as filtered. `readings[i]` holds the numeric reading for
/// `filters[i]`.
#[verifier::spinoff_prover]
pub fn evaluate(filters: &[PayloadFilter], payload: &Json, readings: &[NumericReading]) -> (r: EvalOutcome)
    requires
        readings@.len() == filters@.len(),
    ensures
        match r {
            EvalOutcome::Allow => first_failure(filters@, *payload, readings@) is None,
            EvalOutcome::Reject { status, reason } => status == TriggerAttemptStatus::Filtered
                && first_failure(filters@, *payload, readings@) == Some(reason@),
        },
{
    let mut i: usize = 0;
    assert(filters@.subrange(0, filters@.len() as int) == filters@);
    assert(readings@.subrange(0, readings@.len() as int) == readings@);
    while i < filters.len()
        invariant
            readings@.len() == filters@.len(),
            i <= filters@.len(),
            first_failure(filters@, *payload, readings@) == first_failure(
                filters@.subrange(i as int, filters@.len() as int),
                *payload,
                readings@.subrange(i as int, readings@.len() as int),
            ),
        decreases filters@.len() - i,
    {
        let ghost fs = filters@.subrange(i as int, filters@.len() as int);
        let ghost rs = readings@.subrange(i as int, readings@.len() as int);
        assert(fs.drop_first() == filters@.subrange(i + 1, filters@.len() as int));
        assert(rs.drop_first() == readings@.subrange(i + 1, readings@.len() as int));
        assert(fs[0] == filters@[i as int] && rs[0] == readings@[i as int]);
        match check_filter(&filters[i], payload, &readings[i]) {
            Some(reason) => {
                return EvalOutcome::Reject { status: TriggerAttemptStatus::Filtered, reason };
            },
            None => {},
        }
        i = i + 1;
    }
    EvalOutcome::Allow
}

} // verus!
