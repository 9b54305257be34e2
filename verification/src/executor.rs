//! What an execution runs, and how its outcome is judged.
//!
//! Spawning processes and sending requests happen outside this library;
//! the decisions around them are here.
use vstd::prelude::*;

use crate::config::{env_lookup, lookup_env, ExecutorConfig, HttpMethod};
use crate::interpolation::{interpolate_owned, interpolated};
use crate::json::{json_of, parse_json, Json};
use vstd::string::StringSliceAdditionalSpecFns;
use crate::models::ExecutionStatus;
use crate::views::{upper_case, upper_case_of};
use crate::text::{chars_of, dec, extend_chars, extend_str, push_dec, string_of};

verus! {

/// Which executor to use for a hook, with the payload filled in.
#[derive(Debug)]
pub enum ResolvedExecutor {
    Shell { command: String },
    Script { path: String },
    Http {
        method: HttpMethod,
        url: String,
        headers: Vec<(String, String)>,
        body: Option<String>,
        follow_redirects: bool,
    },
}

/// The outcome of an execution attempt.
#[derive(Debug)]
pub struct ExecutionResult {
    /// Terminal status: Success, Failed, or TimedOut.
    pub status: ExecutionStatus,
    /// Process exit code. None if the process was killed or failed to spawn.
    pub exit_code: Option<i32>,
    /// Path to the log directory (data/logs/{execution_id}).
    pub log_dir: String,
}

/// The text of `t` filled from the payload when there is one; an empty
/// object, which fills nothing, stands in for a payload that is not JSON.
pub open spec fn filled(t: Seq<char>, payload: Option<Json>) -> Seq<char> {
    match payload {
        Some(p) => interpolated(t, p),
        None => t,
    }
}

/// The stored payload text read as JSON (see [`json_of`]), `None` when it
/// is not JSON.
pub open spec fn json_payload(text: Seq<u8>) -> Option<Json> {
    match json_of(text) {
        Ok(v) => Some(v),
        Err(_) => None,
    }
}

/// A reference payload as a value.
pub open spec fn payload_value(payload: Option<&Json>) -> Option<Json> {
    match payload {
        Some(p) => Some(*p),
        None => None,
    }
}

/// Fill the stored payload text, read as JSON, into a hook's executor (see
/// [`resolve_with`]).
pub fn resolve_executor(executor: &ExecutorConfig, payload_json: &str) -> (r: ResolvedExecutor)
    ensures
        resolved_from(*executor, json_payload(payload_json.spec_bytes()), r),
{
    let parsed = parse_json(payload_json.as_bytes());
    match &parsed {
        Ok(v) => resolve_with(executor, Some(v)),
        Err(_) => resolve_with(executor, None),
    }
}

/// Whether `r` is `executor` with `payload` filled in.
pub open spec fn resolved_from(executor: ExecutorConfig, payload: Option<Json>, r: ResolvedExecutor) -> bool {
    match executor {
        ExecutorConfig::Shell { command } => r matches ResolvedExecutor::Shell { command: c } && c@
            == filled(command@, payload),
        ExecutorConfig::Script { path } => r matches ResolvedExecutor::Script { path: p } && p@ == path@,
        ExecutorConfig::Http { method, url, headers, body, follow_redirects } => {
            &&& r matches ResolvedExecutor::Http {
                method: m,
                url: u,
                headers: h,
                body: b,
                follow_redirects: f,
            }
            &&& m == method && f == follow_redirects && h@ == headers@
            &&& u@ == filled(url@, payload)
            &&& (b is None <==> body is None)
            &&& (b matches Some(bt) ==> body matches Some(bs) && bt@ == filled(bs@, payload))
        },
    }
}

/// Fill the payload into a hook's executor. A shell command has its
/// placeholders filled only when the stored payload is JSON (`payload` is
/// then `Some`); an HTTP URL and body are filled from the payload, or from
/// an empty object when it is not JSON. A script runs as configured.
pub fn resolve_with(executor: &ExecutorConfig, payload: Option<&Json>) -> (r: ResolvedExecutor)
    ensures
        resolved_from(*executor, payload_value(payload), r),
{
    match executor {
        ExecutorConfig::Shell { command } => {
            let c = match payload {
                Some(p) => interpolate_owned(command.as_str(), p),
                None => command.clone(),
            };
            ResolvedExecutor::Shell { command: c }
        },
        ExecutorConfig::Script { path } => ResolvedExecutor::Script { path: path.clone() },
        ExecutorConfig::Http { method, url, headers, body, follow_redirects } => {
            let empty = Json::Object(Vec::new());
            let p: &Json = match payload {
                Some(p) => p,
                None => &empty,
            };
            proof {
                if payload is None {
                    crate::interpolation::interpolated_from_empty_object(url@, *p, 0);
                    assert(url@.subrange(0, url@.len() as int) == url@);
                    match body {
                        Some(bs) => {
                            crate::interpolation::interpolated_from_empty_object(bs@, *p, 0);
                            assert(bs@.subrange(0, bs@.len() as int) == bs@);
                        },
                        None => {},
                    }
                }
            }
            let u = interpolate_owned(url.as_str(), p);
            let b = match body {
                Some(bs) => Some(interpolate_owned(bs.as_str(), p)),
                None => None,
            };
            ResolvedExecutor::Http {
                method: *method,
                url: u,
                headers: clone_pairs(headers),
                body: b,
                follow_redirects: *follow_redirects,
            }
        },
    }
}

fn clone_pairs(v: &Vec<(String, String)>) -> (r: Vec<(String, String)>)
    ensures
        r@ == v@,
{
    let mut r: Vec<(String, String)> = Vec::new();
    let mut i: usize = 0;
    while i < v.len()
        invariant
            i <= v@.len(),
            r@ == v@.take(i as int),
        decreases v@.len() - i,
    {
        let (a, b) = &v[i];
        r.push((a.clone(), b.clone()));
        assert(v@.take(i + 1) == v@.take(i as int).push(v@[i as int]));
        i = i + 1;
    }
    assert(v@.take(v@.len() as int) == v@);
    r
}

/// The log directory of an execution: `<logs_dir>/<execution_id>`.
pub fn log_dir_path(logs_dir: &str, execution_id: &str) -> (p: String)
    ensures
        p@ == logs_dir@ + seq!['/'] + execution_id@,
{
    let mut m: Vec<char> = Vec::new();
    extend_str(&mut m, logs_dir);
    m.push('/');
    extend_str(&mut m, execution_id);
    string_of(m.as_slice())
}

/// How a run of a process ended.
#[derive(Debug)]
pub enum ProcessOutcome {
    /// The process exited; `code` is `None` when a signal ended it.
    Exited { success: bool, code: Option<i32> },
    /// Waiting for the process failed.
    WaitFailed,
    /// The timeout expired and the process was killed.
    TimedOut,
}

/// The status and exit code recorded for a process run: success only for
/// a successful exit; a timeout gives no exit code.
pub fn process_result(outcome: ProcessOutcome) -> (r: (ExecutionStatus, Option<i32>))
    ensures
        match outcome {
            ProcessOutcome::Exited { success, code } => r == (
                if success { ExecutionStatus::Success } else { ExecutionStatus::Failed },
                code,
            ),
            ProcessOutcome::WaitFailed => r == (ExecutionStatus::Failed, None::<i32>),
            ProcessOutcome::TimedOut => r == (ExecutionStatus::TimedOut, None::<i32>),
        },
{
    match outcome {
        ProcessOutcome::Exited { success, code } => if success {
            (ExecutionStatus::Success, code)
        } else {
            (ExecutionStatus::Failed, code)
        },
        ProcessOutcome::WaitFailed => (ExecutionStatus::Failed, None),
        ProcessOutcome::TimedOut => (ExecutionStatus::TimedOut, None),
    }
}

/// The status and exit code recorded for an HTTP response: the status code
/// is the exit code, and a 2xx status is a success.
pub fn http_result(status_code: u16) -> (r: (ExecutionStatus, Option<i32>))
    ensures
        r.1 == Some(status_code as i32),
        r.0 == if 200 <= status_code && status_code <= 299 {
            ExecutionStatus::Success
        } else {
            ExecutionStatus::Failed
        },
{
    let s = if 200 <= status_code && status_code <= 299 {
        ExecutionStatus::Success
    } else {
        ExecutionStatus::Failed
    };
    (s, Some(status_code as i32))
}

/// `value` with each `${NAME}` replaced by the value of `NAME` in `env`
/// (empty when unset). A `${` without a closing `}` takes the rest of the
/// text as the name.
pub open spec fn env_refs_resolved(value: Seq<char>, env: Seq<(String, String)>) -> Seq<char>
    decreases value.len(),
{
    if value.len() == 0 {
        seq![]
    } else if value.len() >= 2 && value[0] == '$' && value[1] == '{' {
        let rest = value.subrange(2, value.len() as int);
        let end = match crate::text::find_first(rest, '}') {
            Some(k) => if 0 <= k < rest.len() {
                k
            } else {
                rest.len() as int
            },
            None => rest.len() as int,
        };
        let name = rest.subrange(0, end);
        let val = match env_lookup(env, name) {
            Some(v) => v,
            None => seq![],
        };
        val + if end < rest.len() {
            env_refs_resolved(rest.subrange(end + 1, rest.len() as int), env)
        } else {
            seq![]
        }
    } else {
        seq![value[0]] + env_refs_resolved(value.drop_first(), env)
    }
}

fn resolve_refs_chars(value: &[char], env: &[(String, String)], out: &mut Vec<char>)
    ensures
        final(out)@ == old(out)@ + env_refs_resolved(value@, env@),
    decreases value@.len(),
{
    if value.len() == 0 {
        return;
    }
    if value.len() >= 2 && value[0] == '$' && value[1] == '{' {
        let rest = crate::text::sub_chars(value, 2, value.len());
        let (end, closed) = match crate::text::find_char(rest.as_slice(), '}') {
            Some(k) => (k, true),
            None => (rest.len(), false),
        };
        let name = crate::text::sub_chars(rest.as_slice(), 0, end);
        let name_s = string_of(name.as_slice());
        match lookup_env(env, name_s.as_str()) {
            Some(v) => {
                let vc = chars_of(v.as_str());
                extend_chars(out, vc.as_slice());
            },
            None => {},
        }
        if closed {
            let tail = crate::text::sub_chars(rest.as_slice(), end + 1, rest.len());
            resolve_refs_chars(tail.as_slice(), env, out);
        } else {
            assert(old(out)@ + env_refs_resolved(value@, env@) == out@ + seq![]);
        }
    } else {
        out.push(value[0]);
        let tail = crate::text::sub_chars(value, 1, value.len());
        assert(tail@ == value@.drop_first());
        resolve_refs_chars(tail.as_slice(), env, out);
    }
}

/// Resolve `${ENV_VAR}` references in a string to their values in `env`,
/// the process environment as read by the caller. Unset variables are
/// replaced with an empty string.
pub fn resolve_env_refs(value: &str, env: &[(String, String)]) -> (r: String)
    ensures
        r@ == env_refs_resolved(value@, env@),
{
    let vc = chars_of(value);
    let mut out: Vec<char> = Vec::new();
    resolve_refs_chars(vc.as_slice(), env, &mut out);
    string_of(out.as_slice())
}


/// `(name, value)` when `name` is set in `env`, nothing otherwise.
pub open spec fn inherited_var(env: Seq<(String, String)>, name: Seq<char>) -> Seq<(Seq<char>, Seq<char>)> {
    match env_lookup(env, name) {
        Some(v) => seq![(name, v)],
        None => seq![],
    }
}

/// The variables a hook's process inherits from the process environment
/// `env`: `PATH`, `HOME`, `USER` and `LANG`, in that order, each when set.
pub open spec fn inherited_env(env: Seq<(String, String)>) -> Seq<(Seq<char>, Seq<char>)> {
    inherited_var(env, "PATH"@) + inherited_var(env, "HOME"@) + inherited_var(env, "USER"@)
        + inherited_var(env, "LANG"@)
}

/// Pairs of strings, taken by their text.
pub open spec fn pair_texts(v: Seq<(String, String)>) -> Seq<(Seq<char>, Seq<char>)> {
    v.map_values(|p: (String, String)| (p.0@, p.1@))
}

proof fn lemma_pair_texts_push(v: Seq<(String, String)>, x: (String, String))
    ensures
        pair_texts(v.push(x)) == pair_texts(v).push((x.0@, x.1@)),
{
    assert(pair_texts(v.push(x)) =~= pair_texts(v).push((x.0@, x.1@)));
}

fn push_pair(out: &mut Vec<(String, String)>, name: &str, value: &str)
    ensures
        pair_texts(final(out)@) == pair_texts(old(out)@).push((name@, value@)),
{
    let pair = (name.to_owned(), value.to_owned());
    proof {
        lemma_pair_texts_push(out@, pair);
    }
    out.push(pair);
}

fn push_inherited(out: &mut Vec<(String, String)>, env: &[(String, String)], name: &str)
    ensures
        pair_texts(final(out)@) == pair_texts(old(out)@) + inherited_var(env@, name@),
{
    match lookup_env(env, name) {
        Some(v) => {
            push_pair(out, name, v.as_str());
        },
        None => {},
    }
}

/// The system environment variables a hook's process inherits, read from
/// the process environment `env` that the caller hands over: only `PATH`,
/// `HOME`, `USER` and `LANG`, each with its value when it is set.
pub fn system_env_vars(env: &[(String, String)]) -> (r: Vec<(String, String)>)
    ensures
        pair_texts(r@) == inherited_env(env@),
{
    let mut out: Vec<(String, String)> = Vec::new();
    push_inherited(&mut out, env, "PATH");
    push_inherited(&mut out, env, "HOME");
    push_inherited(&mut out, env, "USER");
    push_inherited(&mut out, env, "LANG");
    assert(pair_texts(Seq::<(String, String)>::empty()) =~= Seq::<(Seq<char>, Seq<char>)>::empty());
    out
}


/// The dotted key of a nested member: `prefix.key`, or `key` at the top.
pub open spec fn child_key(prefix: Seq<char>, key: Seq<char>) -> Seq<char> {
    if prefix.len() == 0 {
        key
    } else {
        prefix + seq!['.'] + key
    }
}

/// A leaf under `prefix`; a leaf at the top (empty prefix) is left out.
pub open spec fn leaf(prefix: Seq<char>, text: Seq<char>) -> Seq<(Seq<char>, Seq<char>)> {
    if prefix.len() == 0 {
        seq![]
    } else {
        seq![(prefix, text)]
    }
}

/// The leaf values (strings, numbers, booleans) of `value` under `prefix`,
/// as `(dotted key, text)` pairs in document order. Object members extend
/// the key with their name, array items with their index; null is left out.
pub open spec fn flattened(value: Json, prefix: Seq<char>) -> Seq<(Seq<char>, Seq<char>)>
    decreases value,
{
    match value {
        Json::Object(fields) => flattened_members(fields@, prefix),
        Json::Array(items) => flattened_items(items@, prefix, 0),
        Json::String(s) => leaf(prefix, s@),
        Json::Number(n) => leaf(prefix, n@),
        Json::Bool(b) => leaf(prefix, if b { "true"@ } else { "false"@ }),
        Json::Null => seq![],
    }
}

/// The leaves of object members, member by member.
pub open spec fn flattened_members(fields: Seq<(String, Json)>, prefix: Seq<char>) -> Seq<(Seq<char>, Seq<char>)>
    decreases fields,
{
    if fields.len() == 0 {
        seq![]
    } else {
        flattened(fields[0].1, child_key(prefix, fields[0].0@)) + flattened_members(fields.drop_first(), prefix)
    }
}

/// The leaves of array items, the first of them at index `start`.
pub open spec fn flattened_items(items: Seq<Json>, prefix: Seq<char>, start: nat) -> Seq<(Seq<char>, Seq<char>)>
    decreases items,
{
    if items.len() == 0 {
        seq![]
    } else {
        flattened(items[0], child_key(prefix, dec(start))) + flattened_items(items.drop_first(), prefix, start + 1)
    }
}

proof fn lemma_members_push(fields: Seq<(String, Json)>, x: (String, Json), prefix: Seq<char>)
    ensures
        flattened_members(fields.push(x), prefix) == flattened_members(fields, prefix) + flattened(
            x.1,
            child_key(prefix, x.0@),
        ),
    decreases fields.len(),
{
    if fields.len() == 0 {
        assert(fields.push(x).drop_first() =~= Seq::<(String, Json)>::empty());
        assert(fields.push(x)[0] == x);
        assert(flattened_members(Seq::<(String, Json)>::empty(), prefix) =~= Seq::empty());
        let f = flattened(x.1, child_key(prefix, x.0@));
        assert(f + Seq::<(Seq<char>, Seq<char>)>::empty() =~= f);
    } else {
        lemma_members_push(fields.drop_first(), x, prefix);
        assert(fields.push(x).drop_first() =~= fields.drop_first().push(x));
        let a = flattened(fields[0].1, child_key(prefix, fields[0].0@));
        let b = flattened_members(fields.drop_first(), prefix);
        let c = flattened(x.1, child_key(prefix, x.0@));
        assert(a + (b + c) =~= (a + b) + c);
    }
}

proof fn lemma_items_push(items: Seq<Json>, x: Json, prefix: Seq<char>, start: nat)
    ensures
        flattened_items(items.push(x), prefix, start) == flattened_items(items, prefix, start) + flattened(
            x,
            child_key(prefix, dec(start + items.len())),
        ),
    decreases items.len(),
{
    if items.len() == 0 {
        assert(items.push(x).drop_first() =~= Seq::<Json>::empty());
        assert(items.push(x)[0] == x);
        assert(flattened_items(Seq::<Json>::empty(), prefix, start + 1) =~= Seq::empty());
        let f = flattened(x, child_key(prefix, dec(start)));
        assert(f + Seq::<(Seq<char>, Seq<char>)>::empty() =~= f);
    } else {
        lemma_items_push(items.drop_first(), x, prefix, start + 1);
        assert(items.push(x).drop_first() =~= items.drop_first().push(x));
        let a = flattened(items[0], child_key(prefix, dec(start)));
        let b = flattened_items(items.drop_first(), prefix, start + 1);
        let c = flattened(x, child_key(prefix, dec(start + items.len())));
        assert(a + (b + c) =~= (a + b) + c);
    }
}

fn child_key_chars(prefix: &[char], key: &[char]) -> (r: Vec<char>)
    ensures
        r@ == child_key(prefix@, key@),
{
    let mut out: Vec<char> = Vec::new();
    if prefix.len() > 0 {
        extend_chars(&mut out, prefix);
        out.push('.');
    }
    extend_chars(&mut out, key);
    out
}

fn push_leaf(out: &mut Vec<(String, String)>, prefix: &[char], text: &str)
    ensures
        pair_texts(final(out)@) == pair_texts(old(out)@) + leaf(prefix@, text@),
{
    if prefix.len() > 0 {
        let key = string_of(prefix);
        push_pair(out, key.as_str(), text);
        assert(pair_texts(old(out)@).push((prefix@, text@)) =~= pair_texts(old(out)@) + leaf(prefix@, text@));
    } else {
        assert(pair_texts(old(out)@) + leaf(prefix@, text@) =~= pair_texts(old(out)@));
    }
}

fn flatten_into(value: &Json, prefix: &[char], out: &mut Vec<(String, String)>)
    ensures
        pair_texts(final(out)@) == pair_texts(old(out)@) + flattened(*value, prefix@),
    decreases value,
{
    match value {
        Json::Object(fields) => {
            let ghost start = pair_texts(out@);
            let mut i: usize = 0;
            while i < fields.len()
                invariant
                    i <= fields@.len(),
                    *value == Json::Object(*fields),
                    pair_texts(out@) == start + flattened_members(fields@.subrange(0, i as int), prefix@),
                decreases fields@.len() - i,
            {
                proof {
                    lemma_members_push(fields@.subrange(0, i as int), fields@[i as int], prefix@);
                    assert(fields@.subrange(0, i + 1) =~= fields@.subrange(0, i as int).push(fields@[i as int]));
                }
                let kc = chars_of(fields[i].0.as_str());
                let key = child_key_chars(prefix, kc.as_slice());
                proof {
                    let ghost v = *value;
                    assert(v->Object_0 == *fields);
                    assert(decreases_to!(v => v->Object_0));
                    vstd::std_specs::vec::axiom_vec_index_decreases(*fields, i as int);
                    assert(decreases_to!(*fields => fields[i as int]));
                    assert(decreases_to!(fields[i as int] => fields[i as int].1));
                }
                let ghost before = pair_texts(out@);
                flatten_into(&fields[i].1, key.as_slice(), out);
                proof {
                    let ghost a = flattened_members(fields@.subrange(0, i as int), prefix@);
                    let ghost b = flattened(fields@[i as int].1, child_key(prefix@, fields@[i as int].0@));
                    assert(before + b =~= start + (a + b));
                }
                i = i + 1;
            }
            assert(fields@.subrange(0, fields@.len() as int) =~= fields@);
        },
        Json::Array(items) => {
            let ghost start = pair_texts(out@);
            let mut i: usize = 0;
            while i < items.len()
                invariant
                    i <= items@.len(),
                    *value == Json::Array(*items),
                    pair_texts(out@) == start + flattened_items(items@.subrange(0, i as int), prefix@, 0),
                decreases items@.len() - i,
            {
                proof {
                    lemma_items_push(items@.subrange(0, i as int), items@[i as int], prefix@, 0);
                    assert(items@.subrange(0, i + 1) =~= items@.subrange(0, i as int).push(items@[i as int]));
                }
                let mut ic: Vec<char> = Vec::new();
                push_dec(&mut ic, i as u128);
                assert(ic@ == dec(i as nat));
                let key = child_key_chars(prefix, ic.as_slice());
                proof {
                    let ghost v = *value;
                    assert(v->Array_0 == *items);
                    assert(decreases_to!(v => v->Array_0));
                    vstd::std_specs::vec::axiom_vec_index_decreases(*items, i as int);
                    assert(decreases_to!(*items => items[i as int]));
                }
                let ghost before = pair_texts(out@);
                flatten_into(&items[i], key.as_slice(), out);
                proof {
                    let ghost a = flattened_items(items@.subrange(0, i as int), prefix@, 0);
                    let ghost b = flattened(items@[i as int], child_key(prefix@, dec(i as nat)));
                    assert(before + b =~= start + (a + b));
                }
                i = i + 1;
            }
            assert(items@.subrange(0, items@.len() as int) =~= items@);
        },
        Json::String(s) => {
            push_leaf(out, prefix, s.as_str());
        },
        Json::Number(n) => {
            push_leaf(out, prefix, n.as_str());
        },
        Json::Bool(b) => {
            if *b {
                push_leaf(out, prefix, "true");
            } else {
                push_leaf(out, prefix, "false");
            }
        },
        Json::Null => {
            assert(pair_texts(out@) + flattened(*value, prefix@) =~= pair_texts(out@));
        },
    }
}

/// Flatten a JSON value into `(key, value)` pairs for environment
/// variables. Only leaf values (strings, numbers, booleans) are included;
/// nested keys use dot notation (e.g. `user.name`), array items their index.
pub fn flatten_json_fields(value: &Json) -> (r: Vec<(String, String)>)
    ensures
        pair_texts(r@) == flattened(*value, seq![]),
{
    let mut out: Vec<(String, String)> = Vec::new();
    let empty: Vec<char> = Vec::new();
    flatten_into(value, empty.as_slice(), &mut out);
    assert(pair_texts(Seq::<(String, String)>::empty()) =~= Seq::<(Seq<char>, Seq<char>)>::empty());
    assert(Seq::<(Seq<char>, Seq<char>)>::empty() + flattened(*value, seq![]) =~= flattened(*value, seq![]));
    out
}


/// The upper-case form of a text, character by character, as
/// `str::to_uppercase` gives it (it maps each character on its own).
pub open spec fn upper_text(s: Seq<char>) -> Seq<char>
    decreases s.len(),
{
    if s.len() == 0 {
        seq![]
    } else {
        upper_text(s.drop_last()) + upper_case_of(s.last())
    }
}

/// The environment variable that carries the payload field `key` to a
/// script: `SENDWORD_FIELD_` and the key upper-cased, with `.` made `_`.
pub open spec fn field_var(key: Seq<char>) -> Seq<char> {
    "SENDWORD_FIELD_"@ + upper_text(key).map_values(|c: char| if c == '.' { '_' } else { c })
}

/// The name of the environment variable for the payload field `key`.
pub fn field_env_name(key: &str) -> (r: String)
    ensures
        r@ == field_var(key@),
{
    let kc = chars_of(key);
    let mut up: Vec<char> = Vec::new();
    let mut i: usize = 0;
    while i < kc.len()
        invariant
            i <= kc@.len(),
            kc@ == key@,
            up@ == upper_text(kc@.subrange(0, i as int)),
        decreases kc@.len() - i,
    {
        assert(kc@.subrange(0, i + 1).drop_last() =~= kc@.subrange(0, i as int));
        let u = upper_case(kc[i]);
        let uc = chars_of(u.as_str());
        extend_chars(&mut up, uc.as_slice());
        i = i + 1;
    }
    assert(kc@.subrange(0, kc@.len() as int) =~= kc@);
    let mut out: Vec<char> = Vec::new();
    extend_str(&mut out, "SENDWORD_FIELD_");
    let ghost head = out@;
    let mut j: usize = 0;
    while j < up.len()
        invariant
            j <= up@.len(),
            head == "SENDWORD_FIELD_"@,
            out@ == head + up@.subrange(0, j as int).map_values(|c: char| if c == '.' { '_' } else { c }),
        decreases up@.len() - j,
    {
        let c = up[j];
        out.push(if c == '.' { '_' } else { c });
        assert(up@.subrange(0, j + 1).map_values(|c: char| if c == '.' { '_' } else { c }) =~= up@.subrange(
            0,
            j as int,
        ).map_values(|c: char| if c == '.' { '_' } else { c }).push(if c == '.' { '_' } else { c }));
        j = j + 1;
    }
    assert(up@.subrange(0, up@.len() as int) =~= up@);
    string_of(out.as_slice())
}

/// The variables every hook process gets, in the order they are applied (a
/// later one for the same name wins): the inherited system variables, the
/// hook's own environment, then the execution id, the hook slug and the
/// raw payload.
pub open spec fn base_env(
    system: Seq<(String, String)>,
    hook_env: Seq<(String, String)>,
    execution_id: Seq<char>,
    hook_slug: Seq<char>,
    payload_json: Seq<char>,
) -> Seq<(Seq<char>, Seq<char>)> {
    pair_texts(system) + pair_texts(hook_env) + seq![
        ("SENDWORD_EXECUTION_ID"@, execution_id),
        ("SENDWORD_HOOK_SLUG"@, hook_slug),
        ("SENDWORD_PAYLOAD"@, payload_json),
    ]
}

/// One variable per flattened payload field.
pub open spec fn field_vars(fields: Seq<(Seq<char>, Seq<char>)>) -> Seq<(Seq<char>, Seq<char>)> {
    fields.map_values(|f: (Seq<char>, Seq<char>)| (field_var(f.0), f.1))
}

fn extend_pairs(out: &mut Vec<(String, String)>, more: &[(String, String)])
    ensures
        pair_texts(final(out)@) == pair_texts(old(out)@) + pair_texts(more@),
{
    let ghost start = pair_texts(out@);
    let mut i: usize = 0;
    while i < more.len()
        invariant
            i <= more@.len(),
            pair_texts(out@) == start + pair_texts(more@.subrange(0, i as int)),
        decreases more@.len() - i,
    {
        proof {
            lemma_pair_texts_push(more@.subrange(0, i as int), more@[i as int]);
            assert(more@.subrange(0, i + 1) =~= more@.subrange(0, i as int).push(more@[i as int]));
        }
        push_pair(out, more[i].0.as_str(), more[i].1.as_str());
        i = i + 1;
    }
    assert(more@.subrange(0, more@.len() as int) =~= more@);
}

/// The environment of a hook's shell command, as assignments applied in
/// order to an empty environment; `system` is what [`system_env_vars`]
/// gave.
pub fn command_env(
    system: &[(String, String)],
    hook_env: &[(String, String)],
    execution_id: &str,
    hook_slug: &str,
    payload_json: &str,
) -> (r: Vec<(String, String)>)
    ensures
        pair_texts(r@) == base_env(system@, hook_env@, execution_id@, hook_slug@, payload_json@),
{
    let mut out: Vec<(String, String)> = Vec::new();
    assert(pair_texts(out@) =~= Seq::<(Seq<char>, Seq<char>)>::empty());
    extend_pairs(&mut out, system);
    extend_pairs(&mut out, hook_env);
    push_pair(&mut out, "SENDWORD_EXECUTION_ID", execution_id);
    push_pair(&mut out, "SENDWORD_HOOK_SLUG", hook_slug);
    push_pair(&mut out, "SENDWORD_PAYLOAD", payload_json);
    assert(pair_texts(out@) =~= base_env(system@, hook_env@, execution_id@, hook_slug@, payload_json@));
    out
}

/// The environment of a hook's script: that of a shell command, then, when
/// the stored payload text is JSON, one `SENDWORD_FIELD_` variable per leaf
/// field of it.
pub fn script_env(
    system: &[(String, String)],
    hook_env: &[(String, String)],
    execution_id: &str,
    hook_slug: &str,
    payload_json: &str,
) -> (r: Vec<(String, String)>)
    ensures
        pair_texts(r@) == base_env(system@, hook_env@, execution_id@, hook_slug@, payload_json@) + match json_payload(
            payload_json.spec_bytes(),
        ) {
            Some(p) => field_vars(flattened(p, seq![])),
            None => seq![],
        },
{
    let parsed = parse_json(payload_json.as_bytes());
    match &parsed {
        Ok(v) => script_env_with(system, hook_env, execution_id, hook_slug, payload_json, Some(v)),
        Err(_) => script_env_with(system, hook_env, execution_id, hook_slug, payload_json, None),
    }
}

/// The environment of a hook's script, given what its payload text reads
/// as: that of a shell command, then, when the payload is JSON (`payload`
/// is `Some`), one `SENDWORD_FIELD_` variable per leaf field of it.
pub fn script_env_with(
    system: &[(String, String)],
    hook_env: &[(String, String)],
    execution_id: &str,
    hook_slug: &str,
    payload_json: &str,
    payload: Option<&Json>,
) -> (r: Vec<(String, String)>)
    ensures
        pair_texts(r@) == base_env(system@, hook_env@, execution_id@, hook_slug@, payload_json@) + match payload {
            Some(p) => field_vars(flattened(*p, seq![])),
            None => seq![],
        },
{
    let mut out = command_env(system, hook_env, execution_id, hook_slug, payload_json);
    let ghost base = pair_texts(out@);
    match payload {
        Some(p) => {
            let fields = flatten_json_fields(p);
            let mut i: usize = 0;
            while i < fields.len()
                invariant
                    i <= fields@.len(),
                    pair_texts(out@) == base + field_vars(pair_texts(fields@).subrange(0, i as int)),
                decreases fields@.len() - i,
            {
                let name = field_env_name(fields[i].0.as_str());
                push_pair(&mut out, name.as_str(), fields[i].1.as_str());
                assert(field_vars(pair_texts(fields@).subrange(0, i + 1)) =~= field_vars(
                    pair_texts(fields@).subrange(0, i as int),
                ).push((field_var(fields@[i as int].0@), fields@[i as int].1@)));
                i = i + 1;
            }
            assert(pair_texts(fields@).subrange(0, fields@.len() as int) =~= pair_texts(fields@));
        },
        None => {
            assert(base + Seq::<(Seq<char>, Seq<char>)>::empty() =~= base);
        },
    }
    out
}

} // verus!
