//! What the hook pages show of a hook: the text fields of the edit form,
//! filled from the configuration, and the facts on the detail page.
use vstd::prelude::*;

use crate::config::{ExecutorConfig, FilterOperator, HmacAlgorithm, HookAuthConfig, HookConfig, PayloadFilter, TimeWindow, MAX_DURATION_NANOS};
use crate::config_writer::{backoff_name, backoff_str, duration_text, filter_operator_name, filter_operator_str, format_duration};
use crate::hook_form::{pair_views, HookForm};
use crate::log_stream::string_views;
use crate::payload::{field_type_name, FieldType, PayloadField, PayloadSchema};
use crate::text::{chars_of, dec, extend_chars, extend_str, lex_lt, lex_lt_asymmetric, lex_lt_le, lex_lt_total, lex_lt_transitive, push_dec, string_of, text_lt};

verus! {

/// `pieces` joined with `sep` between them.
pub open spec fn joined(pieces: Seq<Seq<char>>, sep: Seq<char>) -> Seq<char>
    decreases pieces.len(),
{
    if pieces.len() == 0 {
        seq![]
    } else if pieces.len() == 1 {
        pieces[0]
    } else {
        joined(pieces.drop_last(), sep) + sep + pieces.last()
    }
}

fn join_lines(pieces: &Vec<Vec<char>>, sep: &[char]) -> (r: Vec<char>)
    ensures
        r@ == joined(crate::text::views(pieces@), sep@),
{
    let ghost pv = crate::text::views(pieces@);
    let mut out: Vec<char> = Vec::new();
    let mut i: usize = 0;
    while i < pieces.len()
        invariant
            i <= pieces@.len(),
            pv == crate::text::views(pieces@),
            out@ == joined(pv.take(i as int), sep@),
        decreases pieces@.len() - i,
    {
        assert(pv.take(i + 1).drop_last() == pv.take(i as int));
        assert(pv.take(i + 1).last() == pieces@[i as int]@);
        if i > 0 {
            extend_chars(&mut out, sep);
        } else {
            assert(pv.take(1)[0] == pieces@[0]@);
        }
        extend_chars(&mut out, pieces[i].as_slice());
        i = i + 1;
    }
    assert(pv.take(pieces@.len() as int) == pv);
    out
}

/// Day names joined by `sep`.
pub fn join_day_names(pieces: &Vec<String>, sep: &[char]) -> (r: Vec<char>)
    ensures
        r@ == joined(string_views(pieces@), sep@),
{
    join_strings(pieces, sep)
}

fn join_strings(pieces: &Vec<String>, sep: &[char]) -> (r: Vec<char>)
    ensures
        r@ == joined(string_views(pieces@), sep@),
{
    let mut cs: Vec<Vec<char>> = Vec::new();
    let mut i: usize = 0;
    while i < pieces.len()
        invariant
            i <= pieces@.len(),
            crate::text::views(cs@) == string_views(pieces@).take(i as int),
        decreases pieces@.len() - i,
    {
        let ghost before = cs@;
        cs.push(chars_of(pieces[i].as_str()));
        assert(crate::text::views(cs@) == crate::text::views(before).push(pieces@[i as int]@));
        assert(string_views(pieces@).take(i + 1) == string_views(pieces@).take(i as int).push(pieces@[i as int]@));
        i = i + 1;
    }
    assert(string_views(pieces@).take(pieces@.len() as int) == string_views(pieces@));
    join_lines(&cs, sep)
}

/// The edit-form line of a payload field: `name:type`, with `:required`
/// for a required field.
pub open spec fn payload_line_text(f: PayloadField) -> Seq<char> {
    f.name@ + seq![':'] + field_type_name(f.field_type) + if f.required {
        ":required"@
    } else {
        seq![]
    }
}

/// The payload field of the edit form: one line per schema field.
pub open spec fn payload_text_of(schema: Option<PayloadSchema>) -> Seq<char> {
    match schema {
        Some(s) => joined(s.fields@.map_values(|f: PayloadField| payload_line_text(f)), seq!['\n']),
        None => seq![],
    }
}

/// The payload field of the edit form.
pub fn payload_text(schema: &Option<PayloadSchema>) -> (r: String)
    ensures
        r@ == payload_text_of(*schema),
{
    match schema {
        None => {
            let e = String::new();
            assert(e@ =~= Seq::<char>::empty());
            e
        },
        Some(s) => {
            let ghost lines = s.fields@.map_values(|f: PayloadField| payload_line_text(f));
            let mut pieces: Vec<Vec<char>> = Vec::new();
            let mut i: usize = 0;
            while i < s.fields.len()
                invariant
                    i <= s.fields@.len(),
                    lines == s.fields@.map_values(|f: PayloadField| payload_line_text(f)),
                    crate::text::views(pieces@) == lines.take(i as int),
                decreases s.fields@.len() - i,
            {
                let f = &s.fields[i];
                let mut line: Vec<char> = Vec::new();
                extend_str(&mut line, f.name.as_str());
                line.push(':');
                extend_str(&mut line, f.field_type.as_str());
                if f.required {
                    extend_str(&mut line, ":required");
                } else {
                    assert(line@ + seq![] == line@);
                }
                assert(line@ == payload_line_text(*f));
                let ghost before = pieces@;
                pieces.push(line);
                assert(crate::text::views(pieces@) == crate::text::views(before).push(payload_line_text(*f)));
                assert(lines.take(i + 1) == lines.take(i as int).push(lines[i as int]));
                i = i + 1;
            }
            assert(lines.take(s.fields@.len() as int) == lines);
            let nl: Vec<char> = vec!['\n'];
            assert(nl@ == seq!['\n']);
            assert(crate::text::views(pieces@) == lines);
            let out = join_lines(&pieces, nl.as_slice());
            string_of(out.as_slice())
        },
    }
}

/// The edit-form line of a payload filter: `field:operator`, with
/// `:value` when it has one.
pub open spec fn filter_line_text(f: PayloadFilter) -> Seq<char> {
    f.field@ + seq![':'] + filter_operator_name(f.operator) + match f.value {
        Some(v) => seq![':'] + v@,
        None => seq![],
    }
}

/// The filter field of the edit form: one line per filter.
pub open spec fn filters_text_of(filters: Option<Vec<PayloadFilter>>) -> Seq<char> {
    match filters {
        Some(fs) => joined(fs@.map_values(|f: PayloadFilter| filter_line_text(f)), seq!['\n']),
        None => seq![],
    }
}

/// The filter field of the edit form.
pub fn filters_text(filters: &Option<Vec<PayloadFilter>>) -> (r: String)
    ensures
        r@ == filters_text_of(*filters),
{
    match filters {
        None => {
            let e = String::new();
            assert(e@ =~= Seq::<char>::empty());
            e
        },
        Some(fs) => {
            let ghost lines = fs@.map_values(|f: PayloadFilter| filter_line_text(f));
            let mut pieces: Vec<Vec<char>> = Vec::new();
            let mut i: usize = 0;
            while i < fs.len()
                invariant
                    i <= fs@.len(),
                    lines == fs@.map_values(|f: PayloadFilter| filter_line_text(f)),
                    crate::text::views(pieces@) == lines.take(i as int),
                decreases fs@.len() - i,
            {
                let f = &fs[i];
                let mut line: Vec<char> = Vec::new();
                extend_str(&mut line, f.field.as_str());
                line.push(':');
                extend_str(&mut line, filter_operator_str(f.operator));
                match &f.value {
                    Some(v) => {
                        line.push(':');
                        extend_str(&mut line, v.as_str());
                    },
                    None => {
                        assert(line@ + seq![] == line@);
                    },
                }
                assert(line@ == filter_line_text(*f));
                let ghost before = pieces@;
                pieces.push(line);
                assert(crate::text::views(pieces@) == crate::text::views(before).push(filter_line_text(*f)));
                assert(lines.take(i + 1) == lines.take(i as int).push(lines[i as int]));
                i = i + 1;
            }
            assert(lines.take(fs@.len() as int) == lines);
            let nl: Vec<char> = vec!['\n'];
            assert(nl@ == seq!['\n']);
            assert(crate::text::views(pieces@) == lines);
            let out = join_lines(&pieces, nl.as_slice());
            string_of(out.as_slice())
        },
    }
}

/// The edit-form line of a time window: `Days:start-end`, the days joined
/// by commas.
pub open spec fn window_line_text(w: TimeWindow) -> Seq<char> {
    joined(string_views(w.days@), seq![',']) + seq![':'] + w.start_time@ + seq!['-'] + w.end_time@
}

/// The window field of the edit form: one line per window.
pub open spec fn windows_text_of(windows: Option<Vec<TimeWindow>>) -> Seq<char> {
    match windows {
        Some(ws) => joined(ws@.map_values(|w: TimeWindow| window_line_text(w)), seq!['\n']),
        None => seq![],
    }
}

/// The window field of the edit form.
pub fn windows_text(windows: &Option<Vec<TimeWindow>>) -> (r: String)
    ensures
        r@ == windows_text_of(*windows),
{
    match windows {
        None => {
            let e = String::new();
            assert(e@ =~= Seq::<char>::empty());
            e
        },
        Some(ws) => {
            let ghost lines = ws@.map_values(|w: TimeWindow| window_line_text(w));
            let mut pieces: Vec<Vec<char>> = Vec::new();
            let comma: Vec<char> = vec![','];
            let mut i: usize = 0;
            while i < ws.len()
                invariant
                    i <= ws@.len(),
                    comma@ == seq![','],
                    lines == ws@.map_values(|w: TimeWindow| window_line_text(w)),
                    crate::text::views(pieces@) == lines.take(i as int),
                decreases ws@.len() - i,
            {
                let w = &ws[i];
                let mut line = join_strings(&w.days, comma.as_slice());
                line.push(':');
                extend_str(&mut line, w.start_time.as_str());
                line.push('-');
                extend_str(&mut line, w.end_time.as_str());
                assert(line@ == window_line_text(*w));
                let ghost before = pieces@;
                pieces.push(line);
                assert(crate::text::views(pieces@) == crate::text::views(before).push(window_line_text(*w)));
                assert(lines.take(i + 1) == lines.take(i as int).push(lines[i as int]));
                i = i + 1;
            }
            assert(lines.take(ws@.len() as int) == lines);
            let nl: Vec<char> = vec!['\n'];
            assert(nl@ == seq!['\n']);
            assert(crate::text::views(pieces@) == lines);
            let out = join_lines(&pieces, nl.as_slice());
            string_of(out.as_slice())
        },
    }
}

/// Whether the pairs are in order of their names.
pub open spec fn sorted_by_name(pairs: Seq<(String, String)>) -> bool {
    forall|i: int, j: int| 0 <= i < j < pairs.len() ==> !lex_lt(#[trigger] pairs[j].0@, #[trigger] pairs[i].0@)
}

/// The pairs of `env` ordered by name; pairs with equal names keep their
/// order.
pub fn sort_env(env: &Vec<(String, String)>) -> (r: Vec<(String, String)>)
    ensures
        sorted_by_name(r@),
        r@.to_multiset() == env@.to_multiset(),
{
    broadcast use vstd::seq_lib::to_multiset_build, vstd::seq_lib::to_multiset_insert;
    let mut out: Vec<(String, String)> = Vec::new();
    let mut i: usize = 0;
    assert(env@.take(0) =~= Seq::<(String, String)>::empty());
    while i < env.len()
        invariant
            i <= env@.len(),
            sorted_by_name(out@),
            out@.to_multiset() == env@.take(i as int).to_multiset(),
        decreases env@.len() - i,
    {
        let x = (env[i].0.clone(), env[i].1.clone());
        assert(x == env@[i as int]);
        let xk = chars_of(x.0.as_str());
        let mut p: usize = 0;
        while p < out.len() && !text_lt(xk.as_slice(), chars_of(out[p].0.as_str()).as_slice())
            invariant
                p <= out@.len(),
                xk@ == x.0@,
                forall|j: int| 0 <= j < p ==> !lex_lt(x.0@, #[trigger] out@[j].0@),
            decreases out@.len() - p,
        {
            p = p + 1;
        }
        let ghost before = out@;
        out.insert(p, x);
        proof {
            assert(out@ == before.insert(p as int, x));
            assert forall|a: int, b: int| 0 <= a < b < out@.len() implies !lex_lt(
                #[trigger] out@[b].0@,
                #[trigger] out@[a].0@,
            ) by {
                if b < p {
                } else if b == p {
                    lex_lt_asymmetric(out@[a].0@, x.0@);
                } else if a < p {
                    // out[a] <= x < before[p] <= out[b]
                    assert(out@[b] == before[b - 1]);
                    assert(lex_lt(x.0@, before[p as int].0@));
                    if b - 1 > p {
                        assert(!lex_lt(before[b - 1].0@, before[p as int].0@));
                    } else {
                        lex_lt_asymmetric(before[p as int].0@, before[p as int].0@);
                    }
                    lex_lt_le(x.0@, before[p as int].0@, before[b - 1].0@);
                    if lex_lt(out@[b].0@, out@[a].0@) {
                        lex_lt_total(out@[a].0@, x.0@);
                        if out@[a].0@ != x.0@ {
                            lex_lt_transitive(out@[b].0@, out@[a].0@, x.0@);
                        }
                        lex_lt_asymmetric(x.0@, out@[b].0@);
                    }
                } else if a == p {
                    assert(out@[b] == before[b - 1]);
                    assert(lex_lt(x.0@, before[p as int].0@));
                    if b - 1 > p {
                        assert(!lex_lt(before[b - 1].0@, before[p as int].0@));
                    } else {
                        lex_lt_asymmetric(before[p as int].0@, before[p as int].0@);
                    }
                    lex_lt_le(x.0@, before[p as int].0@, before[b - 1].0@);
                    lex_lt_asymmetric(x.0@, out@[b].0@);
                } else {
                    assert(out@[a] == before[a - 1]);
                    assert(out@[b] == before[b - 1]);
                }
            }
            assert(env@.take(i + 1) == env@.take(i as int).push(env@[i as int]));
            vstd::seq_lib::to_multiset_insert(before, p as int, x);
            vstd::seq_lib::to_multiset_build(env@.take(i as int), env@[i as int]);
        }
        i = i + 1;
    }
    assert(env@.take(env@.len() as int) == env@);
    out
}

/// The edit-form line of an environment variable: `NAME=value`.
pub open spec fn env_line_text(p: (String, String)) -> Seq<char> {
    p.0@ + seq!['='] + p.1@
}

/// The environment field of the edit form: one `NAME=value` line per
/// variable, in order of the names.
pub fn env_text(env: &Vec<(String, String)>) -> (r: String)
    ensures
        exists|sorted: Seq<(String, String)>|
            #![trigger sorted.to_multiset()]
            sorted_by_name(sorted) && sorted.to_multiset() == env@.to_multiset() && r@ == joined(
                sorted.map_values(|p: (String, String)| env_line_text(p)),
                seq!['\n'],
            ),
{
    let sorted = sort_env(env);
    let ghost lines = sorted@.map_values(|p: (String, String)| env_line_text(p));
    let mut pieces: Vec<Vec<char>> = Vec::new();
    let mut i: usize = 0;
    while i < sorted.len()
        invariant
            i <= sorted@.len(),
            lines == sorted@.map_values(|p: (String, String)| env_line_text(p)),
            crate::text::views(pieces@) == lines.take(i as int),
        decreases sorted@.len() - i,
    {
        let mut line: Vec<char> = Vec::new();
        extend_str(&mut line, sorted[i].0.as_str());
        line.push('=');
        extend_str(&mut line, sorted[i].1.as_str());
        assert(line@ == env_line_text(sorted@[i as int]));
        let ghost before = pieces@;
        pieces.push(line);
        assert(crate::text::views(pieces@) == crate::text::views(before).push(lines[i as int]));
        assert(lines.take(i + 1) == lines.take(i as int).push(lines[i as int]));
        i = i + 1;
    }
    assert(lines.take(sorted@.len() as int) == lines);
    let nl: Vec<char> = vec!['\n'];
    assert(nl@ == seq!['\n']);
    assert(crate::text::views(pieces@) == lines);
    let out = join_lines(&pieces, nl.as_slice());
    string_of(out.as_slice())
}

/// The durations of a hook are within what a `Duration` holds.
pub open spec fn durations_in_range(hook: HookConfig) -> bool {
    &&& (hook.timeout matches Some(t) ==> t <= MAX_DURATION_NANOS)
    &&& (hook.retries matches Some(r) ==> r.initial_delay <= MAX_DURATION_NANOS && r.max_delay <= MAX_DURATION_NANOS)
    &&& (hook.trigger_rules matches Some(rules) ==> {
        &&& (rules.cooldown matches Some(c) ==> c <= MAX_DURATION_NANOS)
        &&& (rules.rate_limit matches Some(rl) ==> rl.window <= MAX_DURATION_NANOS)
    })
}

/// The text of an optional duration: its `format_duration` text, or empty.
pub open spec fn opt_duration_text(d: Option<u128>) -> Seq<char> {
    match d {
        Some(n) => duration_text(n as nat),
        None => seq![],
    }
}

fn opt_duration(d: Option<u128>) -> (s: String)
    requires
        d matches Some(n) ==> n <= MAX_DURATION_NANOS,
    ensures
        s@ == opt_duration_text(d),
{
    match d {
        Some(n) => format_duration(n),
        None => {
            let e = String::new();
            assert(e@ =~= Seq::<char>::empty());
            e
        },
    }
}

fn some_text(s: &str) -> (r: Option<String>)
    ensures
        r matches Some(t) && t@ == s@,
{
    Some(s.to_owned())
}

/// The command field of the form: the shell command, the script path or
/// the URL.
pub open spec fn command_text(executor: ExecutorConfig) -> Seq<char> {
    match executor {
        ExecutorConfig::Shell { command } => command@,
        ExecutorConfig::Script { path } => path@,
        ExecutorConfig::Http { url, .. } => url@,
    }
}

/// The edit form of a hook, filled from its configuration.
pub fn hook_form_values(hook: &HookConfig) -> (form: HookForm)
    requires
        durations_in_range(*hook),
    ensures
        form.name@ == hook.name@,
        form.slug@ == hook.slug@,
        form.description@ == hook.description@,
        (form.enabled is Some) == hook.enabled,
        form.command@ == command_text(hook.executor),
        form.cwd@ == match hook.cwd {
            Some(c) => c@,
            None => seq![],
        },
        form.timeout@ == opt_duration_text(hook.timeout),
        form.payload_text@ == payload_text_of(hook.payload),
        match hook.retries {
            Some(r) => {
                &&& form.retry_count matches Some(c) && c@ == dec(r.count as nat)
                &&& form.retry_backoff matches Some(b) && b@ == backoff_name(r.backoff)
                &&& form.retry_initial_delay matches Some(d) && d@ == duration_text(r.initial_delay as nat)
                &&& form.retry_max_delay matches Some(d) && d@ == duration_text(r.max_delay as nat)
            },
            None => {
                &&& form.retry_count matches Some(c) && c@ == seq!['0']
                &&& form.retry_backoff matches Some(b) && b@ == "exponential"@
                &&& form.retry_initial_delay matches Some(d) && d@.len() == 0
                &&& form.retry_max_delay matches Some(d) && d@.len() == 0
            },
        },
        match hook.auth {
            Some(HookAuthConfig::Bearer { token }) => {
                &&& form.auth_mode matches Some(m) && m@ == "bearer"@
                &&& form.auth_token matches Some(t) && t@ == token@
            },
            Some(HookAuthConfig::Hmac { header, algorithm: _, secret }) => {
                &&& form.auth_mode matches Some(m) && m@ == "hmac"@
                &&& form.auth_header matches Some(h) && h@ == header@
                &&& form.auth_algorithm matches Some(a) && a@ == "sha256"@
                &&& form.auth_secret matches Some(s) && s@ == secret@
            },
            _ => form.auth_mode matches Some(m) && m@ == "none"@,
        },
        match hook.trigger_rules {
            Some(rules) => {
                &&& form.trigger_filters_text@ == filters_text_of(rules.payload_filters)
                &&& form.trigger_windows_text@ == windows_text_of(rules.time_windows)
                &&& form.trigger_cooldown@ == opt_duration_text(rules.cooldown)
                &&& match rules.rate_limit {
                    Some(rl) => form.trigger_rate_max matches Some(m) && m@ == dec(rl.max_requests as nat)
                        && form.trigger_rate_window@ == duration_text(rl.window as nat),
                    None => form.trigger_rate_max matches Some(m) && m@.len() == 0
                        && form.trigger_rate_window@.len() == 0,
                }
            },
            None => {
                &&& form.trigger_filters_text@.len() == 0
                &&& form.trigger_windows_text@.len() == 0
                &&& form.trigger_cooldown@.len() == 0
                &&& form.trigger_rate_max matches Some(m) && m@.len() == 0
                &&& form.trigger_rate_window@.len() == 0
            },
        },
{
    let command = match &hook.executor {
        ExecutorConfig::Shell { command } => command.clone(),
        ExecutorConfig::Script { path } => path.clone(),
        ExecutorConfig::Http { url, .. } => url.clone(),
    };
    let empty = String::new();
    assert(empty@ =~= Seq::<char>::empty());
    let cwd = match &hook.cwd {
        Some(c) => c.clone(),
        None => String::new(),
    };
    let (retry_count, retry_backoff, retry_initial_delay, retry_max_delay) = match &hook.retries {
        Some(r) => {
            let mut c: Vec<char> = Vec::new();
            push_dec(&mut c, r.count as u128);
            (
                Some(string_of(c.as_slice())),
                some_text(backoff_str(r.backoff)),
                Some(format_duration(r.initial_delay)),
                Some(format_duration(r.max_delay)),
            )
        },
        None => {
            let mut c: Vec<char> = Vec::new();
            push_dec(&mut c, 0);
            proof {
                reveal_with_fuel(dec, 1);
            }
            (Some(string_of(c.as_slice())), some_text("exponential"), Some(String::new()), Some(String::new()))
        },
    };
    let (auth_mode, auth_token, auth_header, auth_algorithm, auth_secret) = match &hook.auth {
        Some(HookAuthConfig::Bearer { token }) => (
            some_text("bearer"),
            Some(token.clone()),
            Some(String::new()),
            Some(String::new()),
            Some(String::new()),
        ),
        Some(HookAuthConfig::Hmac { header, algorithm: _, secret }) => (
            some_text("hmac"),
            Some(String::new()),
            Some(header.clone()),
            some_text("sha256"),
            Some(secret.clone()),
        ),
        _ => (
            some_text("none"),
            Some(String::new()),
            Some(String::new()),
            some_text("sha256"),
            Some(String::new()),
        ),
    };
    let (filters, windows, cooldown, rate_max, rate_window) = match &hook.trigger_rules {
        Some(rules) => {
            let (m, w) = match rules.rate_limit {
                Some(rl) => {
                    let mut c: Vec<char> = Vec::new();
                    push_dec(&mut c, rl.max_requests as u128);
                    (Some(string_of(c.as_slice())), format_duration(rl.window))
                },
                None => (Some(String::new()), String::new()),
            };
            (filters_text(&rules.payload_filters), windows_text(&rules.time_windows), opt_duration(rules.cooldown), m, w)
        },
        None => (String::new(), String::new(), String::new(), Some(String::new()), String::new()),
    };
    HookForm {
        name: hook.name.clone(),
        slug: hook.slug.clone(),
        description: hook.description.clone(),
        enabled: if hook.enabled { some_text("true") } else { None },
        command,
        cwd,
        timeout: opt_duration(hook.timeout),
        env_text: env_text(&hook.env),
        retry_count,
        retry_backoff,
        retry_initial_delay,
        retry_max_delay,
        auth_mode,
        auth_token,
        auth_header,
        auth_algorithm,
        auth_secret,
        payload_text: payload_text(&hook.payload),
        trigger_filters_text: filters,
        trigger_windows_text: windows,
        trigger_cooldown: cooldown,
        trigger_rate_max: rate_max,
        trigger_rate_window: rate_window,
    }
}

/// The relative path of `path` below `base`, as `Path::strip_prefix`
/// gives it (comparing whole path components), when `path` lies below it
/// and the rest is valid text.
pub uninterp spec fn path_below(path: Seq<char>, base: Seq<char>) -> Option<Seq<char>>;

/// `Path::new(path).strip_prefix(base)`, then `to_str`. Claims only the
/// named result.
#[verifier::external_body]
fn strip_path_prefix(path: &str, base: &str) -> (r: Option<String>)
    ensures
        r matches Some(t) ==> path_below(path@, base@) == Some(t@),
        r is None ==> path_below(path@, base@) is None,
{
    match std::path::Path::new(path).strip_prefix(base) {
        Ok(rest) => rest.to_str().map(|t| t.to_owned()),
        Err(_) => None,
    }
}

/// The link to the script editor for a command that names a file directly
/// inside the managed scripts directory.
pub open spec fn script_edit_link(command: Seq<char>, scripts_dir: Seq<char>) -> Option<Seq<char>> {
    match path_below(command, scripts_dir) {
        Some(name) => if name.len() > 0 && !name.contains('/') {
            Some("/scripts/"@ + name)
        } else {
            None
        },
        None => None,
    }
}

/// The link to the script editor, when the command is a managed script.
pub fn script_edit_url(command: &str, scripts_dir: &str) -> (r: Option<String>)
    ensures
        r matches Some(u) ==> script_edit_link(command@, scripts_dir@) == Some(u@),
        r is None ==> script_edit_link(command@, scripts_dir@) is None,
{
    match strip_path_prefix(command, scripts_dir) {
        Some(name) => {
            let nc = chars_of(name.as_str());
            if nc.len() == 0 {
                return None;
            }
            match crate::text::find_char(nc.as_slice(), '/') {
                Some(_) => None,
                None => {
                    let mut m: Vec<char> = Vec::new();
                    extend_str(&mut m, "/scripts/");
                    extend_chars(&mut m, nc.as_slice());
                    Some(string_of(m.as_slice()))
                },
            }
        },
        None => None,
    }
}

/// The kind of executor, as the detail page names it.
pub open spec fn executor_kind(executor: ExecutorConfig) -> Seq<char> {
    match executor {
        ExecutorConfig::Shell { .. } => "shell"@,
        ExecutorConfig::Script { .. } => "script"@,
        ExecutorConfig::Http { .. } => "http"@,
    }
}

/// What the detail page says of a hook's authentication: the mode, and
/// the header and algorithm for HMAC.
pub open spec fn auth_summary(auth: Option<HookAuthConfig>) -> (Seq<char>, Seq<char>, Seq<char>) {
    match auth {
        Some(HookAuthConfig::Bearer { .. }) => ("bearer"@, seq![], seq![]),
        Some(HookAuthConfig::Hmac { header, .. }) => ("hmac"@, header@, "sha256"@),
        _ => ("none"@, seq![], seq![]),
    }
}

/// The facts the detail page shows of a hook.
#[derive(Debug)]
pub struct HookDetail {
    pub executor_type: String,
    pub executor_command: String,
    pub script_edit_url: Option<String>,
    /// The timeout in whole seconds (the default when the hook has none).
    pub timeout_secs: u128,
    pub env_vars: Vec<String>,
    pub auth_mode: String,
    pub auth_header: String,
    pub auth_algorithm: String,
    /// Name, type and whether required, per payload field.
    pub payload_fields: Vec<(String, String, bool)>,
    /// Field, operator and value (empty when none), per filter.
    pub filter_rows: Vec<(String, String, String)>,
    /// Days (joined by `, `), start and end, per window.
    pub window_rows: Vec<(String, String, String)>,
    pub cooldown: String,
    pub rate_max: String,
    pub rate_window: String,
}

/// The detail-page facts of a hook; `default_timeout` applies when the
/// hook sets none, and `scripts_dir` is the managed scripts directory.
pub fn hook_detail(hook: &HookConfig, default_timeout: u128, scripts_dir: &str) -> (d: HookDetail)
    requires
        durations_in_range(*hook),
    ensures
        d.executor_type@ == executor_kind(hook.executor),
        d.executor_command@ == command_text(hook.executor),
        d.script_edit_url matches Some(u) ==> script_edit_link(command_text(hook.executor), scripts_dir@) == Some(u@),
        d.script_edit_url is None ==> script_edit_link(command_text(hook.executor), scripts_dir@) is None,
        d.timeout_secs == (match hook.timeout {
            Some(t) => t,
            None => default_timeout,
        }) / 1_000_000_000,
        string_views(d.env_vars@) == hook.env@.map_values(|p: (String, String)| p.0@),
        (d.auth_mode@, d.auth_header@, d.auth_algorithm@) == auth_summary(hook.auth),
        d.payload_fields@.len() == match hook.payload {
            Some(s) => s.fields@.len(),
            None => 0,
        },
        hook.payload matches Some(s) ==> forall|i: int| 0 <= i < s.fields@.len() ==> {
            &&& (#[trigger] d.payload_fields@[i]).0@ == s.fields@[i].name@
            &&& d.payload_fields@[i].1@ == field_type_name(s.fields@[i].field_type)
            &&& d.payload_fields@[i].2 == s.fields@[i].required
        },
        match hook.trigger_rules {
            Some(rules) => {
                &&& d.cooldown@ == opt_duration_text(rules.cooldown)
                &&& match rules.rate_limit {
                    Some(rl) => d.rate_max@ == dec(rl.max_requests as nat) && d.rate_window@ == duration_text(rl.window as nat),
                    None => d.rate_max@.len() == 0 && d.rate_window@.len() == 0,
                }
                &&& d.filter_rows@.len() == match rules.payload_filters {
                    Some(fs) => fs@.len(),
                    None => 0,
                }
                &&& rules.payload_filters matches Some(fs) ==> forall|i: int| 0 <= i < fs@.len() ==> {
                    &&& (#[trigger] d.filter_rows@[i]).0@ == fs@[i].field@
                    &&& d.filter_rows@[i].1@ == filter_operator_name(fs@[i].operator)
                    &&& d.filter_rows@[i].2@ == match fs@[i].value {
                        Some(v) => v@,
                        None => seq![],
                    }
                }
                &&& d.window_rows@.len() == match rules.time_windows {
                    Some(ws) => ws@.len(),
                    None => 0,
                }
                &&& rules.time_windows matches Some(ws) ==> forall|i: int| 0 <= i < ws@.len() ==> {
                    &&& (#[trigger] d.window_rows@[i]).0@ == joined(string_views(ws@[i].days@), seq![',', ' '])
                    &&& d.window_rows@[i].1@ == ws@[i].start_time@
                    &&& d.window_rows@[i].2@ == ws@[i].end_time@
                }
            },
            None => {
                &&& d.cooldown@.len() == 0 && d.rate_max@.len() == 0 && d.rate_window@.len() == 0
                &&& d.filter_rows@.len() == 0 && d.window_rows@.len() == 0
            },
        },
{
    let (executor_type, executor_command) = match &hook.executor {
        ExecutorConfig::Shell { command } => ("shell".to_owned(), command.clone()),
        ExecutorConfig::Script { path } => ("script".to_owned(), path.clone()),
        ExecutorConfig::Http { url, .. } => ("http".to_owned(), url.clone()),
    };
    let script_edit_url = script_edit_url(executor_command.as_str(), scripts_dir);
    let timeout = match hook.timeout {
        Some(t) => t,
        None => default_timeout,
    };
    let mut env_vars: Vec<String> = Vec::new();
    let mut i: usize = 0;
    while i < hook.env.len()
        invariant
            i <= hook.env@.len(),
            string_views(env_vars@) == hook.env@.map_values(|p: (String, String)| p.0@).take(i as int),
        decreases hook.env@.len() - i,
    {
        let ghost before = env_vars@;
        env_vars.push(hook.env[i].0.clone());
        assert(string_views(env_vars@) == string_views(before).push(hook.env@[i as int].0@));
        assert(hook.env@.map_values(|p: (String, String)| p.0@).take(i + 1) == hook.env@.map_values(
            |p: (String, String)| p.0@,
        ).take(i as int).push(hook.env@[i as int].0@));
        i = i + 1;
    }
    assert(hook.env@.map_values(|p: (String, String)| p.0@).take(hook.env@.len() as int) == hook.env@.map_values(
        |p: (String, String)| p.0@,
    ));
    let (auth_mode, auth_header, auth_algorithm) = match &hook.auth {
        Some(HookAuthConfig::Bearer { .. }) => ("bearer".to_owned(), String::new(), String::new()),
        Some(HookAuthConfig::Hmac { header, .. }) => ("hmac".to_owned(), header.clone(), "sha256".to_owned()),
        _ => ("none".to_owned(), String::new(), String::new()),
    };
    let mut payload_fields: Vec<(String, String, bool)> = Vec::new();
    match &hook.payload {
        Some(s) => {
            let mut k: usize = 0;
            while k < s.fields.len()
                invariant
                    k <= s.fields@.len(),
                    payload_fields@.len() == k,
                    forall|j: int| 0 <= j < k ==> {
                        &&& (#[trigger] payload_fields@[j]).0@ == s.fields@[j].name@
                        &&& payload_fields@[j].1@ == field_type_name(s.fields@[j].field_type)
                        &&& payload_fields@[j].2 == s.fields@[j].required
                    },
                decreases s.fields@.len() - k,
            {
                let f = &s.fields[k];
                payload_fields.push((f.name.clone(), f.field_type.to_string(), f.required));
                k = k + 1;
            }
        },
        None => {},
    }
    let mut filter_rows: Vec<(String, String, String)> = Vec::new();
    let mut window_rows: Vec<(String, String, String)> = Vec::new();
    let (cooldown, rate_max, rate_window) = match &hook.trigger_rules {
        Some(rules) => {
            match &rules.payload_filters {
                Some(fs) => {
                    let mut k: usize = 0;
                    while k < fs.len()
                        invariant
                            k <= fs@.len(),
                            filter_rows@.len() == k,
                            forall|j: int| 0 <= j < k ==> {
                                &&& (#[trigger] filter_rows@[j]).0@ == fs@[j].field@
                                &&& filter_rows@[j].1@ == filter_operator_name(fs@[j].operator)
                                &&& filter_rows@[j].2@ == match fs@[j].value {
                                    Some(v) => v@,
                                    None => seq![],
                                }
                            },
                        decreases fs@.len() - k,
                    {
                        let f = &fs[k];
                        let v = match &f.value {
                            Some(v) => v.clone(),
                            None => {
                                let e = String::new();
                                assert(e@ =~= Seq::<char>::empty());
                                e
                            },
                        };
                        filter_rows.push((f.field.clone(), filter_operator_str(f.operator).to_owned(), v));
                        k = k + 1;
                    }
                },
                None => {},
            }
            match &rules.time_windows {
                Some(ws) => {
                    let sep: Vec<char> = vec![',', ' '];
                    let mut k: usize = 0;
                    while k < ws.len()
                        invariant
                            k <= ws@.len(),
                            sep@ == seq![',', ' '],
                            window_rows@.len() == k,
                            forall|j: int| 0 <= j < k ==> {
                                &&& (#[trigger] window_rows@[j]).0@ == joined(string_views(ws@[j].days@), seq![',', ' '])
                                &&& window_rows@[j].1@ == ws@[j].start_time@
                                &&& window_rows@[j].2@ == ws@[j].end_time@
                            },
                        decreases ws@.len() - k,
                    {
                        let w = &ws[k];
                        let days = join_strings(&w.days, sep.as_slice());
                        window_rows.push((string_of(days.as_slice()), w.start_time.clone(), w.end_time.clone()));
                        k = k + 1;
                    }
                },
                None => {},
            }
            let (m, w) = match rules.rate_limit {
                Some(rl) => {
                    let mut c: Vec<char> = Vec::new();
                    push_dec(&mut c, rl.max_requests as u128);
                    (string_of(c.as_slice()), format_duration(rl.window))
                },
                None => (String::new(), String::new()),
            };
            (opt_duration(rules.cooldown), m, w)
        },
        None => (String::new(), String::new(), String::new()),
    };
    HookDetail {
        executor_type,
        executor_command,
        script_edit_url,
        timeout_secs: timeout / 1_000_000_000,
        env_vars,
        auth_mode,
        auth_header,
        auth_algorithm,
        payload_fields,
        filter_rows,
        window_rows,
        cooldown,
        rate_max,
        rate_window,
    }
}

/// `joined` taken apart at its first piece.
proof fn joined_front(pieces: Seq<Seq<char>>, sep: Seq<char>)
    requires
        pieces.len() >= 2,
    ensures
        joined(pieces, sep) == pieces[0] + sep + joined(pieces.drop_first(), sep),
    decreases pieces.len(),
{
    let init = pieces.drop_last();
    let rest = pieces.drop_first();
    if pieces.len() > 2 {
        joined_front(init, sep);
        assert(init.drop_first() == rest.drop_last());
        assert(rest.last() == pieces.last());
        assert(init[0] == pieces[0]);
        assert(joined(rest, sep) == joined(rest.drop_last(), sep) + sep + rest.last());
        assert(joined(pieces, sep) == joined(init, sep) + sep + pieces.last());
        assert(joined(pieces, sep) =~= pieces[0] + sep + joined(rest, sep));
    } else {
        assert(rest.len() == 1);
        assert(init.len() == 1);
        assert(init[0] == pieces[0]);
        assert(rest[0] == pieces.last());
        assert(joined(init, sep) == init[0]);
        assert(joined(rest, sep) == rest[0]);
        assert(joined(pieces, sep) == joined(init, sep) + sep + pieces.last());
        assert(joined(pieces, sep) =~= pieces[0] + sep + joined(rest, sep));
    }
}

/// Lines without `c`, joined by `c`, split back into the lines.
pub proof fn split_of_joined(pieces: Seq<Seq<char>>, c: char)
    requires
        pieces.len() >= 1,
        forall|i: int| 0 <= i < pieces.len() ==> !(#[trigger] pieces[i]).contains(c),
    ensures
        crate::text::split_seq(joined(pieces, seq![c]), c) == pieces,
    decreases pieces.len(),
{
    if pieces.len() == 1 {
        crate::text::split_whole(pieces[0], c);
        assert(seq![pieces[0]] == pieces);
    } else {
        joined_front(pieces, seq![c]);
        split_of_joined(pieces.drop_first(), c);
        crate::text::split_after_first(pieces[0], c, joined(pieces.drop_first(), seq![c]));
        assert(seq![pieces[0]] + pieces.drop_first() == pieces);
    }
}

/// A field name the payload field of the edit form carries unchanged:
/// not empty, without surrounding white space, `:` or line breaks.
pub open spec fn plain_name(name: Seq<char>) -> bool {
    &&& name.len() > 0
    &&& !crate::text::is_ws(name[0])
    &&& !crate::text::is_ws(name.last())
    &&& !name.contains(':')
    &&& !name.contains('\n')
}

proof fn field_type_name_facts(t: FieldType)
    ensures
        field_type_name(t).len() > 0,
        !crate::text::is_ws(field_type_name(t)[0]),
        !crate::text::is_ws(field_type_name(t).last()),
        !field_type_name(t).contains(':'),
        !field_type_name(t).contains('\n'),
        crate::payload::field_type_named(field_type_name(t)) == Some(t),
{
    reveal_strlit("string");
    reveal_strlit("number");
    reveal_strlit("boolean");
    reveal_strlit("object");
    reveal_strlit("array");
    let n = field_type_name(t);
    assert(!n.contains(':') && !n.contains('\n')) by {
        if n.contains(':') || n.contains('\n') {
            let i = choose|i: int| 0 <= i < n.len() && (n[i] == ':' || n[i] == '\n');
            assert(n[i] != ':' && n[i] != '\n');
        }
    }
    assert("number"@.len() != "string"@.len() || "number"@[0] != "string"@[0]);
    assert("boolean"@.len() != "string"@.len());
    assert("boolean"@.len() != "number"@.len());
    assert("object"@[0] != "string"@[0]);
    assert("object"@[0] != "number"@[0]);
    assert("object"@.len() != "boolean"@.len());
    assert("array"@.len() != "string"@.len());
    assert("array"@.len() != "number"@.len());
    assert("array"@.len() != "boolean"@.len());
    assert("array"@.len() != "object"@.len());
}

proof fn payload_line_reads_back(n: nat, f: PayloadField)
    requires
        plain_name(f.name@),
    ensures
        crate::text::trim(payload_line_text(f)) == payload_line_text(f),
        payload_line_text(f).len() > 0,
        !payload_line_text(f).contains('\n'),
        crate::hook_form::payload_line(n, payload_line_text(f)) == Ok::<(Seq<char>, FieldType, bool), Seq<char>>(
            crate::hook_form::field_view(f),
        ),
{
    reveal_strlit(":required");
    reveal_strlit("required");
    field_type_name_facts(f.field_type);
    let name = f.name@;
    let tn = field_type_name(f.field_type);
    let line = payload_line_text(f);
    let tail = if f.required { ":required"@ } else { seq![] };
    assert(line == name + seq![':'] + (tn + tail));
    crate::text::trim_unchanged(name);
    crate::text::trim_unchanged(tn);
    crate::text::split_after_first(name, ':', tn + tail);
    assert(line[0] == name[0]);
    if f.required {
        assert(":required"@ == seq![':'] + "required"@);
        assert(tn + tail == tn + seq![':'] + "required"@);
        crate::text::split_after_first(tn, ':', "required"@);
        crate::text::split_whole("required"@, ':');
        crate::text::trim_unchanged("required"@);
        assert(line.last() == 'd');
        assert(!line.contains('\n')) by {
            if line.contains('\n') {
                let i = choose|i: int| 0 <= i < line.len() && line[i] == '\n';
                if i < name.len() {
                    assert(name[i] == '\n');
                    assert(name.contains('\n'));
                } else if i == name.len() {
                } else if i < name.len() + 1 + tn.len() {
                    assert(tn[i - name.len() - 1] == '\n');
                    assert(tn.contains('\n'));
                } else {
                }
            }
        }
        let parts = crate::text::splitn_seq(line, 3, ':');
        assert(parts == seq![name] + (seq![tn] + seq!["required"@]));
        assert(parts.len() == 3);
    } else {
        assert(tn + tail == tn);
        crate::text::split_whole(tn, ':');
        assert(line.last() == tn.last());
        assert(!line.contains('\n')) by {
            if line.contains('\n') {
                let i = choose|i: int| 0 <= i < line.len() && line[i] == '\n';
                if i < name.len() {
                    assert(name[i] == '\n');
                    assert(name.contains('\n'));
                } else if i == name.len() {
                } else {
                    assert(tn[i - name.len() - 1] == '\n');
                    assert(tn.contains('\n'));
                }
            }
        }
        let parts = crate::text::splitn_seq(line, 3, ':');
        assert(parts == seq![name] + seq![tn]);
        assert(parts.len() == 2);
    }
    crate::text::trim_unchanged(line);
}

proof fn payload_lines_read_back(fields: Seq<PayloadField>, k: int)
    requires
        0 <= k <= fields.len(),
        forall|i: int| 0 <= i < fields.len() ==> plain_name((#[trigger] fields[i]).name@),
    ensures
        crate::hook_form::parsed_lines(
            fields.map_values(|f: PayloadField| payload_line_text(f)).take(k),
            crate::hook_form::payload_reader(),
        ) == Ok::<Seq<(Seq<char>, FieldType, bool)>, Seq<char>>(crate::hook_form::field_views(fields.take(k))),
    decreases k,
{
    let lines = fields.map_values(|f: PayloadField| payload_line_text(f));
    if k > 0 {
        payload_lines_read_back(fields, k - 1);
        assert(lines.take(k).drop_last() == lines.take(k - 1));
        assert(lines.take(k).last() == payload_line_text(fields[k - 1]));
        payload_line_reads_back(k as nat, fields[k - 1]);
        assert(fields.take(k) == fields.take(k - 1).push(fields[k - 1]));
        assert(crate::hook_form::field_views(fields.take(k)) == crate::hook_form::field_views(
            fields.take(k - 1),
        ).push(crate::hook_form::field_view(fields[k - 1])));
    } else {
        assert(lines.take(0) =~= Seq::<Seq<char>>::empty());
        assert(crate::hook_form::field_views(fields.take(0)) =~= Seq::<(Seq<char>, FieldType, bool)>::empty());
    }
}

/// What the edit form shows in its payload field reads back as the
/// hook's schema, when every field name is plain.
pub proof fn payload_text_reads_back(schema: PayloadSchema)
    requires
        schema.fields@.len() > 0,
        forall|i: int| 0 <= i < schema.fields@.len() ==> plain_name((#[trigger] schema.fields@[i]).name@),
    ensures
        crate::hook_form::payload_text_result(payload_text_of(Some(schema))) == Ok::<Seq<(Seq<char>, FieldType, bool)>, Seq<char>>(
            crate::hook_form::field_views(schema.fields@),
        ),
{
    let fields = schema.fields@;
    let lines = fields.map_values(|f: PayloadField| payload_line_text(f));
    assert forall|i: int| 0 <= i < lines.len() implies !(#[trigger] lines[i]).contains('\n') by {
        payload_line_reads_back(1, fields[i]);
    }
    split_of_joined(lines, '\n');
    payload_lines_read_back(fields, fields.len() as int);
    assert(lines.take(lines.len() as int) == lines);
    assert(fields.take(fields.len() as int) == fields);
}


/// A value the filter field of the edit form carries unchanged: not empty,
/// without surrounding white space or line breaks.
pub open spec fn plain_value(v: Seq<char>) -> bool {
    &&& v.len() > 0
    &&& !crate::text::is_ws(v[0])
    &&& !crate::text::is_ws(v.last())
    &&& !v.contains('\n')
}

/// A filter the filter field of the edit form carries unchanged: a plain
/// field name, and a plain value exactly when the operator is not
/// `exists`.
pub open spec fn plain_filter(f: PayloadFilter) -> bool {
    &&& plain_name(f.field@)
    &&& (f.operator == FilterOperator::Exists) == (f.value is None)
    &&& (f.value matches Some(v) ==> plain_value(v@))
}

proof fn filter_operator_name_facts(op: FilterOperator)
    ensures
        filter_operator_name(op).len() > 0,
        !crate::text::is_ws(filter_operator_name(op)[0]),
        !crate::text::is_ws(filter_operator_name(op).last()),
        !filter_operator_name(op).contains(':'),
        !filter_operator_name(op).contains('\n'),
        crate::config_writer::filter_operator_named(filter_operator_name(op)) == Some(op),
{
    reveal_strlit("equals");
    reveal_strlit("not_equals");
    reveal_strlit("contains");
    reveal_strlit("regex");
    reveal_strlit("exists");
    reveal_strlit("gt");
    reveal_strlit("lt");
    reveal_strlit("gte");
    reveal_strlit("lte");
    crate::config_writer::filter_operator_names_read_back(op);
    let n = filter_operator_name(op);
    assert(!n.contains(':') && !n.contains('\n')) by {
        if n.contains(':') || n.contains('\n') {
            let i = choose|i: int| 0 <= i < n.len() && (n[i] == ':' || n[i] == '\n');
            assert(n[i] != ':' && n[i] != '\n');
        }
    }
}

/// Joining two texts without line breaks by `:` makes none.
proof fn colon_join_one_line(a: Seq<char>, b: Seq<char>)
    requires
        !a.contains('\n'),
        !b.contains('\n'),
    ensures
        !(a + seq![':'] + b).contains('\n'),
{
    let line = a + seq![':'] + b;
    if line.contains('\n') {
        let i = choose|i: int| 0 <= i < line.len() && line[i] == '\n';
        if i < a.len() {
            assert(a[i] == '\n');
            assert(a.contains('\n'));
        } else if i > a.len() {
            assert(b[i - a.len() - 1] == '\n');
            assert(b.contains('\n'));
        }
    }
}

/// Text with no `:` or line break, not empty and without surrounding
/// white space.
spec fn clean_piece(p: Seq<char>) -> bool {
    &&& p.len() > 0
    &&& !crate::text::is_ws(p[0])
    &&& !crate::text::is_ws(p.last())
    &&& !p.contains(':')
    &&& !p.contains('\n')
}

proof fn two_piece_line(a: Seq<char>, b: Seq<char>)
    requires
        clean_piece(a),
        clean_piece(b),
    ensures
        crate::text::trim(a + seq![':'] + b) == a + seq![':'] + b,
        !(a + seq![':'] + b).contains('\n'),
        crate::text::splitn_seq(a + seq![':'] + b, 3, ':') == seq![a, b],
        crate::text::trim(a) == a,
        crate::text::trim(b) == b,
{
    let line = a + seq![':'] + b;
    crate::text::trim_unchanged(a);
    crate::text::trim_unchanged(b);
    crate::text::split_after_first(a, ':', b);
    crate::text::split_whole(b, ':');
    assert(line[0] == a[0]);
    assert(line.last() == b.last());
    colon_join_one_line(a, b);
    assert(crate::text::splitn_seq(line, 3, ':') =~= seq![a, b]);
    crate::text::trim_unchanged(line);
}

/// Splitting `a:r` at its first `:` when `a` holds none.
#[verifier::spinoff_prover]
#[verifier::rlimit(40)]
proof fn split_first_colon(a: Seq<char>, r: Seq<char>, n: nat)
    requires
        !a.contains(':'),
        n >= 2,
    ensures
        crate::text::splitn_seq(a + seq![':'] + r, n, ':') == seq![a] + crate::text::splitn_seq(r, (n - 1) as nat, ':'),
{
    let line = a + seq![':'] + r;
    let k = a.len() as int;
    assert forall|j: int| 0 <= j < k implies line[j] != ':' by {
        assert(line[j] == a[j]);
        if a[j] == ':' {
            assert(a.contains(':'));
        }
    }
    crate::text::find_first_at(line, ':', k);
    assert(line.subrange(0, k) =~= a);
    assert(line.subrange(k + 1, line.len() as int) =~= r);
}

proof fn three_piece_split(a: Seq<char>, b: Seq<char>, v: Seq<char>, n: nat)
    requires
        !a.contains(':'),
        !b.contains(':'),
        n >= 3,
    ensures
        crate::text::splitn_seq(a + seq![':'] + (b + seq![':'] + v), n, ':') == seq![a] + (seq![b] + crate::text::splitn_seq(
            v,
            (n - 2) as nat,
            ':',
        )),
{
    let rest = b + seq![':'] + v;
    split_first_colon(a, rest, n);
    split_first_colon(b, v, (n - 1) as nat);
}

proof fn three_piece_trim(a: Seq<char>, b: Seq<char>, v: Seq<char>)
    requires
        clean_piece(a),
        plain_value(v),
    ensures
        crate::text::trim(a + seq![':'] + (b + seq![':'] + v)) == a + seq![':'] + (b + seq![':'] + v),
{
    let line = a + seq![':'] + (b + seq![':'] + v);
    assert(line[0] == a[0]);
    assert(line.last() == v.last());
    crate::text::trim_unchanged(line);
}

proof fn three_piece_line(a: Seq<char>, b: Seq<char>, v: Seq<char>)
    requires
        clean_piece(a),
        clean_piece(b),
        plain_value(v),
    ensures
        crate::text::trim(a + seq![':'] + (b + seq![':'] + v)) == a + seq![':'] + (b + seq![':'] + v),
        !(a + seq![':'] + (b + seq![':'] + v)).contains('\n'),
        crate::text::splitn_seq(a + seq![':'] + (b + seq![':'] + v), 3, ':').len() == 3,
        crate::text::splitn_seq(a + seq![':'] + (b + seq![':'] + v), 3, ':')[0] == a,
        crate::text::splitn_seq(a + seq![':'] + (b + seq![':'] + v), 3, ':')[1] == b,
        crate::text::splitn_seq(a + seq![':'] + (b + seq![':'] + v), 3, ':')[2] == v,
        crate::text::trim(a) == a,
        crate::text::trim(b) == b,
        crate::text::trim(v) == v,
{
    three_piece_split(a, b, v, 3);
    assert(crate::text::splitn_seq(v, 1, ':') == seq![v]);
    three_piece_trim(a, b, v);
    colon_join_one_line(b, v);
    colon_join_one_line(a, b + seq![':'] + v);
    crate::text::trim_unchanged(a);
    crate::text::trim_unchanged(b);
    crate::text::trim_unchanged(v);
}

#[verifier::rlimit(60)]
proof fn filter_line_parts(f: PayloadFilter)
    requires
        plain_filter(f),
    ensures
        crate::text::trim(filter_line_text(f)) == filter_line_text(f),
        filter_line_text(f).len() > 0,
        !filter_line_text(f).contains('\n'),
        crate::text::splitn_seq(filter_line_text(f), 3, ':').len() == if f.value is Some { 3int } else { 2int },
        crate::text::splitn_seq(filter_line_text(f), 3, ':')[0] == f.field@,
        crate::text::splitn_seq(filter_line_text(f), 3, ':')[1] == filter_operator_name(f.operator),
        f.value matches Some(v) ==> crate::text::splitn_seq(filter_line_text(f), 3, ':')[2] == v@,
        crate::text::trim(f.field@) == f.field@,
        crate::text::trim(filter_line_name(f)) == filter_line_name(f),
        f.value matches Some(v) ==> crate::text::trim(v@) == v@,
{
    filter_operator_name_facts(f.operator);
    let field = f.field@;
    let on = filter_operator_name(f.operator);
    assert(clean_piece(field));
    assert(clean_piece(on));
    match f.value {
        Some(v) => {
            assert(filter_line_text(f) == field + seq![':'] + (on + seq![':'] + v@));
            three_piece_line(field, on, v@);
        },
        None => {
            assert(filter_line_text(f) =~= field + seq![':'] + on);
            two_piece_line(field, on);
        },
    }
}

/// The operator name of a filter's line.
spec fn filter_line_name(f: PayloadFilter) -> Seq<char> {
    filter_operator_name(f.operator)
}

#[verifier::rlimit(30)]
proof fn filter_line_reads_back(n: nat, f: PayloadFilter)
    requires
        plain_filter(f),
    ensures
        crate::text::trim(filter_line_text(f)) == filter_line_text(f),
        filter_line_text(f).len() > 0,
        !filter_line_text(f).contains('\n'),
        crate::hook_form::filter_line(n, filter_line_text(f)) == Ok::<(Seq<char>, FilterOperator, Option<Seq<char>>), Seq<char>>(
            crate::hook_form::filter_view(f),
        ),
{
    filter_line_parts(f);
    filter_operator_name_facts(f.operator);
}

proof fn filter_lines_read_back(filters: Seq<PayloadFilter>, k: int)
    requires
        0 <= k <= filters.len(),
        forall|i: int| 0 <= i < filters.len() ==> plain_filter(#[trigger] filters[i]),
    ensures
        crate::hook_form::parsed_lines(
            filters.map_values(|f: PayloadFilter| filter_line_text(f)).take(k),
            crate::hook_form::filter_reader(),
        ) == Ok::<Seq<(Seq<char>, FilterOperator, Option<Seq<char>>)>, Seq<char>>(
            crate::hook_form::filter_views(filters.take(k)),
        ),
    decreases k,
{
    let lines = filters.map_values(|f: PayloadFilter| filter_line_text(f));
    if k > 0 {
        filter_lines_read_back(filters, k - 1);
        assert(lines.take(k).drop_last() == lines.take(k - 1));
        assert(lines.take(k).last() == filter_line_text(filters[k - 1]));
        filter_line_reads_back(k as nat, filters[k - 1]);
        assert(filters.take(k) == filters.take(k - 1).push(filters[k - 1]));
        assert(crate::hook_form::filter_views(filters.take(k)) == crate::hook_form::filter_views(
            filters.take(k - 1),
        ).push(crate::hook_form::filter_view(filters[k - 1])));
    } else {
        assert(lines.take(0) =~= Seq::<Seq<char>>::empty());
        assert(crate::hook_form::filter_views(filters.take(0)) =~= Seq::<
            (Seq<char>, FilterOperator, Option<Seq<char>>),
        >::empty());
    }
}

/// What the edit form shows in its filter field reads back as the hook's
/// payload filters, when each filter is plain.
pub proof fn filters_text_reads_back(filters: Vec<PayloadFilter>)
    requires
        filters@.len() > 0,
        forall|i: int| 0 <= i < filters@.len() ==> plain_filter(#[trigger] filters@[i]),
    ensures
        crate::hook_form::filters_text_result(filters_text_of(Some(filters))) == Ok::<
            Seq<(Seq<char>, FilterOperator, Option<Seq<char>>)>,
            Seq<char>,
        >(crate::hook_form::filter_views(filters@)),
{
    let fs = filters@;
    let lines = fs.map_values(|f: PayloadFilter| filter_line_text(f));
    assert forall|i: int| 0 <= i < lines.len() implies !(#[trigger] lines[i]).contains('\n') by {
        filter_line_reads_back(1, fs[i]);
    }
    split_of_joined(lines, '\n');
    filter_lines_read_back(fs, fs.len() as int);
    assert(lines.take(lines.len() as int) == lines);
    assert(fs.take(fs.len() as int) == fs);
}


/// A day name the window field of the edit form carries unchanged: not
/// empty, without surrounding white space, `,`, `:` or line breaks.
pub open spec fn plain_day(d: Seq<char>) -> bool {
    &&& plain_value(d)
    &&& !d.contains(',')
    &&& !d.contains(':')
}

/// A time window the window field of the edit form carries unchanged: at
/// least one day, each plain; a start time without `-`; start and end
/// times not empty, without surrounding white space or line breaks.
pub open spec fn plain_window(w: TimeWindow) -> bool {
    &&& w.days@.len() > 0
    &&& forall|i: int| 0 <= i < w.days@.len() ==> plain_day(#[trigger] w.days@[i]@)
    &&& plain_value(w.start_time@)
    &&& !w.start_time@.contains('-')
    &&& plain_value(w.end_time@)
}

proof fn joined_lacks(pieces: Seq<Seq<char>>, sep: Seq<char>, c: char)
    requires
        !sep.contains(c),
        forall|i: int| 0 <= i < pieces.len() ==> !(#[trigger] pieces[i]).contains(c),
    ensures
        !joined(pieces, sep).contains(c),
    decreases pieces.len(),
{
    if pieces.len() >= 2 {
        let init = pieces.drop_last();
        assert forall|i: int| 0 <= i < init.len() implies !(#[trigger] init[i]).contains(c) by {
            assert(init[i] == pieces[i]);
        }
        joined_lacks(init, sep, c);
        let x = joined(init, sep);
        let l = pieces.last();
        assert(!l.contains(c)) by {
            assert(l == pieces[pieces.len() - 1]);
        }
        let j = x + sep + l;
        if j.contains(c) {
            let k = choose|k: int| 0 <= k < j.len() && j[k] == c;
            if k < x.len() {
                assert(x[k] == c);
                assert(x.contains(c));
            } else if k < x.len() + sep.len() {
                assert(sep[k - x.len()] == c);
                assert(sep.contains(c));
            } else {
                assert(l[k - x.len() - sep.len()] == c);
                assert(l.contains(c));
            }
        }
    } else if pieces.len() == 1 {
        assert(joined(pieces, sep) == pieces[0]);
    }
}

proof fn joined_first_char(pieces: Seq<Seq<char>>, sep: Seq<char>)
    requires
        pieces.len() >= 1,
        pieces[0].len() > 0,
    ensures
        joined(pieces, sep).len() > 0,
        joined(pieces, sep)[0] == pieces[0][0],
{
    if pieces.len() >= 2 {
        joined_front(pieces, sep);
    }
}

proof fn day_list_of_plain(ps: Seq<Seq<char>>)
    requires
        forall|i: int| 0 <= i < ps.len() ==> plain_day(#[trigger] ps[i]),
    ensures
        crate::hook_form::day_list(ps) == ps,
    decreases ps.len(),
{
    if ps.len() > 0 {
        let init = ps.drop_last();
        assert forall|i: int| 0 <= i < init.len() implies plain_day(#[trigger] init[i]) by {
            assert(init[i] == ps[i]);
        }
        day_list_of_plain(init);
        let l = ps.last();
        assert(plain_day(ps[ps.len() - 1]));
        crate::text::trim_unchanged(l);
        assert(init.push(l) =~= ps);
    }
}

proof fn window_times_read_back(n: nat, start: Seq<char>, end: Seq<char>)
    requires
        plain_value(start),
        !start.contains('-'),
        plain_value(end),
    ensures
        crate::hook_form::window_times(n, start + seq!['-'] + end) == Ok::<(Seq<char>, Seq<char>), Seq<char>>((start, end)),
{
    let t = start + seq!['-'] + end;
    let k = start.len() as int;
    assert(crate::text::find_first(t, '-') == Some(k)) by {
        assert forall|j: int| 0 <= j < k implies t[j] != '-' by {
            assert(t[j] == start[j]);
            if start[j] == '-' {
                assert(start.contains('-'));
            }
        }
        crate::text::find_first_at(t, '-', k);
    }
    assert(t.subrange(0, k) == start) by {
        assert(t.subrange(0, k) =~= start);
    }
    assert(t.subrange(k + 1, t.len() as int) == end) by {
        assert(t.subrange(k + 1, t.len() as int) =~= end);
    }
    assert(crate::text::trim(start) == start) by {
        crate::text::trim_unchanged(start);
    }
    assert(crate::text::trim(end) == end) by {
        crate::text::trim_unchanged(end);
    }
}

proof fn joined_days_facts(days: Seq<Seq<char>>)
    requires
        days.len() > 0,
        forall|i: int| 0 <= i < days.len() ==> plain_day(#[trigger] days[i]),
    ensures
        !joined(days, seq![',']).contains(':'),
        !joined(days, seq![',']).contains('\n'),
        joined(days, seq![',']).len() > 0,
        !crate::text::is_ws(joined(days, seq![','])[0]),
        crate::hook_form::day_list(crate::text::split_seq(joined(days, seq![',']), ',')) == days,
{
    assert(!seq![','].contains(':')) by {
        if seq![','].contains(':') {
            let k = choose|k: int| 0 <= k < 1 && seq![','][k] == ':';
        }
    }
    assert(!seq![','].contains('\n')) by {
        if seq![','].contains('\n') {
            let k = choose|k: int| 0 <= k < 1 && seq![','][k] == '\n';
        }
    }
    assert forall|i: int| 0 <= i < days.len() implies !(#[trigger] days[i]).contains(':') by {
        assert(plain_day(days[i]));
    }
    assert forall|i: int| 0 <= i < days.len() implies !(#[trigger] days[i]).contains('\n') by {
        assert(plain_day(days[i]));
    }
    assert forall|i: int| 0 <= i < days.len() implies !(#[trigger] days[i]).contains(',') by {
        assert(plain_day(days[i]));
    }
    joined_lacks(days, seq![','], ':');
    joined_lacks(days, seq![','], '\n');
    assert(plain_day(days[0]));
    joined_first_char(days, seq![',']);
    split_of_joined(days, ',');
    day_list_of_plain(days);
}

proof fn window_line_split(jd: Seq<char>, times: Seq<char>)
    requires
        !jd.contains(':'),
    ensures
        crate::text::find_first(jd + seq![':'] + times, ':') == Some(jd.len() as int),
        (jd + seq![':'] + times).subrange(0, jd.len() as int) == jd,
        (jd + seq![':'] + times).subrange(jd.len() as int + 1, (jd + seq![':'] + times).len() as int) == times,
{
    let line = jd + seq![':'] + times;
    let k = jd.len() as int;
    assert forall|j: int| 0 <= j < k implies line[j] != ':' by {
        assert(line[j] == jd[j]);
        if jd[j] == ':' {
            assert(jd.contains(':'));
        }
    }
    crate::text::find_first_at(line, ':', k);
    assert(line.subrange(0, k) =~= jd);
    assert(line.subrange(k + 1, line.len() as int) =~= times);
}

proof fn window_line_shape(jd: Seq<char>, start: Seq<char>, end: Seq<char>)
    requires
        jd.len() > 0,
        !crate::text::is_ws(jd[0]),
        !jd.contains('\n'),
        plain_value(start),
        plain_value(end),
    ensures
        crate::text::trim(jd + seq![':'] + (start + seq!['-'] + end)) == jd + seq![':'] + (start + seq!['-'] + end),
        !(jd + seq![':'] + (start + seq!['-'] + end)).contains('\n'),
{
    let times = start + seq!['-'] + end;
    let line = jd + seq![':'] + times;
    assert(!times.contains('\n')) by {
        if times.contains('\n') {
            let i = choose|i: int| 0 <= i < times.len() && times[i] == '\n';
            if i < start.len() {
                assert(start[i] == '\n');
                assert(start.contains('\n'));
            } else if i > start.len() {
                assert(end[i - start.len() - 1] == '\n');
                assert(end.contains('\n'));
            }
        }
    }
    colon_join_one_line(jd, times);
    assert(line[0] == jd[0]);
    assert(line.last() == end.last());
    crate::text::trim_unchanged(line);
}

proof fn window_line_reads_back(n: nat, w: TimeWindow)
    requires
        plain_window(w),
    ensures
        crate::text::trim(window_line_text(w)) == window_line_text(w),
        window_line_text(w).len() > 0,
        !window_line_text(w).contains('\n'),
        crate::hook_form::window_line(n, window_line_text(w)) == Ok::<(Seq<Seq<char>>, Seq<char>, Seq<char>), Seq<char>>(
            crate::hook_form::window_view(w),
        ),
{
    let days = string_views(w.days@);
    assert forall|i: int| 0 <= i < days.len() implies plain_day(#[trigger] days[i]) by {
        assert(days[i] == w.days@[i]@);
    }
    let jd = joined(days, seq![',']);
    let start = w.start_time@;
    let end = w.end_time@;
    let times = start + seq!['-'] + end;
    assert(window_line_text(w) == jd + seq![':'] + times);
    joined_days_facts(days);
    window_line_split(jd, times);
    window_times_read_back(n, start, end);
    window_line_shape(jd, start, end);
}

proof fn window_lines_read_back(windows: Seq<TimeWindow>, k: int)
    requires
        0 <= k <= windows.len(),
        forall|i: int| 0 <= i < windows.len() ==> plain_window(#[trigger] windows[i]),
    ensures
        crate::hook_form::parsed_lines(
            windows.map_values(|w: TimeWindow| window_line_text(w)).take(k),
            crate::hook_form::window_reader(),
        ) == Ok::<Seq<(Seq<Seq<char>>, Seq<char>, Seq<char>)>, Seq<char>>(
            crate::hook_form::window_views(windows.take(k)),
        ),
    decreases k,
{
    let lines = windows.map_values(|w: TimeWindow| window_line_text(w));
    if k > 0 {
        window_lines_read_back(windows, k - 1);
        assert(lines.take(k).drop_last() == lines.take(k - 1));
        assert(lines.take(k).last() == window_line_text(windows[k - 1]));
        window_line_reads_back(k as nat, windows[k - 1]);
        assert(windows.take(k) == windows.take(k - 1).push(windows[k - 1]));
        assert(crate::hook_form::window_views(windows.take(k)) == crate::hook_form::window_views(
            windows.take(k - 1),
        ).push(crate::hook_form::window_view(windows[k - 1])));
    } else {
        assert(lines.take(0) =~= Seq::<Seq<char>>::empty());
        assert(crate::hook_form::window_views(windows.take(0)) =~= Seq::<
            (Seq<Seq<char>>, Seq<char>, Seq<char>),
        >::empty());
    }
}

/// What the edit form shows in its window field reads back as the hook's
/// time windows, when each window is plain.
pub proof fn windows_text_reads_back(windows: Vec<TimeWindow>)
    requires
        windows@.len() > 0,
        forall|i: int| 0 <= i < windows@.len() ==> plain_window(#[trigger] windows@[i]),
    ensures
        crate::hook_form::windows_text_result(windows_text_of(Some(windows))) == Ok::<
            Seq<(Seq<Seq<char>>, Seq<char>, Seq<char>)>,
            Seq<char>,
        >(crate::hook_form::window_views(windows@)),
{
    let ws = windows@;
    let lines = ws.map_values(|w: TimeWindow| window_line_text(w));
    assert forall|i: int| 0 <= i < lines.len() implies !(#[trigger] lines[i]).contains('\n') by {
        window_line_reads_back(1, ws[i]);
    }
    split_of_joined(lines, '\n');
    window_lines_read_back(ws, ws.len() as int);
    assert(lines.take(lines.len() as int) == lines);
    assert(ws.take(ws.len() as int) == ws);
}

} // verus!
