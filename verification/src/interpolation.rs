//! `{{field}}` placeholders in command templates, filled from the payload
//! and quoted for `sh -c`.
use std::borrow::Cow;

use vstd::prelude::*;

use crate::json::{resolve_chars, resolve_path, to_json_string, to_text, Json};
use crate::text::{chars_of, is_whitespace, is_ws, replace_all, string_of};

verus! {

/// Membership in the regex class `\w` (Unicode word characters).
pub uninterp spec fn unicode_word_char(c: char) -> bool;

/// `regex_syntax::is_word_character`: whether `c` is in the Unicode word
/// class that `\w` matches. Stated only as that class, by name.
#[verifier::external_body]
fn is_word_character(c: char) -> (b: bool)
    ensures
        b == unicode_word_char(c),
{
    regex_syntax::is_word_character(c)
}

/// A character allowed in a placeholder's field path: `[\w.]`.
pub open spec fn name_char(c: char) -> bool {
    unicode_word_char(c) || c == '.'
}

/// The quoted form of `value` for `sh -c`: wrapped in single quotes, each
/// inner single quote written as `'\''`.
pub open spec fn shell_quoted(value: Seq<char>) -> Seq<char> {
    seq!['\''] + replace_all(value, seq!['\''], seq!['\'', '\\', '\'', '\'']) + seq!['\'']
}

/// Shell-escape a string value for safe embedding in `sh -c` commands.
///
/// Wraps the value in single quotes. Any internal single quotes are escaped
/// using the POSIX idiom `'\''` (end quote, backslash-escaped literal quote,
/// start quote).
pub fn shell_escape(value: &str) -> (r: String)
    ensures
        r@ == shell_quoted(value@),
{
    let v = chars_of(value);
    let mut out: Vec<char> = Vec::new();
    out.push('\'');
    let pat: Vec<char> = vec!['\''];
    let rep: Vec<char> = vec!['\'', '\\', '\'', '\''];
    let body = crate::text::replace_chars(v.as_slice(), pat.as_slice(), rep.as_slice());
    crate::text::extend_chars(&mut out, body.as_slice());
    out.push('\'');
    assert(pat@ == seq!['\'']);
    assert(rep@ == seq!['\'', '\\', '\'', '\'']);
    string_of(out.as_slice())
}

/// What a POSIX shell reads from a word made of single-quoted runs and
/// backslash-escaped characters; `None` if the word has any other unquoted
/// character or an unclosed quote.
pub open spec fn shell_unquote(w: Seq<char>, in_quotes: bool) -> Option<Seq<char>>
    decreases w.len(),
{
    if w.len() == 0 {
        if in_quotes { None } else { Some(Seq::empty()) }
    } else if in_quotes {
        if w[0] == '\'' {
            shell_unquote(w.drop_first(), false)
        } else {
            match shell_unquote(w.drop_first(), true) {
                Some(r) => Some(seq![w[0]] + r),
                None => None,
            }
        }
    } else if w[0] == '\'' {
        shell_unquote(w.drop_first(), true)
    } else if w[0] == '\\' && w.len() >= 2 {
        match shell_unquote(w.subrange(2, w.len() as int), false) {
            Some(r) => Some(seq![w[1]] + r),
            None => None,
        }
    } else {
        None
    }
}

proof fn lemma_unquote_body(v: Seq<char>)
    ensures
        shell_unquote(replace_all(v, seq!['\''], seq!['\'', '\\', '\'', '\'']) + seq!['\''], true)
            == Some(v),
    decreases v.len(),
{
    let pat = seq!['\''];
    let rep = seq!['\'', '\\', '\'', '\''];
    let body = replace_all(v, pat, rep);
    if v.len() == 0 {
        assert(body == v);
        let w = body + seq!['\''];
        assert(w == seq!['\'']);
        assert(w.drop_first() == Seq::<char>::empty());
        assert(shell_unquote(w.drop_first(), false) == Some(Seq::<char>::empty()));
    } else {
        let rest = v.drop_first();
        lemma_unquote_body(rest);
        let tail = replace_all(rest, pat, rep) + seq!['\''];
        assert(shell_unquote(tail, true) == Some(rest));
        assert(v.subrange(1, v.len() as int) == rest);
        if v[0] == '\'' {
            assert(v.subrange(0, 1) == pat);
            assert(body == rep + replace_all(rest, pat, rep));
            let w = body + seq!['\''];
            assert(w == rep + tail);
            let w1 = w.drop_first();
            assert(w1 == seq!['\\', '\'', '\''] + tail);
            let w2 = w1.subrange(2, w1.len() as int);
            assert(w2 == seq!['\''] + tail);
            assert(w2.drop_first() == tail);
            assert(shell_unquote(w2, false) == shell_unquote(tail, true));
            assert(shell_unquote(w1, false) == Some(seq!['\''] + rest));
            assert(shell_unquote(w, true) == shell_unquote(w1, false));
            assert(seq!['\''] + rest == v);
        } else {
            assert(v.subrange(0, 1) != pat) by {
                assert(v.subrange(0, 1)[0] == v[0]);
            }
            assert(body == seq![v[0]] + replace_all(rest, pat, rep));
            let w = body + seq!['\''];
            assert(w == seq![v[0]] + tail);
            assert(w.drop_first() == tail);
            assert(shell_unquote(w, true) == Some(seq![v[0]] + rest));
            assert(seq![v[0]] + rest == v);
        }
    }
}

/// Read back by a POSIX shell, the escaped value is the value itself, and
/// no part of it is left unquoted.
pub proof fn shell_escape_reads_back(value: Seq<char>)
    ensures
        shell_unquote(shell_quoted(value), false) == Some(value),
{
    let pat = seq!['\''];
    let rep = seq!['\'', '\\', '\'', '\''];
    lemma_unquote_body(value);
    let w = shell_quoted(value);
    assert(w.drop_first() == replace_all(value, pat, rep) + seq!['\'']);
}

/// The text a resolved payload value is interpolated as: strings raw,
/// numbers and booleans as written, null as nothing, arrays and objects as
/// compact JSON.
pub open spec fn value_text(value: Json) -> Seq<char> {
    match value {
        Json::String(s) => s@,
        Json::Number(n) => n@,
        Json::Bool(b) => if b { "true"@ } else { "false"@ },
        Json::Null => Seq::empty(),
        _ => to_text(value),
    }
}

/// Convert a resolved JSON value to its string representation for interpolation.
pub fn value_to_string(value: &Json) -> (r: String)
    ensures
        r@ == value_text(*value),
{
    match value {
        Json::String(s) => s.clone(),
        Json::Number(n) => n.clone(),
        Json::Bool(b) => if *b { "true".to_owned() } else { "false".to_owned() },
        Json::Null => String::new(),
        _ => {
            let t = to_json_string(value);
            string_of(t.as_slice())
        },
    }
}

/// First position at or after `i` that is not white space.
pub open spec fn skip_ws(s: Seq<char>, i: int) -> int
    decreases s.len() - i,
{
    if 0 <= i < s.len() && is_ws(s[i]) {
        skip_ws(s, i + 1)
    } else {
        i
    }
}

/// First position at or after `i` that is not a field-path character.
pub open spec fn skip_name(s: Seq<char>, i: int) -> int
    decreases s.len() - i,
{
    if 0 <= i < s.len() && name_char(s[i]) {
        skip_name(s, i + 1)
    } else {
        i
    }
}

/// The placeholder `{{ name }}` that starts at `p`, as the bounds of its
/// name and its end, when `\{\{\s*([\w.]+)\s*\}\}` matches there.
pub open spec fn placeholder_at(s: Seq<char>, p: int) -> Option<(int, int, int)> {
    if 0 <= p && p + 1 < s.len() && s[p] == '{' && s[p + 1] == '{' {
        let a = skip_ws(s, p + 2);
        let b = skip_name(s, a);
        let c = skip_ws(s, b);
        if b > a && c + 1 < s.len() && s[c] == '}' && s[c + 1] == '}' {
            Some((a, b, c + 2))
        } else {
            None
        }
    } else {
        None
    }
}

/// What a placeholder found at `p` is replaced by: the quoted text of the
/// resolved field, or the placeholder itself when the field is missing.
pub open spec fn replacement(s: Seq<char>, payload: Json, p: int, m: (int, int, int)) -> Seq<char> {
    match resolve_path(payload, s.subrange(m.0, m.1)) {
        Some(v) => shell_quoted(value_text(v)),
        None => s.subrange(p, m.2),
    }
}

/// The template from position `p` on, with every placeholder replaced.
pub open spec fn interpolated_from(s: Seq<char>, payload: Json, p: int) -> Seq<char>
    decreases s.len() - p,
{
    if p < 0 || p >= s.len() {
        Seq::empty()
    } else {
        match placeholder_at(s, p) {
            Some(m) => if m.2 > p {
                replacement(s, payload, p, m) + interpolated_from(s, payload, m.2)
            } else {
                Seq::empty()
            },
            None => seq![s[p]] + interpolated_from(s, payload, p + 1),
        }
    }
}

/// The whole template with every placeholder replaced.
pub open spec fn interpolated(s: Seq<char>, payload: Json) -> Seq<char> {
    interpolated_from(s, payload, 0)
}

/// Whether the template holds any placeholder.
pub open spec fn has_placeholder(s: Seq<char>) -> bool {
    exists|p: int| #[trigger] placeholder_at(s, p) is Some
}

proof fn lemma_skip_ws_bounds(s: Seq<char>, i: int)
    requires
        0 <= i,
    ensures
        i <= skip_ws(s, i),
        skip_ws(s, i) <= if i <= s.len() { s.len() as int } else { i },
        forall|j: int| i <= j < skip_ws(s, i) ==> is_ws(#[trigger] s[j]),
    decreases s.len() - i,
{
    if 0 <= i < s.len() && is_ws(s[i]) {
        lemma_skip_ws_bounds(s, i + 1);
    }
}

proof fn lemma_skip_name_bounds(s: Seq<char>, i: int)
    requires
        0 <= i,
    ensures
        i <= skip_name(s, i),
        skip_name(s, i) <= if i <= s.len() { s.len() as int } else { i },
    decreases s.len() - i,
{
    if 0 <= i < s.len() && name_char(s[i]) {
        lemma_skip_name_bounds(s, i + 1);
    }
}

fn skip_ws_exec(s: &[char], i: usize) -> (r: usize)
    requires
        i <= s@.len(),
    ensures
        r == skip_ws(s@, i as int),
        i <= r <= s@.len(),
{
    let mut k = i;
    while k < s.len() && is_whitespace(s[k])
        invariant
            i <= k <= s@.len(),
            skip_ws(s@, i as int) == skip_ws(s@, k as int),
        decreases s@.len() - k,
    {
        k = k + 1;
    }
    k
}

fn skip_name_exec(s: &[char], i: usize) -> (r: usize)
    requires
        i <= s@.len(),
    ensures
        r == skip_name(s@, i as int),
        i <= r <= s@.len(),
{
    let mut k = i;
    while k < s.len() && (is_word_character(s[k]) || s[k] == '.')
        invariant
            i <= k <= s@.len(),
            skip_name(s@, i as int) == skip_name(s@, k as int),
        decreases s@.len() - k,
    {
        k = k + 1;
    }
    k
}

/// The placeholder starting at `p`, if any.
fn find_placeholder(s: &[char], p: usize) -> (r: Option<(usize, usize, usize)>)
    requires
        p < s@.len(),
    ensures
        r matches Some(m) ==> placeholder_at(s@, p as int) == Some((m.0 as int, m.1 as int, m.2 as int)),
        r is None ==> placeholder_at(s@, p as int) is None,
        r matches Some(m) ==> p < m.0 && m.0 < m.1 && m.1 < m.2 && m.2 <= s@.len(),
{
    if s.len() - p >= 2 && s[p] == '{' && s[p + 1] == '{' {
        let a = skip_ws_exec(s, p + 2);
        let b = skip_name_exec(s, a);
        let c = skip_ws_exec(s, b);
        if b > a && c < s.len() && s.len() - c >= 2 && s[c] == '}' && s[c + 1] == '}' {
            Some((a, b, c + 2))
        } else {
            None
        }
    } else {
        None
    }
}

/// The text the template contributes at `p` and where scanning resumes.
fn render_at(s: &[char], p: usize, payload: &Json) -> (r: (Vec<char>, usize, bool))
    requires
        p < s@.len(),
    ensures
        p < r.1 <= s@.len(),
        r.2 == placeholder_at(s@, p as int) is Some,
        !r.2 ==> r.0@ == seq![s@[p as int]] && r.1 == p + 1,
        interpolated_from(s@, *payload, p as int) == r.0@ + interpolated_from(s@, *payload, r.1 as int),
{
    match find_placeholder(s, p) {
        Some((a, b, e)) => {
            let name = crate::text::sub_chars(s, a, b);
            let mut out: Vec<char> = Vec::new();
            match resolve_chars(payload, name.as_slice()) {
                Some(v) => {
                    let text = value_to_string(v);
                    let quoted = shell_escape(text.as_str());
                    out = chars_of(quoted.as_str());
                },
                None => {
                    out = crate::text::sub_chars(s, p, e);
                },
            }
            assert(out@ == replacement(s@, *payload, p as int, (a as int, b as int, e as int)));
            (out, e, true)
        },
        None => {
            let mut out: Vec<char> = Vec::new();
            out.push(s[p]);
            (out, p + 1, false)
        },
    }
}

/// Interpolate `{{field_name}}` placeholders in a command template.
///
/// For each placeholder found:
/// 1. Resolve the field path against the payload JSON (supports dot-notation).
/// 2. Convert the resolved value to a string.
/// 3. Shell-escape the string.
/// 4. Replace the placeholder with the escaped value.
///
/// Unresolved placeholders are left as-is (not replaced).
///
/// Returns `Cow::Borrowed` exactly when no placeholder was found.
pub fn interpolate_command<'a>(template: &'a str, payload: &Json) -> (r: Cow<'a, str>)
    ensures
        r@ == interpolated(template@, *payload),
        (r matches Cow::Borrowed(_)) <==> !has_placeholder(template@),
{
    let s = chars_of(template);
    let ghost t = s@;
    let mut out: Vec<char> = Vec::new();
    let mut p: usize = 0;
    let mut matched = false;
    while p < s.len()
        invariant
            t == s@,
            p <= s@.len(),
            out@ + interpolated_from(t, *payload, p as int) == interpolated_from(t, *payload, 0),
            !matched ==> out@ == t.subrange(0, p as int),
            !matched ==> forall|q: int| 0 <= q < p ==> placeholder_at(t, q) is None,
            matched ==> has_placeholder(t),
        decreases s@.len() - p,
    {
        let ghost before = out@;
        let (piece, next, found) = render_at(s.as_slice(), p, payload);
        crate::text::extend_chars(&mut out, piece.as_slice());
        assert(out@ + interpolated_from(t, *payload, next as int) == before + interpolated_from(
            t,
            *payload,
            p as int,
        ));
        proof {
            if found {
                assert(placeholder_at(t, p as int) is Some);
            } else if !matched {
                assert(piece@ == seq![t[p as int]]);
                assert(next == p + 1);
                assert(t.subrange(0, p + 1) == t.subrange(0, p as int).push(t[p as int]));
                assert forall|q: int| 0 <= q < p + 1 implies placeholder_at(t, q) is None by {
                    if q < p {
                    } else {
                    }
                }
            }
        }
        matched = matched || found;
        p = next;
    }
    if !matched {
        assert(t.subrange(0, t.len() as int) == t);
        assert(!has_placeholder(t)) by {
            assert forall|q: int| !(#[trigger] placeholder_at(t, q) is Some) by {
                if 0 <= q < t.len() {
                } else {
                }
            }
        }
        assert(interpolated_from(t, *payload, t.len() as int) == Seq::<char>::empty());
        return Cow::Borrowed(template);
    }
    assert(interpolated_from(t, *payload, t.len() as int) == Seq::<char>::empty());
    Cow::Owned(string_of(out.as_slice()))
}

/// [`interpolate_command`], as an owned string.
pub fn interpolate_owned(template: &str, payload: &Json) -> (r: String)
    ensures
        r@ == interpolated(template@, *payload),
{
    match interpolate_command(template, payload) {
        Cow::Borrowed(s) => s.to_owned(),
        Cow::Owned(s) => s,
    }
}

/// A template filled from an empty object is left as it is: no field
/// resolves, so every placeholder stays.
pub proof fn interpolated_from_empty_object(s: Seq<char>, e: Json, p: int)
    requires
        e matches Json::Object(fields) && fields@.len() == 0,
        0 <= p <= s.len(),
    ensures
        interpolated_from(s, e, p) == s.subrange(p, s.len() as int),
    decreases s.len() - p,
{
    if p < s.len() {
        match placeholder_at(s, p) {
            Some(m) => {
                lemma_skip_ws_bounds(s, p + 2);
                let a = skip_ws(s, p + 2);
                lemma_skip_name_bounds(s, a);
                let b = skip_name(s, a);
                lemma_skip_ws_bounds(s, b);
                let path = s.subrange(m.0, m.1);
                let segs = crate::text::split_seq(path, '.');
                assert(segs.len() >= 1);
                assert(resolve_path(e, path) is None);
                interpolated_from_empty_object(s, e, m.2);
                assert(s.subrange(p, m.2) + s.subrange(m.2, s.len() as int) == s.subrange(
                    p,
                    s.len() as int,
                ));
            },
            None => {
                interpolated_from_empty_object(s, e, p + 1);
                assert(seq![s[p]] + s.subrange(p + 1, s.len() as int) == s.subrange(
                    p,
                    s.len() as int,
                ));
            },
        }
    } else {
        assert(s.subrange(p, s.len() as int) =~= Seq::<char>::empty());
    }
}

} // verus!
