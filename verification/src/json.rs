//! JSON values as the service reads them from webhook payloads.
//!
//! A number is held as the text the JSON serializer writes for it, so that
//! its rendering is exact; object members keep their order.
use vstd::prelude::*;

use crate::text::{chars_of, push_dec};

verus! {

/// A JSON value.
#[derive(Debug)]
pub enum Json {
    Null,
    Bool(bool),
    /// A number, held as its JSON text (for example `42`, `-5`, `3.14`).
    Number(String),
    String(String),
    Array(Vec<Json>),
    Object(Vec<(String, Json)>),
}

/// The value stored under `key` in an object's members (the first match).
pub open spec fn member(fields: Seq<(String, Json)>, key: Seq<char>) -> Option<Json>
    decreases fields.len(),
{
    if fields.len() == 0 {
        None
    } else if fields[0].0@ == key {
        Some(fields[0].1)
    } else {
        member(fields.drop_first(), key)
    }
}

/// `value.get(key)`: the member `key` of an object; nothing for other values.
pub open spec fn get(value: Json, key: Seq<char>) -> Option<Json> {
    match value {
        Json::Object(fields) => member(fields@, key),
        _ => None,
    }
}

/// Follows the segments of a dotted path from `value`.
pub open spec fn resolve_segments(value: Json, segs: Seq<Seq<char>>) -> Option<Json>
    decreases segs.len(),
{
    if segs.len() == 0 {
        Some(value)
    } else {
        match get(value, segs[0]) {
            Some(next) => resolve_segments(next, segs.drop_first()),
            None => None,
        }
    }
}

/// Walks `root` by the dot-separated `path` (e.g. `repo.name`).
pub open spec fn resolve_path(root: Json, path: Seq<char>) -> Option<Json> {
    resolve_segments(root, crate::text::split_seq(path, '.'))
}

/// The JSON type name of a value.
pub open spec fn kind_name(value: Json) -> Seq<char> {
    match value {
        Json::Null => "null"@,
        Json::Bool(_) => "boolean"@,
        Json::Number(_) => "number"@,
        Json::String(_) => "string"@,
        Json::Array(_) => "array"@,
        Json::Object(_) => "object"@,
    }
}

/// Lower-case hexadecimal digit.
pub open spec fn hex_digit(d: nat) -> char {
    if d < 10 {
        crate::text::digit_char(d)
    } else if d == 10 { 'a' }
    else if d == 11 { 'b' }
    else if d == 12 { 'c' }
    else if d == 13 { 'd' }
    else if d == 14 { 'e' }
    else { 'f' }
}

/// How the JSON writer escapes one character inside a string literal.
pub open spec fn escape_char(c: char) -> Seq<char> {
    if c == '"' {
        seq!['\\', '"']
    } else if c == '\\' {
        seq!['\\', '\\']
    } else if c == '\n' {
        seq!['\\', 'n']
    } else if c == '\r' {
        seq!['\\', 'r']
    } else if c == '\t' {
        seq!['\\', 't']
    } else if c == '\u{8}' {
        seq!['\\', 'b']
    } else if c == '\u{c}' {
        seq!['\\', 'f']
    } else if (c as u32) < 0x20 {
        seq!['\\', 'u', '0', '0', hex_digit((c as u32 / 16) as nat), hex_digit((c as u32 % 16) as nat)]
    } else {
        seq![c]
    }
}

/// The escaped body of a string literal.
pub open spec fn escape_text(s: Seq<char>) -> Seq<char>
    decreases s.len(),
{
    if s.len() == 0 {
        seq![]
    } else {
        escape_char(s[0]) + escape_text(s.drop_first())
    }
}

/// A quoted, escaped JSON string literal.
pub open spec fn quoted(s: Seq<char>) -> Seq<char> {
    seq!['"'] + escape_text(s) + seq!['"']
}

/// Compact JSON text of a value (no spaces, members in order).
pub open spec fn to_text(value: Json) -> Seq<char>
    decreases value,
{
    match value {
        Json::Null => "null"@,
        Json::Bool(b) => if b { "true"@ } else { "false"@ },
        Json::Number(n) => n@,
        Json::String(s) => quoted(s@),
        Json::Array(items) => seq!['['] + items_text(items@) + seq![']'],
        Json::Object(fields) => seq!['{'] + members_text(fields@) + seq!['}'],
    }
}

/// Comma-separated texts of array items.
pub open spec fn items_text(items: Seq<Json>) -> Seq<char>
    decreases items,
{
    if items.len() == 0 {
        seq![]
    } else if items.len() == 1 {
        to_text(items[0])
    } else {
        to_text(items[0]) + seq![','] + items_text(items.drop_first())
    }
}

/// Comma-separated `"key":value` texts of object members.
pub open spec fn members_text(fields: Seq<(String, Json)>) -> Seq<char>
    decreases fields,
{
    if fields.len() == 0 {
        seq![]
    } else if fields.len() == 1 {
        quoted(fields[0].0@) + seq![':'] + to_text(fields[0].1)
    } else {
        quoted(fields[0].0@) + seq![':'] + to_text(fields[0].1) + seq![','] + members_text(
            fields.drop_first(),
        )
    }
}

impl Json {
    /// The member `key` of an object (`serde_json::Value::get`).
    pub fn get<'a>(&'a self, key: &[char]) -> (r: Option<&'a Json>)
        ensures
            r matches Some(x) ==> get(*self, key@) == Some(*x),
            r is None ==> get(*self, key@) is None,
    {
        match self {
            Json::Object(fields) => {
                let mut i: usize = 0;
                assert(fields@.subrange(0, fields@.len() as int) == fields@);
                while i < fields.len()
                    invariant
                        *self == Json::Object(*fields),
                        i <= fields@.len(),
                        member(fields@, key@) == member(fields@.subrange(i as int, fields@.len() as int), key@),
                    decreases fields@.len() - i,
                {
                    let ghost rest = fields@.subrange(i as int, fields@.len() as int);
                    assert(rest.drop_first() == fields@.subrange(i + 1, fields@.len() as int));
                    assert(rest[0] == fields@[i as int]);
                    if crate::text::str_is(fields[i].0.as_str(), key) {
                        return Some(&fields[i].1);
                    }
                    i = i + 1;
                }
                None
            },
            _ => None,
        }
    }

    /// Whether this value is `null`.
    pub fn is_null(&self) -> (b: bool)
        ensures
            b == (*self matches Json::Null),
    {
        match self {
            Json::Null => true,
            _ => false,
        }
    }
}

/// Walk a JSON value by a dot-separated path given as characters.
pub fn resolve_chars<'a>(root: &'a Json, path: &[char]) -> (r: Option<&'a Json>)
    ensures
        r matches Some(x) ==> resolve_path(*root, path@) == Some(*x),
        r is None ==> resolve_path(*root, path@) is None,
{
    let segs = crate::text::split_chars(path, '.');
    let ghost all = crate::text::views(segs@);
    let mut current: &Json = root;
    let mut i: usize = 0;
    assert(all.subrange(0, all.len() as int) == all);
    while i < segs.len()
        invariant
            all == crate::text::views(segs@),
            all == crate::text::split_seq(path@, '.'),
            i <= segs@.len(),
            resolve_segments(*root, all) == resolve_segments(*current, all.subrange(i as int, all.len() as int)),
        decreases segs@.len() - i,
    {
        let ghost rest = all.subrange(i as int, all.len() as int);
        assert(rest.drop_first() == all.subrange(i + 1, all.len() as int));
        assert(rest[0] == segs@[i as int]@);
        match current.get(segs[i].as_slice()) {
            Some(next) => {
                current = next;
            },
            None => {
                return None;
            },
        }
        i = i + 1;
    }
    Some(current)
}

/// Walk a JSON value by dot-separated path (e.g., "repo.name").
/// Returns None if any intermediate segment is missing or not an object.
pub fn resolve_field<'a>(root: &'a Json, path: &str) -> (r: Option<&'a Json>)
    ensures
        r matches Some(x) ==> resolve_path(*root, path@) == Some(*x),
        r is None ==> resolve_path(*root, path@) is None,
{
    let pc = chars_of(path);
    resolve_chars(root, pc.as_slice())
}

/// The JSON type name of a value (for error messages).
pub fn json_type_name(value: &Json) -> (s: &'static str)
    ensures
        s@ == kind_name(*value),
{
    match value {
        Json::Null => "null",
        Json::Bool(_) => "boolean",
        Json::Number(_) => "number",
        Json::String(_) => "string",
        Json::Array(_) => "array",
        Json::Object(_) => "object",
    }
}

fn hex(d: u32) -> (c: char)
    requires
        d < 16,
    ensures
        c == hex_digit(d as nat),
{
    if d < 10 {
        let mut v: Vec<char> = Vec::new();
        push_dec(&mut v, d as u128);
        assert(crate::text::dec(d as nat) == seq![crate::text::digit_char(d as nat)]);
        v[0]
    } else if d == 10 { 'a' }
    else if d == 11 { 'b' }
    else if d == 12 { 'c' }
    else if d == 13 { 'd' }
    else if d == 14 { 'e' }
    else { 'f' }
}

/// Appends the escaped body of a JSON string literal.
pub fn push_escaped(out: &mut Vec<char>, s: &[char])
    ensures
        final(out)@ == old(out)@ + escape_text(s@),
{
    let ghost start = out@;
    let mut i: usize = 0;
    assert(s@.subrange(0, 0) == Seq::<char>::empty());
    while i < s.len()
        invariant
            i <= s@.len(),
            out@ == start + escape_text(s@.subrange(0, i as int)),
        decreases s@.len() - i,
    {
        let c = s[i];
        proof {
            lemma_escape_text_push(s@.subrange(0, i as int), c);
            assert(s@.subrange(0, i + 1) == s@.subrange(0, i as int).push(c));
        }
        if c == '"' {
            out.push('\\');
            out.push('"');
        } else if c == '\\' {
            out.push('\\');
            out.push('\\');
        } else if c == '\n' {
            out.push('\\');
            out.push('n');
        } else if c == '\r' {
            out.push('\\');
            out.push('r');
        } else if c == '\t' {
            out.push('\\');
            out.push('t');
        } else if c == '\u{8}' {
            out.push('\\');
            out.push('b');
        } else if c == '\u{c}' {
            out.push('\\');
            out.push('f');
        } else if (c as u32) < 0x20 {
            out.push('\\');
            out.push('u');
            out.push('0');
            out.push('0');
            out.push(hex(c as u32 / 16));
            out.push(hex(c as u32 % 16));
        } else {
            out.push(c);
        }
        i = i + 1;
    }
    assert(s@.subrange(0, s@.len() as int) == s@);
    assert(out@ == start + escape_text(s@));
    assert(start == old(out)@);
}

proof fn lemma_escape_text_push(s: Seq<char>, c: char)
    ensures
        escape_text(s.push(c)) == escape_text(s) + escape_char(c),
    decreases s.len(),
{
    if s.len() == 0 {
        assert(s.push(c).drop_first() == Seq::<char>::empty());
        assert(escape_text(Seq::<char>::empty()) == Seq::<char>::empty());
        assert(escape_text(s.push(c)) == escape_char(c) + Seq::<char>::empty());
        assert(escape_char(c) + Seq::<char>::empty() == escape_char(c));
        assert(escape_text(s) == Seq::<char>::empty());
        assert(Seq::<char>::empty() + escape_char(c) == escape_char(c));
    } else {
        lemma_escape_text_push(s.drop_first(), c);
        assert(s.push(c).drop_first() == s.drop_first().push(c));
        assert(escape_text(s.push(c)) == escape_char(s[0]) + escape_text(s.drop_first().push(c)));
        assert(escape_char(s[0]) + (escape_text(s.drop_first()) + escape_char(c)) == (escape_char(s[0])
            + escape_text(s.drop_first())) + escape_char(c));
    }
}

/// Appends a quoted JSON string literal.
pub fn push_quoted(out: &mut Vec<char>, s: &[char])
    ensures
        final(out)@ == old(out)@ + quoted(s@),
{
    out.push('"');
    push_escaped(out, s);
    out.push('"');
}

/// Appends the compact JSON text of a value.
pub fn write_text(value: &Json, out: &mut Vec<char>)
    ensures
        final(out)@ == old(out)@ + to_text(*value),
    decreases value,
{
    match value {
        Json::Null => {
            crate::text::extend_str(out, "null");
        },
        Json::Bool(b) => {
            if *b {
                crate::text::extend_str(out, "true");
            } else {
                crate::text::extend_str(out, "false");
            }
        },
        Json::Number(n) => {
            crate::text::extend_str(out, n.as_str());
        },
        Json::String(s) => {
            let sc = chars_of(s.as_str());
            push_quoted(out, sc.as_slice());
        },
        Json::Array(items) => {
            let ghost start = out@;
            out.push('[');
            let mut i: usize = 0;
            while i < items.len()
                invariant
                    i <= items@.len(),
                    *value == Json::Array(*items),
                    out@ == start + seq!['['] + items_text(items@.subrange(0, i as int)),
                decreases items@.len() - i,
            {
                proof {
                    lemma_items_text_push(items@.subrange(0, i as int), items@[i as int]);
                    assert(items@.subrange(0, i + 1) == items@.subrange(0, i as int).push(items@[i as int]));
                }
                if i > 0 {
                    out.push(',');
                }
                proof {
                    let ghost v = *value;
                    assert(v->Array_0 == *items);
                    assert(decreases_to!(v => v->Array_0));
                    vstd::std_specs::vec::axiom_vec_index_decreases(*items, i as int);
                    assert(decreases_to!(*items => items[i as int]));
                }
                write_text(&items[i], out);
                i = i + 1;
            }
            assert(items@.subrange(0, items@.len() as int) == items@);
            out.push(']');
        },
        Json::Object(fields) => {
            let ghost start = out@;
            out.push('{');
            let mut i: usize = 0;
            while i < fields.len()
                invariant
                    i <= fields@.len(),
                    *value == Json::Object(*fields),
                    out@ == start + seq!['{'] + members_text(fields@.subrange(0, i as int)),
                decreases fields@.len() - i,
            {
                proof {
                    lemma_members_text_push(fields@.subrange(0, i as int), fields@[i as int]);
                    assert(fields@.subrange(0, i + 1) == fields@.subrange(0, i as int).push(fields@[i as int]));
                }
                if i > 0 {
                    out.push(',');
                }
                let kc = chars_of(fields[i].0.as_str());
                push_quoted(out, kc.as_slice());
                out.push(':');
                proof {
                    let ghost v = *value;
                    assert(v->Object_0 == *fields);
                    assert(decreases_to!(v => v->Object_0));
                    vstd::std_specs::vec::axiom_vec_index_decreases(*fields, i as int);
                    assert(decreases_to!(*fields => fields[i as int]));
                    assert(decreases_to!(fields[i as int] => fields[i as int].1));
                }
                write_text(&fields[i].1, out);
                i = i + 1;
            }
            assert(fields@.subrange(0, fields@.len() as int) == fields@);
            out.push('}');
        },
    }
}

proof fn lemma_items_text_push(items: Seq<Json>, x: Json)
    ensures
        items_text(items.push(x)) == if items.len() == 0 {
            to_text(x)
        } else {
            items_text(items) + seq![','] + to_text(x)
        },
    decreases items.len(),
{
    if items.len() >= 1 {
        lemma_items_text_push(items.drop_first(), x);
        assert(items.push(x).drop_first() == items.drop_first().push(x));
    }
}

proof fn lemma_members_text_push(fields: Seq<(String, Json)>, x: (String, Json))
    ensures
        members_text(fields.push(x)) == if fields.len() == 0 {
            quoted(x.0@) + seq![':'] + to_text(x.1)
        } else {
            members_text(fields) + seq![','] + quoted(x.0@) + seq![':'] + to_text(x.1)
        },
    decreases fields.len(),
{
    if fields.len() >= 1 {
        lemma_members_text_push(fields.drop_first(), x);
        assert(fields.push(x).drop_first() == fields.drop_first().push(x));
    }
}

/// The compact JSON text of a value.
pub fn to_json_string(value: &Json) -> (s: Vec<char>)
    ensures
        s@ == to_text(*value),
{
    let mut out: Vec<char> = Vec::new();
    write_text(value, &mut out);
    out
}

/// Whether `j` is an object of string members with exactly these keys and
/// values, in this order.
pub open spec fn string_object(j: Json, members: Seq<(Seq<char>, Seq<char>)>) -> bool {
    &&& j matches Json::Object(fields)
    &&& fields@.len() == members.len()
    &&& forall|i: int| 0 <= i < members.len() ==> (#[trigger] fields@[i]).0@ == members[i].0 && (
        fields@[i].1 matches Json::String(v) && v@ == members[i].1)
}

/// A string member `key: value` of an object.
pub fn string_member(key: &str, value: String) -> (m: (String, Json))
    ensures
        m.0@ == key@,
        m.1 matches Json::String(v) && v@ == value@,
{
    (key.to_owned(), Json::String(value))
}

/// `serde_json::Value`.
#[verifier::external_type_specification]
#[verifier::external_body]
pub struct ExSerdeValue(serde_json::Value);

/// What `serde_json::from_slice::<serde_json::Value>` gives for `bytes`,
/// read one for one as a [`Json`] (numbers by their JSON text, members in
/// the order `serde_json` keeps them), or the `Display` text of its error.
pub uninterp spec fn json_of(bytes: Seq<u8>) -> Result<Json, Seq<char>>;

/// A `serde_json::Value` read one for one as a [`Json`]: each variant as
/// the same variant, a number by its `Display` text.
#[verifier::external_body]
fn json_from_serde(v: &serde_json::Value) -> Json {
    match v {
        serde_json::Value::Null => Json::Null,
        serde_json::Value::Bool(b) => Json::Bool(*b),
        serde_json::Value::Number(n) => Json::Number(n.to_string()),
        serde_json::Value::String(s) => Json::String(s.clone()),
        serde_json::Value::Array(items) => Json::Array(items.iter().map(json_from_serde).collect()),
        serde_json::Value::Object(map) => Json::Object(map.iter().map(|(k, v)| (k.clone(), json_from_serde(v))).collect()),
    }
}

/// `serde_json::from_slice::<serde_json::Value>` on `bytes`, read as a
/// [`Json`], or its error's text. Claimed to be [`json_of`].
#[verifier::external_body]
pub(crate) fn parse_json(bytes: &[u8]) -> (r: Result<Json, String>)
    ensures
        match r {
            Ok(v) => json_of(bytes@) == Ok::<Json, Seq<char>>(v),
            Err(e) => json_of(bytes@) == Err::<Json, Seq<char>>(e@),
        },
{
    match serde_json::from_slice::<serde_json::Value>(bytes) {
        Ok(v) => Ok(json_from_serde(&v)),
        Err(e) => Err(e.to_string()),
    }
}

} // verus!
