//! Masking and HTML-escaping of live log output.
//!
//! Log text arrives in arbitrary chunks, so a secret may be split across two
//! chunks. [`LogStreamMasker`] holds back the end of the text it has seen
//! until no secret can straddle the point where it cuts. The masker counts
//! characters; the public emit lengths are byte offsets into the text.
use vstd::prelude::*;

use crate::masking::{resolved_secrets, stream_mask_secret_values, MaskingConfig};
use crate::text::{chars_of, extend_chars, occurs_at, replace_all, string_of};
use vstd::utf8::{encode_scalar, encode_utf8};

verus! {

/// The replacement written in place of a secret.
pub open spec fn mask_text() -> Seq<char> {
    seq!['*', '*', '*']
}

/// The HTML-escaped form of one character.
pub open spec fn html_escape_char(c: char) -> Seq<char> {
    if c == '&' {
        seq!['&', 'a', 'm', 'p', ';']
    } else if c == '<' {
        seq!['&', 'l', 't', ';']
    } else if c == '>' {
        seq!['&', 'g', 't', ';']
    } else if c == '"' {
        seq!['&', 'q', 'u', 'o', 't', ';']
    } else {
        seq![c]
    }
}

/// `s` with `&`, `<`, `>` and `"` replaced by their HTML entities.
pub open spec fn html_escaped(s: Seq<char>) -> Seq<char>
    decreases s.len(),
{
    if s.len() == 0 {
        seq![]
    } else {
        html_escaped(s.drop_last()) + html_escape_char(s.last())
    }
}

/// The character views of a list of strings.
pub open spec fn string_views(v: Seq<String>) -> Seq<Seq<char>> {
    v.map_values(|s: String| s@)
}

/// `text` with every occurrence of each secret, taken in order, replaced
/// by `***`.
pub open spec fn masked_values(text: Seq<char>, secrets: Seq<Seq<char>>) -> Seq<char>
    decreases secrets.len(),
{
    if secrets.len() == 0 {
        text
    } else {
        replace_all(masked_values(text, secrets.drop_last()), secrets.last(), mask_text())
    }
}

/// The largest character count among `secrets` (0 when there is none).
pub open spec fn longest(secrets: Seq<Seq<char>>) -> nat
    decreases secrets.len(),
{
    if secrets.len() == 0 {
        0
    } else {
        let m = longest(secrets.drop_last());
        if secrets.last().len() > m {
            secrets.last().len()
        } else {
            m
        }
    }
}

/// HTML-escape a string for safe insertion via HTMX SSE swap.
pub fn html_escape(s: &str) -> (r: String)
    ensures
        r@ == html_escaped(s@),
{
    let cs = chars_of(s);
    let out = escape_chars(cs.as_slice());
    string_of(out.as_slice())
}

fn escape_chars(s: &[char]) -> (out: Vec<char>)
    ensures
        out@ == html_escaped(s@),
{
    let mut out: Vec<char> = Vec::new();
    let mut i: usize = 0;
    while i < s.len()
        invariant
            i <= s@.len(),
            out@ == html_escaped(s@.take(i as int)),
        decreases s@.len() - i,
    {
        let c = s[i];
        let piece: Vec<char> = if c == '&' {
            vec!['&', 'a', 'm', 'p', ';']
        } else if c == '<' {
            vec!['&', 'l', 't', ';']
        } else if c == '>' {
            vec!['&', 'g', 't', ';']
        } else if c == '"' {
            vec!['&', 'q', 'u', 'o', 't', ';']
        } else {
            vec![c]
        };
        assert(piece@ == html_escape_char(c));
        extend_chars(&mut out, piece.as_slice());
        assert(s@.take(i + 1).drop_last() == s@.take(i as int));
        i = i + 1;
    }
    assert(s@.take(s@.len() as int) == s@);
    out
}

/// `text` with each secret value, in order, replaced by `***`.
pub fn mask_chars(text: &[char], secret_values: &[String]) -> (r: Vec<char>)
    ensures
        r@ == masked_values(text@, string_views(secret_values@)),
{
    let mut masked: Vec<char> = crate::text::sub_chars(text, 0, text.len());
    assert(text@.subrange(0, text@.len() as int) == text@);
    let stars: Vec<char> = vec!['*', '*', '*'];
    let mut k: usize = 0;
    while k < secret_values.len()
        invariant
            k <= secret_values@.len(),
            stars@ == mask_text(),
            masked@ == masked_values(text@, string_views(secret_values@).take(k as int)),
        decreases secret_values@.len() - k,
    {
        let value = chars_of(secret_values[k].as_str());
        masked = crate::text::replace_chars(masked.as_slice(), value.as_slice(), stars.as_slice());
        let ghost sv = string_views(secret_values@);
        assert(sv.take(k + 1).drop_last() == sv.take(k as int));
        assert(sv.take(k + 1).last() == secret_values@[k as int]@);
        k = k + 1;
    }
    assert(string_views(secret_values@).take(secret_values@.len() as int) == string_views(
        secret_values@,
    ));
    masked
}

/// `text` with each secret value replaced by `***`, then HTML-escaped.
pub fn mask_resolved_env_values_and_escape(text: &str, secret_values: &[String]) -> (r: String)
    ensures
        r@ == html_escaped(masked_values(text@, string_views(secret_values@))),
{
    let cs = chars_of(text);
    let masked = mask_chars(cs.as_slice(), secret_values);
    let out = escape_chars(masked.as_slice());
    string_of(out.as_slice())
}

/// The number of trailing characters a stream must hold back: the length of
/// the longest secret.
pub fn stream_mask_tail_chars(secret_values: &[String]) -> (n: usize)
    ensures
        n == longest(string_views(secret_values@)),
{
    let mut best: usize = 0;
    let mut k: usize = 0;
    while k < secret_values.len()
        invariant
            k <= secret_values@.len(),
            best == longest(string_views(secret_values@).take(k as int)),
        decreases secret_values@.len() - k,
    {
        let len = chars_of(secret_values[k].as_str()).len();
        let ghost sv = string_views(secret_values@);
        assert(sv.take(k + 1).drop_last() == sv.take(k as int));
        assert(sv.take(k + 1).last() == secret_values@[k as int]@);
        if len > best {
            best = len;
        }
        k = k + 1;
    }
    assert(string_views(secret_values@).take(secret_values@.len() as int) == string_views(
        secret_values@,
    ));
    best
}

/// Length of the prefix that may be emitted when `tail_chars` characters
/// must be held back.
pub open spec fn emit_prefix(n: nat, tail_chars: nat) -> nat {
    if tail_chars == 0 {
        n
    } else if n >= tail_chars {
        (n - tail_chars) as nat
    } else {
        0
    }
}

/// Whether the first `e` characters of `text` end with the first `j`
/// characters of `secret`, a proper non-empty prefix of it.
pub open spec fn split_at(text: Seq<char>, e: int, secret: Seq<char>, j: int) -> bool {
    &&& 1 <= j < secret.len()
    &&& j <= e <= text.len()
    &&& text.subrange(e - j, e) == secret.subrange(0, j)
}

/// Whether cutting `text` after `e` characters would split some secret.
pub open spec fn splits_a_secret(text: Seq<char>, e: int, secrets: Seq<Seq<char>>) -> bool {
    exists|k: int, j: int| 0 <= k < secrets.len() && #[trigger] split_at(text, e, secrets[k], j)
}

/// The longest proper prefix of `secret`, no longer than `j - 1`, that ends
/// the first `e` characters of `text` (0 when there is none).
pub open spec fn longest_split(text: Seq<char>, e: int, secret: Seq<char>, j: int) -> int
    decreases j,
{
    if j <= 1 {
        0
    } else if split_at(text, e, secret, j - 1) {
        j - 1
    } else {
        longest_split(text, e, secret, j - 1)
    }
}

/// The longest secret prefix, over all secrets, that ends the first `e`
/// characters of `text`.
pub open spec fn longest_cut(text: Seq<char>, e: int, secrets: Seq<Seq<char>>) -> int
    decreases secrets.len(),
{
    if secrets.len() == 0 {
        0
    } else {
        let m = longest_cut(text, e, secrets.drop_last());
        let c = longest_split(text, e, secrets.last(), secrets.last().len() as int);
        if c > m {
            c
        } else {
            m
        }
    }
}

/// The emit length after one adjustment: `e` shortened by the longest
/// secret prefix that the emitted part ends with.
pub open spec fn adjusted(text: Seq<char>, e: int, secrets: Seq<Seq<char>>) -> int {
    e - longest_cut(text, e, secrets)
}

/// Repeats the adjustment until it no longer changes the length.
pub open spec fn settled(text: Seq<char>, e: nat, secrets: Seq<Seq<char>>) -> nat
    decreases e,
{
    let c = longest_cut(text, e as int, secrets);
    if e == 0 || c <= 0 || c > e {
        e
    } else {
        settled(text, (e - c) as nat, secrets)
    }
}

proof fn lemma_longest_split(text: Seq<char>, e: int, secret: Seq<char>, j: int)
    requires
        j <= secret.len(),
    ensures
        0 <= longest_split(text, e, secret, j) < if j < 1 { 1 } else { j },
        longest_split(text, e, secret, j) > 0 ==> split_at(
            text,
            e,
            secret,
            longest_split(text, e, secret, j),
        ),
        forall|i: int| 1 <= i < j && #[trigger] split_at(text, e, secret, i) ==> i <= longest_split(
            text,
            e,
            secret,
            j,
        ),
    decreases j,
{
    if j > 1 {
        lemma_longest_split(text, e, secret, j - 1);
    }
}

proof fn lemma_longest_cut(text: Seq<char>, e: int, secrets: Seq<Seq<char>>)
    ensures
        longest_cut(text, e, secrets) >= 0,
        longest_cut(text, e, secrets) > 0 ==> exists|k: int|
            0 <= k < secrets.len() && #[trigger] split_at(
                text,
                e,
                secrets[k],
                longest_cut(text, e, secrets),
            ),
        forall|k: int, j: int|
            0 <= k < secrets.len() && #[trigger] split_at(text, e, secrets[k], j) ==> j
                <= longest_cut(text, e, secrets),
    decreases secrets.len(),
{
    if secrets.len() > 0 {
        let init = secrets.drop_last();
        let last = secrets.last();
        lemma_longest_cut(text, e, init);
        lemma_longest_split(text, e, last, last.len() as int);
        let m = longest_cut(text, e, init);
        let c = longest_split(text, e, last, last.len() as int);
        assert forall|k: int, j: int|
            0 <= k < secrets.len() && #[trigger] split_at(text, e, secrets[k], j) implies j
                <= longest_cut(text, e, secrets) by {
            if k < secrets.len() - 1 {
                assert(init[k] == secrets[k]);
                assert(split_at(text, e, init[k], j));
            } else {
                assert(secrets[k] == last);
            }
        }
        if longest_cut(text, e, secrets) > 0 {
            if c > m {
                assert(split_at(text, e, secrets[secrets.len() - 1], c));
            } else {
                let k = choose|k: int| 0 <= k < init.len() && #[trigger] split_at(text, e, init[k], m);
                assert(secrets[k] == init[k]);
                assert(split_at(text, e, secrets[k], m));
            }
        }
    }
}

/// Whether the characters of `text` up to `e` end with the first `j`
/// characters of `secret`.
fn ends_with_prefix(text: &[char], e: usize, secret: &[char], j: usize) -> (b: bool)
    requires
        e <= text@.len(),
        j <= secret@.len(),
    ensures
        b == (j <= e && text@.subrange(e - j, e as int) == secret@.subrange(0, j as int)),
{
    if j > e {
        return false;
    }
    let start = e - j;
    let mut m: usize = 0;
    while m < j
        invariant
            j <= e <= text@.len(),
            j <= secret@.len(),
            start == e - j,
            m <= j,
            forall|q: int| 0 <= q < m ==> text@[start + q] == secret@[q],
        decreases j - m,
    {
        if text[start + m] != secret[m] {
            assert(text@.subrange(e - j, e as int)[m as int] != secret@.subrange(0, j as int)[m as int]);
            return false;
        }
        m = m + 1;
    }
    assert(text@.subrange(e - j, e as int) == secret@.subrange(0, j as int));
    true
}

fn longest_cut_exec(text: &[char], e: usize, secrets: &[Vec<char>]) -> (c: usize)
    requires
        e <= text@.len(),
    ensures
        c == longest_cut(text@, e as int, crate::text::views(secrets@)),
{
    let ghost sv = crate::text::views(secrets@);
    let mut best: usize = 0;
    let mut k: usize = 0;
    while k < secrets.len()
        invariant
            e <= text@.len(),
            sv == crate::text::views(secrets@),
            k <= secrets@.len(),
            best == longest_cut(text@, e as int, sv.take(k as int)),
        decreases secrets@.len() - k,
    {
        let s = &secrets[k];
        assert(sv[k as int] == s@);
        // longest proper prefix of `s` that the emitted part ends with
        let mut found: usize = 0;
        let mut j: usize = s.len();
        while j > 1 && found == 0
            invariant
                e <= text@.len(),
                j <= s@.len(),
                found == 0 ==> longest_split(text@, e as int, s@, s@.len() as int) == longest_split(
                    text@,
                    e as int,
                    s@,
                    j as int,
                ),
                found != 0 ==> found == longest_split(text@, e as int, s@, s@.len() as int),
            decreases j,
        {
            if ends_with_prefix(text, e, s.as_slice(), j - 1) {
                assert(split_at(text@, e as int, s@, j - 1));
                found = j - 1;
            } else {
                assert(!split_at(text@, e as int, s@, j - 1));
            }
            j = j - 1;
        }
        assert(sv.take(k + 1).drop_last() == sv.take(k as int));
        assert(sv.take(k + 1).last() == s@);
        if found > best {
            best = found;
        }
        k = k + 1;
    }
    assert(sv.take(secrets@.len() as int) == sv);
    best
}

/// Length of the prefix of `text` that may be emitted while `tail_chars`
/// characters are held back.
fn emit_prefix_chars(n: usize, tail_chars: usize) -> (e: usize)
    ensures
        e == emit_prefix(n as nat, tail_chars as nat),
{
    if tail_chars == 0 {
        n
    } else if n >= tail_chars {
        n - tail_chars
    } else {
        0
    }
}

/// The number of bytes the UTF-8 encoding of `cs` takes.
pub open spec fn byte_len(cs: Seq<char>) -> nat {
    encode_utf8(cs).len()
}

/// Whether byte offset `b` falls between two characters of `cs`.
pub open spec fn char_boundary_at(cs: Seq<char>, b: int) -> bool {
    exists|k: int| 0 <= k <= cs.len() && byte_len(cs.take(k)) == b
}

/// The number of characters before byte offset `b` of `cs`.
pub open spec fn chars_before(cs: Seq<char>, b: int) -> int {
    choose|k: int| 0 <= k <= cs.len() && byte_len(cs.take(k)) == b
}

proof fn lemma_encode_append(a: Seq<char>, b: Seq<char>)
    ensures
        encode_utf8(a + b) == encode_utf8(a) + encode_utf8(b),
    decreases a.len(),
{
    if a.len() == 0 {
        assert(a + b =~= b);
        assert(encode_utf8(a) + encode_utf8(b) =~= encode_utf8(b));
    } else {
        assert((a + b).drop_first() =~= a.drop_first() + b);
        assert((a + b)[0] == a[0]);
        lemma_encode_append(a.drop_first(), b);
        assert(encode_utf8(a + b) =~= encode_scalar(a[0] as u32) + (encode_utf8(a.drop_first()) + encode_utf8(b)));
        assert(encode_utf8(a) + encode_utf8(b) =~= encode_scalar(a[0] as u32) + (encode_utf8(a.drop_first())
            + encode_utf8(b)));
    }
}

proof fn lemma_byte_len_step(cs: Seq<char>, k: int)
    requires
        0 <= k < cs.len(),
    ensures
        byte_len(cs.take(k + 1)) == byte_len(cs.take(k)) + encode_scalar(cs[k] as u32).len(),
        1 <= encode_scalar(cs[k] as u32).len() <= 4,
{
    assert(cs.take(k + 1) =~= cs.take(k) + seq![cs[k]]);
    lemma_encode_append(cs.take(k), seq![cs[k]]);
    assert(seq![cs[k]].drop_first() =~= Seq::<char>::empty());
    assert(encode_utf8(seq![cs[k]]) =~= encode_scalar(cs[k] as u32) + encode_utf8(Seq::<char>::empty()));
    vstd::utf8::char_is_scalar(cs[k]);
}

/// Prefix byte lengths grow strictly with the number of characters.
proof fn lemma_byte_len_monotone(cs: Seq<char>, i: int, j: int)
    requires
        0 <= i <= j <= cs.len(),
    ensures
        byte_len(cs.take(i)) <= byte_len(cs.take(j)),
        i < j ==> byte_len(cs.take(i)) < byte_len(cs.take(j)),
    decreases j - i,
{
    if i < j {
        lemma_byte_len_step(cs, j - 1);
        lemma_byte_len_monotone(cs, i, j - 1);
    }
}

/// The number of bytes `c` takes in UTF-8.
fn char_width(c: char) -> (w: usize)
    ensures
        w == encode_scalar(c as u32).len(),
        1 <= w <= 4,
{
    proof {
        vstd::utf8::char_is_scalar(c);
    }
    let u = c as u32;
    if u <= 0x7F {
        1
    } else if u <= 0x7FF {
        2
    } else if u <= 0xFFFF {
        3
    } else {
        4
    }
}

/// The byte offset of character `k` of `cs`.
fn prefix_bytes(cs: &[char], k: usize) -> (b: usize)
    requires
        k <= cs@.len(),
        byte_len(cs@) <= usize::MAX,
    ensures
        b == byte_len(cs@.take(k as int)),
{
    let mut acc: usize = 0;
    let mut i: usize = 0;
    proof {
        assert(cs@.take(0) =~= Seq::<char>::empty());
        assert(cs@.take(cs@.len() as int) =~= cs@);
    }
    while i < k
        invariant
            i <= k <= cs@.len(),
            byte_len(cs@) <= usize::MAX,
            cs@.take(cs@.len() as int) == cs@,
            acc == byte_len(cs@.take(i as int)),
        decreases k - i,
    {
        let w = char_width(cs[i]);
        proof {
            lemma_byte_len_step(cs@, i as int);
            lemma_byte_len_monotone(cs@, i + 1, cs@.len() as int);
        }
        acc = acc + w;
        i = i + 1;
    }
    acc
}

/// The number of characters before byte offset `b` of `cs`, which falls
/// between two characters.
fn chars_at_byte(cs: &[char], b: usize) -> (k: usize)
    requires
        char_boundary_at(cs@, b as int),
    ensures
        k <= cs@.len(),
        byte_len(cs@.take(k as int)) == b,
        k == chars_before(cs@, b as int),
{
    let ghost w = chars_before(cs@, b as int);
    let mut acc: usize = 0;
    let mut i: usize = 0;
    proof {
        assert(cs@.take(0) =~= Seq::<char>::empty());
    }
    while acc < b
        invariant
            0 <= w <= cs@.len(),
            byte_len(cs@.take(w)) == b,
            i <= w,
            acc == byte_len(cs@.take(i as int)),
        decreases w - i,
    {
        proof {
            if i == w {
                assert(false);
            }
            lemma_byte_len_step(cs@, i as int);
            lemma_byte_len_monotone(cs@, i + 1, w);
        }
        let c = char_width(cs[i]);
        acc = acc + c;
        i = i + 1;
    }
    proof {
        if i < w {
            lemma_byte_len_monotone(cs@, i as int, w);
        }
    }
    i
}

/// The byte length of `text`, and that it fits in `usize`.
fn text_bytes(text: &str) -> (n: usize)
    ensures
        n == byte_len(text@),
{
    let bytes = text.as_bytes();
    bytes.len()
}

/// The byte offset of the prefix of `text` that can be emitted while
/// `tail_chars` characters are held back.
pub fn emit_prefix_len(text: &str, tail_chars: usize) -> (e: usize)
    ensures
        e == byte_len(text@.take(emit_prefix(text@.len(), tail_chars as nat) as int)),
{
    let cs = chars_of(text);
    let _ = text_bytes(text);
    let k = emit_prefix_chars(cs.len(), tail_chars);
    prefix_bytes(cs.as_slice(), k)
}

fn adjust_chars(text: &[char], emit_len: usize, secrets: &[Vec<char>]) -> (r: usize)
    requires
        emit_len <= text@.len(),
    ensures
        r == adjusted(text@, emit_len as int, crate::text::views(secrets@)),
        r <= emit_len,
        r == emit_len <==> !splits_a_secret(text@, emit_len as int, crate::text::views(secrets@)),
{
    let c = longest_cut_exec(text, emit_len, secrets);
    proof {
        let sv = crate::text::views(secrets@);
        lemma_longest_cut(text@, emit_len as int, sv);
        if c > 0 {
            let k = choose|k: int| 0 <= k < sv.len() && #[trigger] split_at(text@, emit_len as int, sv[k], c as int);
            assert(splits_a_secret(text@, emit_len as int, sv));
        }
        if splits_a_secret(text@, emit_len as int, sv) {
            let (k, j) = choose|k: int, j: int| 0 <= k < sv.len() && #[trigger] split_at(text@, emit_len as int, sv[k], j);
            assert(j <= c);
        }
    }
    emit_len - c
}

fn secret_chars(secret_values: &[String]) -> (r: Vec<Vec<char>>)
    ensures
        crate::text::views(r@) == string_views(secret_values@),
{
    let mut r: Vec<Vec<char>> = Vec::new();
    let mut k: usize = 0;
    while k < secret_values.len()
        invariant
            k <= secret_values@.len(),
            crate::text::views(r@) == string_views(secret_values@).take(k as int),
        decreases secret_values@.len() - k,
    {
        let ghost before = r@;
        r.push(chars_of(secret_values[k].as_str()));
        assert(crate::text::views(r@) == crate::text::views(before).push(secret_values@[k as int]@));
        assert(string_views(secret_values@).take(k + 1) == string_views(secret_values@).take(
            k as int,
        ).push(secret_values@[k as int]@));
        k = k + 1;
    }
    assert(string_views(secret_values@).take(secret_values@.len() as int) == string_views(
        secret_values@,
    ));
    r
}

/// The emit length `emit_len`, a byte offset between two characters of
/// `text`, shortened by the bytes of the longest proper prefix of a secret
/// that the emitted part ends with.
pub fn adjust_emit_len_for_secret_prefixes(text: &str, emit_len: usize, secret_values: &[String]) -> (r: usize)
    requires
        char_boundary_at(text@, emit_len as int),
    ensures
        ({
            let k = chars_before(text@, emit_len as int);
            &&& r == byte_len(text@.take(adjusted(text@, k, string_views(secret_values@))))
            &&& r <= emit_len
            &&& r == emit_len <==> !splits_a_secret(text@, k, string_views(secret_values@))
        }),
{
    let cs = chars_of(text);
    let total = text_bytes(text);
    let k = chars_at_byte(cs.as_slice(), emit_len);
    let secrets = secret_chars(secret_values);
    let a = adjust_chars(cs.as_slice(), k, secrets.as_slice());
    proof {
        assert(cs@.take(cs@.len() as int) =~= cs@);
        lemma_byte_len_monotone(cs@, a as int, k as int);
    }
    prefix_bytes(cs.as_slice(), a)
}

fn settle_chars(text: &[char], tail_chars: usize, secrets: &[Vec<char>]) -> (e: usize)
    ensures
        e == settled(
            text@,
            emit_prefix(text@.len(), tail_chars as nat),
            crate::text::views(secrets@),
        ),
        e <= emit_prefix(text@.len(), tail_chars as nat),
        e > 0 ==> !splits_a_secret(text@, e as int, crate::text::views(secrets@)),
{
    let ghost sv = crate::text::views(secrets@);
    let ghost start = emit_prefix(text@.len(), tail_chars as nat);
    let mut emit_len = emit_prefix_chars(text.len(), tail_chars);
    loop
        invariant
            sv == crate::text::views(secrets@),
            start == emit_prefix(text@.len(), tail_chars as nat),
            emit_len <= start <= text@.len(),
            settled(text@, start, sv) == settled(text@, emit_len as nat, sv),
        decreases emit_len,
    {
        if emit_len == 0 {
            return 0;
        }
        let adjusted_len = adjust_chars(text, emit_len, secrets);
        proof {
            lemma_longest_cut(text@, emit_len as int, sv);
        }
        if adjusted_len == emit_len {
            return emit_len;
        }
        emit_len = adjusted_len;
    }
}

/// The byte offset of the longest prefix of `text`, at most
/// `emit_prefix_len(text, tail_chars)`, after which no secret is cut in
/// two: the adjustment is repeated until it settles.
pub fn safe_emit_prefix_len(text: &str, tail_chars: usize, secret_values: &[String]) -> (e: usize)
    ensures
        ({
            let k = settled(text@, emit_prefix(text@.len(), tail_chars as nat), string_views(secret_values@));
            &&& e == byte_len(text@.take(k as int))
            &&& k <= emit_prefix(text@.len(), tail_chars as nat)
            &&& k > 0 ==> !splits_a_secret(text@, k as int, string_views(secret_values@))
        }),
{
    let cs = chars_of(text);
    let _ = text_bytes(text);
    let secrets = secret_chars(secret_values);
    let k = settle_chars(cs.as_slice(), tail_chars, secrets.as_slice());
    prefix_bytes(cs.as_slice(), k)
}

/// A cut after `e` characters that splits no secret leaves every occurrence
/// of a secret wholly on one side of the cut.
pub proof fn unsplit_cut_keeps_secrets_whole(
    text: Seq<char>,
    e: int,
    secrets: Seq<Seq<char>>,
    k: int,
    i: int,
)
    requires
        0 <= e <= text.len(),
        !splits_a_secret(text, e, secrets),
        0 <= k < secrets.len(),
        occurs_at(text, secrets[k], i),
    ensures
        i + secrets[k].len() <= e || e <= i,
{
    let s = secrets[k];
    if i < e && e < i + s.len() {
        let j = e - i;
        assert(text.subrange(e - j, e) == s.subrange(0, j)) by {
            assert forall|q: int| 0 <= q < j implies text.subrange(e - j, e)[q] == s.subrange(
                0,
                j,
            )[q] by {
                assert(text.subrange(i, i + s.len())[q] == s[q]);
            }
        }
        assert(split_at(text, e, secrets[k], j));
    }
}

/// What one emission shows for the raw `chunk`: its secrets masked and the
/// result HTML-escaped, or nothing when that is empty.
pub open spec fn shown(chunk: Seq<char>, secrets: Seq<Seq<char>>) -> Option<Seq<char>> {
    let out = html_escaped(masked_values(chunk, secrets));
    if out.len() == 0 {
        None
    } else {
        Some(out)
    }
}

/// Masks secrets in log text that arrives in chunks, holding back the end
/// of the text until no secret can be cut in two.
pub struct LogStreamMasker {
    secret_values: Vec<String>,
    buffer: Vec<char>,
    tail_chars: usize,
    received: Ghost<Seq<char>>,
    emitted: Ghost<Seq<char>>,
    output: Ghost<Seq<char>>,
    joined: Ghost<bool>,
}

impl LogStreamMasker {
    /// The secret values being masked.
    pub closed spec fn secrets(&self) -> Seq<Seq<char>> {
        string_views(self.secret_values@)
    }

    /// The text received but not yet emitted.
    pub closed spec fn pending(&self) -> Seq<char> {
        self.buffer@
    }

    /// How many trailing characters are held back.
    pub closed spec fn tail(&self) -> nat {
        self.tail_chars as nat
    }

    /// All text pushed so far, in order.
    pub closed spec fn received(&self) -> Seq<char> {
        self.received@
    }

    /// The part of the received text already emitted.
    pub closed spec fn emitted_text(&self) -> Seq<char> {
        self.emitted@
    }

    /// Everything emitted so far, the outputs of the calls joined in order.
    pub closed spec fn output(&self) -> Seq<char> {
        self.output@
    }

    /// Whether every cut made so far split no secret (true until a flush
    /// cuts one).
    pub closed spec fn joined(&self) -> bool {
        self.joined@
    }

    /// The masker holds back as many characters as the longest secret has,
    /// and the received text is the emitted text followed by the pending
    /// text. While no cut has split a secret, the emitted text ends where
    /// no secret is cut and, for secrets that are non-empty and hold no
    /// `*`, the output is the emitted text masked and escaped as a whole.
    pub open spec fn well_formed(&self) -> bool {
        &&& self.tail() == longest(self.secrets())
        &&& self.received() == self.emitted_text() + self.pending()
        &&& self.joined() ==> !splits_a_secret(self.emitted_text(), self.emitted_text().len() as int, self.secrets())
        &&& self.joined() && plain_secrets(self.secrets()) ==> self.output() == html_escaped(
            masked_values(self.emitted_text(), self.secrets()),
        )
    }

    /// A masker for the variables of `masking`, resolved in the hook's
    /// environment first, then in `system_env`.
    pub fn new(
        masking: &MaskingConfig,
        hook_env: &[(String, String)],
        system_env: &[(String, String)],
    ) -> (m: Self)
        ensures
            m.well_formed(),
            m.secrets() == resolved_secrets(string_views(masking.env_vars@), hook_env@, system_env@),
            m.pending() == Seq::<char>::empty(),
            m.received() == Seq::<char>::empty(),
            m.output() == Seq::<char>::empty(),
            m.joined(),
    {
        let secret_values = stream_mask_secret_values(masking, hook_env, system_env);
        let tail_chars = stream_mask_tail_chars(secret_values.as_slice());
        let m = LogStreamMasker {
            secret_values,
            buffer: Vec::new(),
            tail_chars,
            received: Ghost(Seq::empty()),
            emitted: Ghost(Seq::empty()),
            output: Ghost(Seq::empty()),
            joined: Ghost(true),
        };
        proof {
            assert(m.received() =~= m.emitted_text() + m.pending());
            assert(!splits_a_secret(m.emitted_text(), 0, m.secrets()));
            if plain_secrets(m.secrets()) {
                lemma_masked_empty(m.secrets());
            }
        }
        m
    }

    /// Adds `text` to the pending text and emits, masked and escaped, the
    /// longest prefix that holds back `tail()` characters and cuts no
    /// secret in two. Nothing is emitted when that prefix is empty or shows
    /// as empty.
    pub fn push(&mut self, text: &str) -> (r: Option<String>)
        requires
            old(self).well_formed(),
        ensures
            final(self).well_formed(),
            final(self).secrets() == old(self).secrets(),
            ({
                let full = old(self).pending() + text@;
                let e = settled(full, emit_prefix(full.len(), old(self).tail()), old(self).secrets());
                &&& final(self).pending() == full.subrange(e as int, full.len() as int)
                &&& e > 0 ==> !splits_a_secret(full, e as int, old(self).secrets())
                &&& r matches Some(out) ==> e > 0 && shown(full.subrange(0, e as int), old(self).secrets()) == Some(out@)
                &&& r is None ==> e == 0 || shown(full.subrange(0, e as int), old(self).secrets()) is None
            }),
            final(self).received() == old(self).received() + text@,
            final(self).joined() == old(self).joined(),
            final(self).output() == old(self).output() + match r {
                Some(out) => out@,
                None => Seq::<char>::empty(),
            },
    {
        let incoming = chars_of(text);
        extend_chars(&mut self.buffer, incoming.as_slice());
        let ghost full = self.buffer@;
        let secrets = secret_chars(self.secret_values.as_slice());
        let emit_len = settle_chars(self.buffer.as_slice(), self.tail_chars, secrets.as_slice());
        let ghost old_emitted = self.emitted@;
        let ghost old_output = self.output@;
        self.received = Ghost(self.received@ + text@);
        proof {
            assert(self.received@ =~= old_emitted + full);
        }
        if emit_len == 0 {
            assert(self.buffer@ == full.subrange(0, full.len() as int));
            assert(old_output + Seq::<char>::empty() =~= old_output);
            return None;
        }
        let chunk = crate::text::sub_chars(self.buffer.as_slice(), 0, emit_len);
        let rest = crate::text::sub_chars(self.buffer.as_slice(), emit_len, self.buffer.len());
        self.buffer = rest;
        let masked = mask_chars(chunk.as_slice(), self.secret_values.as_slice());
        let out = escape_chars(masked.as_slice());
        self.emitted = Ghost(old_emitted + chunk@);
        self.output = Ghost(old_output + out@);
        proof {
            let sv = self.secrets();
            assert(full =~= chunk@ + rest@);
            assert(self.received@ =~= self.emitted@ + self.buffer@);
            lemma_unsplit_prefix(full, emit_len as int, sv);
            assert(chunk@ =~= full.subrange(0, emit_len as int));
            if self.joined@ {
                lemma_unsplit_join(old_emitted, chunk@, sv);
            }
            if self.joined@ && plain_secrets(sv) {
                masked_split(old_emitted, chunk@, sv);
                lemma_html_escaped_append(masked_values(old_emitted, sv), masked_values(chunk@, sv));
            }
        }
        if out.len() == 0 {
            assert(self.output@ =~= old_output + Seq::<char>::empty());
            None
        } else {
            Some(string_of(out.as_slice()))
        }
    }

    /// Emits, masked and escaped, all pending text.
    pub fn flush(&mut self) -> (r: Option<String>)
        requires
            old(self).well_formed(),
        ensures
            final(self).well_formed(),
            final(self).secrets() == old(self).secrets(),
            final(self).pending() == Seq::<char>::empty(),
            r matches Some(out) ==> shown(old(self).pending(), old(self).secrets()) == Some(out@),
            r is None ==> old(self).pending().len() == 0 || shown(old(self).pending(), old(self).secrets()) is None,
            final(self).received() == old(self).received(),
            final(self).output() == old(self).output() + match r {
                Some(out) => out@,
                None => Seq::<char>::empty(),
            },
            old(self).joined() && plain_secrets(old(self).secrets()) ==> final(self).output() == html_escaped(
                masked_values(old(self).received(), old(self).secrets()),
            ),
    {
        let ghost old_emitted = self.emitted@;
        let ghost old_output = self.output@;
        let ghost sv = self.secrets();
        if self.buffer.len() == 0 {
            proof {
                assert(old_output + Seq::<char>::empty() =~= old_output);
                assert(self.received@ =~= old_emitted);
            }
            return None;
        }
        let chunk = crate::text::sub_chars(self.buffer.as_slice(), 0, self.buffer.len());
        assert(chunk@ == self.buffer@);
        self.buffer = Vec::new();
        let masked = mask_chars(chunk.as_slice(), self.secret_values.as_slice());
        let out = escape_chars(masked.as_slice());
        self.emitted = Ghost(old_emitted + chunk@);
        self.output = Ghost(old_output + out@);
        let ghost was_joined = self.joined@;
        let ghost now_joined = was_joined && !splits_a_secret(old_emitted + chunk@, (old_emitted + chunk@).len() as int, sv);
        self.joined = Ghost(now_joined);
        proof {
            assert(self.received@ =~= self.emitted@ + self.buffer@);
            if was_joined && plain_secrets(sv) {
                masked_split(old_emitted, chunk@, sv);
                lemma_html_escaped_append(masked_values(old_emitted, sv), masked_values(chunk@, sv));
            }
        }
        if out.len() == 0 {
            assert(self.output@ =~= old_output + Seq::<char>::empty());
            None
        } else {
            Some(string_of(out.as_slice()))
        }
    }
}


/// A starless prefix of a masked text is a prefix of the unmasked text:
/// the text only changes from the first mask on.
proof fn lemma_starless_prefix(t: Seq<char>, pat: Seq<char>, l: int)
    requires
        pat.len() > 0,
        0 <= l <= replace_all(t, pat, mask_text()).len(),
        !replace_all(t, pat, mask_text()).take(l).contains('*'),
    ensures
        l <= t.len(),
        replace_all(t, pat, mask_text()).take(l) == t.take(l),
    decreases t.len(),
{
    let r = replace_all(t, pat, mask_text());
    if t.len() < pat.len() {
    } else if t.subrange(0, pat.len() as int) == pat {
        if l > 0 {
            assert(r.take(l)[0] == '*');
            assert(r.take(l).contains('*'));
        } else {
            assert(r.take(0) =~= t.take(0));
        }
    } else {
        let rest = t.drop_first();
        let x = replace_all(rest, pat, mask_text());
        assert(r == seq![t[0]] + x);
        if l > 0 {
            assert(!x.take(l - 1).contains('*')) by {
                if x.take(l - 1).contains('*') {
                    let k = choose|k: int| 0 <= k < x.take(l - 1).len() && #[trigger] x.take(l - 1)[k] == '*';
                    assert(r.take(l)[k + 1] == '*');
                    assert(r.take(l).contains('*'));
                }
            }
            lemma_starless_prefix(rest, pat, l - 1);
            assert(r.take(l) =~= seq![t[0]] + x.take(l - 1));
            assert(t.take(l) =~= seq![t[0]] + rest.take(l - 1));
        } else {
            assert(r.take(0) =~= t.take(0));
        }
    }
}

/// An occurrence of a starless `a` that starts inside the mask at the
/// front of `m + x` is impossible.
proof fn lemma_no_occurrence_in_mask(x: Seq<char>, a: Seq<char>, i: int)
    requires
        a.len() > 0,
        !a.contains('*'),
        0 <= i < 3,
    ensures
        !occurs_at(mask_text() + x, a, i),
{
    let r = mask_text() + x;
    if occurs_at(r, a, i) {
        assert(r.subrange(i, i + a.len())[0] == r[i]);
        assert(a[0] == '*');
        assert(a.contains('*'));
    }
}

/// Masking the occurrences of one text never creates an occurrence of a
/// starless `a` that was absent.
proof fn lemma_replace_keeps_absent(s: Seq<char>, pat: Seq<char>, a: Seq<char>)
    requires
        pat.len() > 0,
        a.len() > 0,
        !a.contains('*'),
        !crate::text::contains_seq(s, a),
    ensures
        !crate::text::contains_seq(replace_all(s, pat, mask_text()), a),
    decreases s.len(),
{
    let r = replace_all(s, pat, mask_text());
    if crate::text::contains_seq(r, a) {
        let i = choose|i: int| occurs_at(r, a, i);
        if s.len() < pat.len() {
            assert(occurs_at(s, a, i));
        } else if s.subrange(0, pat.len() as int) == pat {
            let rest = s.subrange(pat.len() as int, s.len() as int);
            let x = replace_all(rest, pat, mask_text());
            assert(r == mask_text() + x);
            if i < 3 {
                lemma_no_occurrence_in_mask(x, a, i);
            } else {
                assert(occurs_at(x, a, i - 3)) by {
                    assert(x.subrange(i - 3, i - 3 + a.len()) =~= r.subrange(i, i + a.len()));
                }
                assert(!crate::text::contains_seq(rest, a)) by {
                    if crate::text::contains_seq(rest, a) {
                        let j = choose|j: int| occurs_at(rest, a, j);
                        assert(s.subrange(j + pat.len(), j + pat.len() + a.len()) =~= rest.subrange(j, j + a.len()));
                        assert(occurs_at(s, a, j + pat.len()));
                    }
                }
                lemma_replace_keeps_absent(rest, pat, a);
            }
        } else {
            let rest = s.drop_first();
            let x = replace_all(rest, pat, mask_text());
            assert(r == seq![s[0]] + x);
            assert(!crate::text::contains_seq(rest, a)) by {
                if crate::text::contains_seq(rest, a) {
                    let j = choose|j: int| occurs_at(rest, a, j);
                    assert(s.subrange(j + 1, j + 1 + a.len()) =~= rest.subrange(j, j + a.len()));
                    assert(occurs_at(s, a, j + 1));
                }
            }
            if i >= 1 {
                assert(occurs_at(x, a, i - 1)) by {
                    assert(x.subrange(i - 1, i - 1 + a.len()) =~= r.subrange(i, i + a.len()));
                }
                lemma_replace_keeps_absent(rest, pat, a);
            } else {
                let l = a.len() - 1;
                assert(!x.take(l).contains('*')) by {
                    if x.take(l).contains('*') {
                        let k = choose|k: int| 0 <= k < x.take(l).len() && #[trigger] x.take(l)[k] == '*';
                        assert(r.subrange(0, a.len() as int)[k + 1] == x.take(l)[k]);
                        assert(a[k + 1] == '*');
                        assert(a.contains('*'));
                    }
                }
                lemma_starless_prefix(rest, pat, l);
                assert(s.subrange(0, a.len() as int) =~= seq![s[0]] + rest.take(l));
                assert(r.subrange(0, a.len() as int) =~= seq![s[0]] + x.take(l));
                assert(occurs_at(s, a, 0));
            }
        }
    }
}

/// Masking a starless text leaves no occurrence of it.
proof fn lemma_replace_removes(s: Seq<char>, pat: Seq<char>)
    requires
        pat.len() > 0,
        !pat.contains('*'),
    ensures
        !crate::text::contains_seq(replace_all(s, pat, mask_text()), pat),
    decreases s.len(),
{
    let r = replace_all(s, pat, mask_text());
    if crate::text::contains_seq(r, pat) {
        let i = choose|i: int| occurs_at(r, pat, i);
        if s.len() < pat.len() {
        } else if s.subrange(0, pat.len() as int) == pat {
            let rest = s.subrange(pat.len() as int, s.len() as int);
            let x = replace_all(rest, pat, mask_text());
            assert(r == mask_text() + x);
            if i < 3 {
                lemma_no_occurrence_in_mask(x, pat, i);
            } else {
                assert(occurs_at(x, pat, i - 3)) by {
                    assert(x.subrange(i - 3, i - 3 + pat.len()) =~= r.subrange(i, i + pat.len()));
                }
                lemma_replace_removes(rest, pat);
            }
        } else {
            let rest = s.drop_first();
            let x = replace_all(rest, pat, mask_text());
            assert(r == seq![s[0]] + x);
            if i >= 1 {
                assert(occurs_at(x, pat, i - 1)) by {
                    assert(x.subrange(i - 1, i - 1 + pat.len()) =~= r.subrange(i, i + pat.len()));
                }
                lemma_replace_removes(rest, pat);
            } else {
                let l = pat.len() - 1;
                assert(!x.take(l).contains('*')) by {
                    if x.take(l).contains('*') {
                        let k = choose|k: int| 0 <= k < x.take(l).len() && #[trigger] x.take(l)[k] == '*';
                        assert(r.subrange(0, pat.len() as int)[k + 1] == x.take(l)[k]);
                        assert(pat[k + 1] == '*');
                        assert(pat.contains('*'));
                    }
                }
                lemma_starless_prefix(rest, pat, l);
                assert(s.subrange(0, pat.len() as int) =~= seq![s[0]] + rest.take(l));
                assert(r.subrange(0, pat.len() as int) =~= seq![s[0]] + x.take(l));
            }
        }
    }
}

/// Masking hides every secret: when each secret is non-empty and holds no
/// `*`, none of them occurs in the masked text.
pub proof fn masked_values_hide_secrets(text: Seq<char>, secrets: Seq<Seq<char>>)
    requires
        forall|i: int| 0 <= i < secrets.len() ==> (#[trigger] secrets[i]).len() > 0 && !secrets[i].contains('*'),
    ensures
        forall|i: int| 0 <= i < secrets.len() ==> !crate::text::contains_seq(masked_values(text, secrets), #[trigger] secrets[i]),
    decreases secrets.len(),
{
    if secrets.len() > 0 {
        let init = secrets.drop_last();
        let last = secrets.last();
        assert forall|i: int| 0 <= i < init.len() implies (#[trigger] init[i]).len() > 0 && !init[i].contains('*') by {
            assert(init[i] == secrets[i]);
        }
        masked_values_hide_secrets(text, init);
        let m = masked_values(text, init);
        assert(last == secrets[secrets.len() - 1]);
        lemma_replace_removes(m, last);
        assert forall|i: int| 0 <= i < secrets.len() implies !crate::text::contains_seq(
            masked_values(text, secrets),
            #[trigger] secrets[i],
        ) by {
            if i < secrets.len() - 1 {
                assert(secrets[i] == init[i]);
                lemma_replace_keeps_absent(m, last, secrets[i]);
            }
        }
    }
}


/// Replacing a pattern that leaves no `*` behind replaced nothing.
proof fn lemma_starless_replace(t: Seq<char>, pat: Seq<char>)
    requires
        pat.len() > 0,
        !replace_all(t, pat, mask_text()).contains('*'),
    ensures
        replace_all(t, pat, mask_text()) == t,
    decreases t.len(),
{
    let r = replace_all(t, pat, mask_text());
    if t.len() < pat.len() {
    } else if t.subrange(0, pat.len() as int) == pat {
        assert(r[0] == '*');
    } else {
        let rest = t.drop_first();
        let x = replace_all(rest, pat, mask_text());
        assert(r == seq![t[0]] + x);
        assert forall|c: int| 0 <= c < x.len() implies x[c] != '*' by {
            assert(r[c + 1] == x[c]);
        }
        lemma_starless_replace(rest, pat);
        assert(r =~= t);
    }
}

/// A suffix without `*` of a text after one replacement is the same suffix
/// of the text before it.
proof fn lemma_starless_suffix(t: Seq<char>, pat: Seq<char>, l: int)
    requires
        pat.len() > 0,
        0 <= l <= replace_all(t, pat, mask_text()).len(),
        !replace_all(t, pat, mask_text()).skip(replace_all(t, pat, mask_text()).len() - l).contains('*'),
    ensures
        l <= t.len(),
        replace_all(t, pat, mask_text()).skip(replace_all(t, pat, mask_text()).len() - l) == t.skip(t.len() - l),
    decreases t.len(),
{
    let r = replace_all(t, pat, mask_text());
    let n = r.len();
    if t.len() < pat.len() {
    } else if t.subrange(0, pat.len() as int) == pat {
        let rest = t.subrange(pat.len() as int, t.len() as int);
        let x = replace_all(rest, pat, mask_text());
        assert(r == mask_text() + x);
        if l > x.len() {
            assert(r.skip(n - l)[l - x.len() - 1] == '*');
        } else {
            assert(r.skip(n - l) =~= x.skip(x.len() - l));
            lemma_starless_suffix(rest, pat, l);
            assert(rest.skip(rest.len() - l) =~= t.skip(t.len() - l));
        }
    } else {
        let rest = t.drop_first();
        let x = replace_all(rest, pat, mask_text());
        assert(r == seq![t[0]] + x);
        if l <= x.len() {
            assert(r.skip(n - l) =~= x.skip(x.len() - l));
            lemma_starless_suffix(rest, pat, l);
            assert(rest.skip(rest.len() - l) =~= t.skip(t.len() - l));
        } else {
            assert(r.skip(n - l) =~= r);
            assert forall|c: int| 0 <= c < r.len() implies r[c] != '*' by {
                assert(r.skip(n - l)[c] == r[c]);
            }
            lemma_starless_replace(t, pat);
            assert(t.skip(t.len() - l) =~= t);
        }
    }
}

/// A suffix without `*` of a masked text is the same suffix of the text.
proof fn lemma_masked_starless_suffix(t: Seq<char>, secrets: Seq<Seq<char>>, l: int)
    requires
        forall|i: int| 0 <= i < secrets.len() ==> (#[trigger] secrets[i]).len() > 0,
        0 <= l <= masked_values(t, secrets).len(),
        !masked_values(t, secrets).skip(masked_values(t, secrets).len() - l).contains('*'),
    ensures
        l <= t.len(),
        masked_values(t, secrets).skip(masked_values(t, secrets).len() - l) == t.skip(t.len() - l),
    decreases secrets.len(),
{
    if secrets.len() == 0 {
    } else {
        let init = secrets.drop_last();
        let m = masked_values(t, init);
        assert(secrets.last() == secrets[secrets.len() - 1]);
        lemma_starless_suffix(m, secrets.last(), l);
        assert forall|i: int| 0 <= i < init.len() implies (#[trigger] init[i]).len() > 0 by {
            assert(init[i] == secrets[i]);
        }
        lemma_masked_starless_suffix(t, init, l);
    }
}

/// Masking hides every secret across a safe cut: when each secret is
/// non-empty and holds no `*`, and cutting `text` after `e` characters
/// splits no secret, no secret occurs in the masked part before the cut
/// followed by the masked part after it, so no secret shows where two
/// emitted pieces meet.
pub proof fn safe_cut_keeps_secrets_hidden(text: Seq<char>, e: int, secrets: Seq<Seq<char>>)
    requires
        forall|i: int| 0 <= i < secrets.len() ==> (#[trigger] secrets[i]).len() > 0 && !secrets[i].contains('*'),
        0 <= e <= text.len(),
        !splits_a_secret(text, e, secrets),
    ensures
        forall|k: int|
            0 <= k < secrets.len() ==> !crate::text::contains_seq(
                masked_values(text.take(e), secrets) + masked_values(text.skip(e), secrets),
                #[trigger] secrets[k],
            ),
{
    let a = masked_values(text.take(e), secrets);
    let b = masked_values(text.skip(e), secrets);
    let m = a + b;
    masked_values_hide_secrets(text.take(e), secrets);
    masked_values_hide_secrets(text.skip(e), secrets);
    assert forall|k: int| 0 <= k < secrets.len() implies !crate::text::contains_seq(m, #[trigger] secrets[k]) by {
        let s = secrets[k];
        if crate::text::contains_seq(m, s) {
            let i = choose|i: int| occurs_at(m, s, i);
            let p = a.len() as int;
            let n = s.len() as int;
            if i + n <= p {
                assert(m.subrange(i, i + n) =~= a.subrange(i, i + n));
                assert(occurs_at(a, s, i));
            } else if i >= p {
                assert(m.subrange(i, i + n) =~= b.subrange(i - p, i - p + n));
                assert(occurs_at(b, s, i - p));
            } else {
                let j = p - i;
                assert(a.skip(p - j) =~= s.subrange(0, j)) by {
                    assert forall|c: int| 0 <= c < j implies a.skip(p - j)[c] == s.subrange(0, j)[c] by {
                        assert(m.subrange(i, i + n)[c] == m[i + c]);
                    }
                }
                assert(!a.skip(p - j).contains('*')) by {
                    let w = a.skip(p - j);
                    if w.contains('*') {
                        let c = choose|c: int| 0 <= c < w.len() && #[trigger] w[c] == '*';
                        assert(s[c] == '*');
                    }
                }
                assert forall|q: int| 0 <= q < secrets.len() implies (#[trigger] secrets[q]).len() > 0 by {}
                lemma_masked_starless_suffix(text.take(e), secrets, j);
                let t = text.take(e);
                assert(t.skip(t.len() - j) =~= text.subrange(e - j, e));
                assert(split_at(text, e, secrets[k], j));
                assert(splits_a_secret(text, e, secrets));
            }
        }
    }
}

/// Whether no proper, non-empty prefix of `secret` ends `a`.
pub open spec fn ends_clear(a: Seq<char>, secret: Seq<char>) -> bool {
    forall|j: int|
        1 <= j < secret.len() && j <= a.len() ==> #[trigger] a.subrange(a.len() - j, a.len() as int)
            != secret.subrange(0, j)
}

proof fn lemma_masked_empty(secrets: Seq<Seq<char>>)
    requires
        plain_secrets(secrets),
    ensures
        masked_values(Seq::<char>::empty(), secrets) == Seq::<char>::empty(),
    decreases secrets.len(),
{
    if secrets.len() > 0 {
        let init = secrets.drop_last();
        assert forall|i: int| 0 <= i < init.len() implies (#[trigger] init[i]).len() > 0 && !init[i].contains('*') by {
            assert(init[i] == secrets[i]);
        }
        lemma_masked_empty(init);
        assert(secrets.last() == secrets[secrets.len() - 1]);
    }
}

/// Whether every secret is non-empty and holds no `*`.
pub open spec fn plain_secrets(secrets: Seq<Seq<char>>) -> bool {
    forall|i: int| 0 <= i < secrets.len() ==> (#[trigger] secrets[i]).len() > 0 && !secrets[i].contains('*')
}

proof fn lemma_clear_of_unsplit(a: Seq<char>, secrets: Seq<Seq<char>>, k: int)
    requires
        !splits_a_secret(a, a.len() as int, secrets),
        0 <= k < secrets.len(),
    ensures
        ends_clear(a, secrets[k]),
{
    assert forall|j: int| 1 <= j < secrets[k].len() && j <= a.len() implies #[trigger] a.subrange(
        a.len() - j,
        a.len() as int,
    ) != secrets[k].subrange(0, j) by {
        if a.subrange(a.len() - j, a.len() as int) == secrets[k].subrange(0, j) {
            assert(split_at(a, a.len() as int, secrets[k], j));
        }
    }
}

proof fn lemma_html_escaped_append(a: Seq<char>, b: Seq<char>)
    ensures
        html_escaped(a + b) == html_escaped(a) + html_escaped(b),
    decreases b.len(),
{
    if b.len() == 0 {
        assert(a + b =~= a);
        assert(html_escaped(a) + html_escaped(b) =~= html_escaped(a));
    } else {
        assert((a + b).drop_last() =~= a + b.drop_last());
        assert((a + b).last() == b.last());
        lemma_html_escaped_append(a, b.drop_last());
        assert(html_escaped(a + b) =~= html_escaped(a) + html_escaped(b.drop_last()) + html_escape_char(b.last()));
        assert(html_escaped(a) + html_escaped(b) =~= html_escaped(a) + (html_escaped(b.drop_last())
            + html_escape_char(b.last())));
    }
}

/// One replacement over `a + b` is the replacement over each when no
/// occurrence of the pattern can straddle the two.
proof fn lemma_replace_split(a: Seq<char>, b: Seq<char>, pat: Seq<char>)
    requires
        pat.len() > 0,
        ends_clear(a, pat),
    ensures
        replace_all(a + b, pat, mask_text()) == replace_all(a, pat, mask_text()) + replace_all(b, pat, mask_text()),
    decreases a.len(),
{
    let n = pat.len() as int;
    if a.len() == 0 {
        assert(a + b =~= b);
        assert(replace_all(a, pat, mask_text()) =~= a);
        assert(replace_all(a, pat, mask_text()) + replace_all(b, pat, mask_text()) =~= replace_all(b, pat, mask_text()));
    } else if (a + b).len() < n {
        assert(replace_all(a, pat, mask_text()) == a);
        assert(replace_all(b, pat, mask_text()) == b);
    } else if (a + b).subrange(0, n) == pat {
        if a.len() < n {
            let j = a.len() as int;
            assert(a.subrange(a.len() - j, a.len() as int) =~= a);
            assert(a =~= pat.subrange(0, j)) by {
                assert forall|c: int| 0 <= c < j implies a[c] == pat.subrange(0, j)[c] by {
                    assert((a + b).subrange(0, n)[c] == (a + b)[c]);
                }
            }
            assert(false);
        } else {
            let rest = a.subrange(n, a.len() as int);
            assert(a.subrange(0, n) =~= (a + b).subrange(0, n));
            assert((a + b).subrange(n, (a + b).len() as int) =~= rest + b);
            assert forall|j: int| 1 <= j < pat.len() && j <= rest.len() implies #[trigger] rest.subrange(
                rest.len() - j,
                rest.len() as int,
            ) != pat.subrange(0, j) by {
                assert(rest.subrange(rest.len() - j, rest.len() as int) =~= a.subrange(a.len() - j, a.len() as int));
            }
            lemma_replace_split(rest, b, pat);
            assert(replace_all(a + b, pat, mask_text()) =~= mask_text() + replace_all(rest + b, pat, mask_text()));
            assert(replace_all(a, pat, mask_text()) =~= mask_text() + replace_all(rest, pat, mask_text()));
        }
    } else {
        let rest = a.drop_first();
        assert((a + b).drop_first() =~= rest + b);
        assert((a + b)[0] == a[0]);
        assert forall|j: int| 1 <= j < pat.len() && j <= rest.len() implies #[trigger] rest.subrange(
            rest.len() - j,
            rest.len() as int,
        ) != pat.subrange(0, j) by {
            assert(rest.subrange(rest.len() - j, rest.len() as int) =~= a.subrange(a.len() - j, a.len() as int));
        }
        lemma_replace_split(rest, b, pat);
        if a.len() < n {
            assert(replace_all(a, pat, mask_text()) == a);
            assert(replace_all(rest, pat, mask_text()) == rest);
            assert(replace_all(a + b, pat, mask_text()) =~= seq![a[0]] + replace_all(rest + b, pat, mask_text()));
            assert(a =~= seq![a[0]] + rest);
        } else {
            assert(a.subrange(0, n) =~= (a + b).subrange(0, n));
            assert(replace_all(a + b, pat, mask_text()) =~= seq![a[0]] + replace_all(rest + b, pat, mask_text()));
            assert(replace_all(a, pat, mask_text()) =~= seq![a[0]] + replace_all(rest, pat, mask_text()));
        }
    }
}

/// Masking `a + b` is masking `a` and then `b` when the secrets are
/// non-empty, hold no `*`, and the cut after `a` splits none of them.
pub proof fn masked_split(a: Seq<char>, b: Seq<char>, secrets: Seq<Seq<char>>)
    requires
        plain_secrets(secrets),
        !splits_a_secret(a, a.len() as int, secrets),
    ensures
        masked_values(a + b, secrets) == masked_values(a, secrets) + masked_values(b, secrets),
    decreases secrets.len(),
{
    if secrets.len() > 0 {
        let init = secrets.drop_last();
        let last = secrets.last();
        assert(last == secrets[secrets.len() - 1]);
        assert forall|i: int| 0 <= i < init.len() implies (#[trigger] init[i]).len() > 0 && !init[i].contains('*') by {
            assert(init[i] == secrets[i]);
        }
        assert(!splits_a_secret(a, a.len() as int, init)) by {
            if splits_a_secret(a, a.len() as int, init) {
                let (k, j) = choose|k: int, j: int| 0 <= k < init.len() && #[trigger] split_at(a, a.len() as int, init[k], j);
                assert(init[k] == secrets[k]);
                assert(split_at(a, a.len() as int, secrets[k], j));
            }
        }
        masked_split(a, b, init);
        let ma = masked_values(a, init);
        lemma_clear_of_unsplit(a, secrets, secrets.len() - 1);
        assert forall|j: int| 1 <= j < last.len() && j <= ma.len() implies #[trigger] ma.subrange(
            ma.len() - j,
            ma.len() as int,
        ) != last.subrange(0, j) by {
            if ma.subrange(ma.len() - j, ma.len() as int) == last.subrange(0, j) {
                assert(ma.skip(ma.len() - j) =~= ma.subrange(ma.len() - j, ma.len() as int));
                assert(!ma.skip(ma.len() - j).contains('*')) by {
                    let w = ma.skip(ma.len() - j);
                    if w.contains('*') {
                        let c = choose|c: int| 0 <= c < w.len() && #[trigger] w[c] == '*';
                        assert(last[c] == '*');
                    }
                }
                assert forall|q: int| 0 <= q < init.len() implies (#[trigger] init[q]).len() > 0 by {}
                lemma_masked_starless_suffix(a, init, j);
                assert(a.skip(a.len() - j) =~= a.subrange(a.len() - j, a.len() as int));
            }
        }
        lemma_replace_split(ma, masked_values(b, init), last);
    } else {
        assert(masked_values(a + b, secrets) == a + b);
    }
}

/// Two cuts that each split no secret give a cut of the joined text that
/// splits none either.
proof fn lemma_unsplit_join(x: Seq<char>, y: Seq<char>, secrets: Seq<Seq<char>>)
    requires
        !splits_a_secret(x, x.len() as int, secrets),
        !splits_a_secret(y, y.len() as int, secrets),
    ensures
        !splits_a_secret(x + y, (x + y).len() as int, secrets),
{
    let xy = x + y;
    if splits_a_secret(xy, xy.len() as int, secrets) {
        let (k, j) = choose|k: int, j: int| 0 <= k < secrets.len() && #[trigger] split_at(xy, xy.len() as int, secrets[k], j);
        let s = secrets[k];
        if j <= y.len() {
            assert(xy.subrange(xy.len() - j, xy.len() as int) =~= y.subrange(y.len() - j, y.len() as int));
            assert(split_at(y, y.len() as int, s, j));
        } else {
            let i = j - y.len();
            assert(x.subrange(x.len() - i, x.len() as int) =~= s.subrange(0, i)) by {
                assert forall|c: int| 0 <= c < i implies x.subrange(x.len() - i, x.len() as int)[c] == s.subrange(0, i)[c] by {
                    assert(xy.subrange(xy.len() - j, xy.len() as int)[c] == xy[xy.len() - j + c]);
                }
            }
            assert(split_at(x, x.len() as int, s, i));
        }
    }
}

/// A cut of `full` after `e` characters that splits no secret leaves a
/// first part whose own end splits none.
proof fn lemma_unsplit_prefix(full: Seq<char>, e: int, secrets: Seq<Seq<char>>)
    requires
        0 <= e <= full.len(),
        !splits_a_secret(full, e, secrets),
    ensures
        !splits_a_secret(full.subrange(0, e), e, secrets),
{
    let c = full.subrange(0, e);
    if splits_a_secret(c, e, secrets) {
        let (k, j) = choose|k: int, j: int| 0 <= k < secrets.len() && #[trigger] split_at(c, e, secrets[k], j);
        assert(c.subrange(e - j, e) =~= full.subrange(e - j, e));
        assert(split_at(full, e, secrets[k], j));
    }
}

/// Bytes read from a log file at a time.
pub const LOG_TAIL_READ_CHUNK_BYTES: usize = 65536;

/// How many of `remaining` unread bytes one read takes.
pub open spec fn tail_chunk(remaining: int) -> int {
    if remaining < LOG_TAIL_READ_CHUNK_BYTES { remaining } else { LOG_TAIL_READ_CHUNK_BYTES as int }
}

/// The read a log tail makes next.
#[derive(Debug)]
pub enum TailRead {
    /// Nothing new to read.
    Nothing,
    /// Read up to `len` bytes from byte `from`.
    Read { from: u64, len: usize },
}

/// Follows a growing log file: the caller opens and reads the file, the
/// tail decides where to read and keeps the offset read up to.
#[derive(Debug)]
pub struct LogTail {
    path: String,
    offset: u64,
}

impl LogTail {
    /// The file followed.
    pub closed spec fn file(&self) -> Seq<char> {
        self.path@
    }

    /// The byte offset read up to.
    pub closed spec fn position(&self) -> u64 {
        self.offset
    }

    /// A tail of the file at `path`, at its start.
    pub fn new(path: &str) -> (t: Self)
        ensures
            t.file() == path@,
            t.position() == 0,
    {
        LogTail { path: path.to_owned(), offset: 0 }
    }

    /// The file followed.
    pub fn path(&self) -> (p: &str)
        ensures
            p@ == self.file(),
    {
        self.path.as_str()
    }

    /// The byte offset read up to.
    pub fn offset(&self) -> (o: u64)
        ensures
            o == self.position(),
    {
        self.offset
    }

    /// What to read now that the file holds `file_len` bytes. A file
    /// shorter than the offset was truncated: the tail starts over from
    /// its beginning. Nothing is read when nothing is new; otherwise up to
    /// [`LOG_TAIL_READ_CHUNK_BYTES`] bytes from the offset.
    pub fn next_read(&mut self, file_len: u64) -> (r: TailRead)
        ensures
            final(self).file() == old(self).file(),
            final(self).position() == if file_len < old(self).position() { 0 } else { old(self).position() },
            file_len == final(self).position() ==> r is Nothing,
            file_len != final(self).position() ==> (r matches TailRead::Read { from, len } && from == final(self).position()
                && len == tail_chunk(file_len - final(self).position())),
    {
        if file_len < self.offset {
            self.offset = 0;
        }
        if file_len == self.offset {
            return TailRead::Nothing;
        }
        let remaining = file_len - self.offset;
        let len = if remaining < LOG_TAIL_READ_CHUNK_BYTES as u64 {
            remaining as usize
        } else {
            LOG_TAIL_READ_CHUNK_BYTES
        };
        TailRead::Read { from: self.offset, len }
    }

    /// Records that `bytes_read` more bytes were read (the offset
    /// saturates at the largest file offset).
    pub fn advance(&mut self, bytes_read: usize)
        ensures
            final(self).file() == old(self).file(),
            final(self).position() == if old(self).position() + bytes_read > u64::MAX {
                u64::MAX as int
            } else {
                old(self).position() + bytes_read
            },
    {
        self.offset = self.offset.saturating_add(bytes_read as u64);
    }

    /// Starts over from the beginning of the file, after the file could
    /// not be read.
    pub fn reset(&mut self)
        ensures
            final(self).file() == old(self).file(),
            final(self).position() == 0,
    {
        self.offset = 0;
    }
}

} // verus!
