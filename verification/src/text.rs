//! Character-level text helpers shared by the parsers and formatters.
//!
//! Text is handled as sequences of `char`; the spec functions here state
//! what the std string operations used by the service compute.
use vstd::prelude::*;

verus! {

/// Appends one character to a string.
#[verifier::external_body]
fn push_char(s: &mut String, c: char)
    ensures
        final(s)@ == old(s)@.push(c),
{
    s.push(c);
}

/// The characters of a string slice, in order.
pub fn chars_of(s: &str) -> (v: Vec<char>)
    ensures
        v@ == s@,
{
    let mut v: Vec<char> = Vec::new();
    for c in it: s.chars()
        invariant
            it.seq() == s@,
            v@ == it.seq().take(it.index() as int),
    {
        v.push(c);
    }
    v
}

/// Builds a string from characters.
pub fn string_of(v: &[char]) -> (s: String)
    ensures
        s@ == v@,
{
    let mut s = String::new();
    for i in 0..v.len()
        invariant
            s@ == v@.take(i as int),
    {
        push_char(&mut s, v[i]);
        assert(v@.take(i + 1) == v@.take(i as int).push(v@[i as int]));
    }
    assert(v@.take(v.len() as int) == v@);
    s
}

/// Appends the characters of `t` to `v`.
pub fn extend_chars(v: &mut Vec<char>, t: &[char])
    ensures
        final(v)@ == old(v)@ + t@,
{
    for i in 0..t.len()
        invariant
            v@ == old(v)@ + t@.take(i as int),
    {
        v.push(t[i]);
        assert(t@.take(i + 1) == t@.take(i as int).push(t@[i as int]));
    }
    assert(t@.take(t.len() as int) == t@);
}

/// Appends the characters of a string slice to `v`.
pub fn extend_str(v: &mut Vec<char>, t: &str)
    ensures
        final(v)@ == old(v)@ + t@,
{
    let tc = chars_of(t);
    extend_chars(v, tc.as_slice());
}

/// Unicode `White_Space`: the characters `char::is_whitespace` accepts.
pub open spec fn is_ws(c: char) -> bool {
    ||| ('\t' <= c && c <= '\r')
    ||| c == ' '
    ||| c == '\u{85}'
    ||| c == '\u{a0}'
    ||| c == '\u{1680}'
    ||| ('\u{2000}' <= c && c <= '\u{200a}')
    ||| c == '\u{2028}'
    ||| c == '\u{2029}'
    ||| c == '\u{202f}'
    ||| c == '\u{205f}'
    ||| c == '\u{3000}'
}

/// Whether `c` is Unicode white space.
pub fn is_whitespace(c: char) -> (b: bool)
    ensures
        b == is_ws(c),
{
    ('\t' <= c && c <= '\r') || c == ' ' || c == '\u{85}' || c == '\u{a0}' || c == '\u{1680}'
        || ('\u{2000}' <= c && c <= '\u{200a}') || c == '\u{2028}' || c == '\u{2029}'
        || c == '\u{202f}' || c == '\u{205f}' || c == '\u{3000}'
}

/// `s` with leading white space removed (`str::trim_start`).
pub open spec fn trim_start(s: Seq<char>) -> Seq<char>
    decreases s.len(),
{
    if s.len() > 0 && is_ws(s[0]) {
        trim_start(s.drop_first())
    } else {
        s
    }
}

/// `s` with trailing white space removed (`str::trim_end`).
pub open spec fn trim_end(s: Seq<char>) -> Seq<char>
    decreases s.len(),
{
    if s.len() > 0 && is_ws(s.last()) {
        trim_end(s.drop_last())
    } else {
        s
    }
}

/// `s` with white space removed at both ends (`str::trim`).
pub open spec fn trim(s: Seq<char>) -> Seq<char> {
    trim_end(trim_start(s))
}

proof fn lemma_trim_start_skip(s: Seq<char>, i: int)
    requires
        0 <= i <= s.len(),
        forall|j: int| 0 <= j < i ==> is_ws(#[trigger] s[j]),
    ensures
        trim_start(s) == trim_start(s.subrange(i, s.len() as int)),
    decreases i,
{
    if i > 0 {
        assert(s.subrange(1, s.len() as int) == s.drop_first());
        lemma_trim_start_skip(s.drop_first(), i - 1);
        assert(s.drop_first().subrange(i - 1, s.drop_first().len() as int) == s.subrange(
            i,
            s.len() as int,
        ));
    } else {
        assert(s.subrange(0, s.len() as int) == s);
    }
}

proof fn lemma_trim_end_cut(s: Seq<char>, k: int)
    requires
        0 <= k <= s.len(),
        forall|j: int| k <= j < s.len() ==> is_ws(#[trigger] s[j]),
    ensures
        trim_end(s) == trim_end(s.subrange(0, k)),
    decreases s.len() - k,
{
    if k < s.len() {
        assert(s.subrange(0, s.len() - 1) == s.drop_last());
        lemma_trim_end_cut(s.drop_last(), k);
        assert(s.drop_last().subrange(0, k) == s.subrange(0, k));
    } else {
        assert(s.subrange(0, k) == s);
    }
}

/// The characters of `s` without white space at either end.
pub fn trim_chars(s: &[char]) -> (r: Vec<char>)
    ensures
        r@ == trim(s@),
{
    let n = s.len();
    let mut i: usize = 0;
    while i < n && is_whitespace(s[i])
        invariant
            i <= n,
            n == s@.len(),
            forall|j: int| 0 <= j < i ==> is_ws(#[trigger] s@[j]),
        decreases n - i,
    {
        i = i + 1;
    }
    proof {
        lemma_trim_start_skip(s@, i as int);
    }
    let ghost rest = s@.subrange(i as int, n as int);
    assert(trim_start(rest) == rest);
    let mut k: usize = n;
    while k > i && is_whitespace(s[k - 1])
        invariant
            i <= k <= n,
            n == s@.len(),
            forall|j: int| k <= j < n ==> is_ws(#[trigger] s@[j]),
        decreases k,
    {
        k = k - 1;
    }
    proof {
        lemma_trim_end_cut(rest, k - i);
        assert(rest.subrange(0, k - i) == s@.subrange(i as int, k as int));
    }
    let mut r: Vec<char> = Vec::new();
    let mut p: usize = i;
    while p < k
        invariant
            i <= p <= k,
            k <= n,
            n == s@.len(),
            r@ == s@.subrange(i as int, p as int),
        decreases k - p,
    {
        r.push(s[p]);
        assert(s@.subrange(i as int, p + 1) == s@.subrange(i as int, p as int).push(s@[p as int]));
        p = p + 1;
    }
    r
}

/// The characters of a string slice without white space at either end.
pub fn trim_str(s: &str) -> (r: Vec<char>)
    ensures
        r@ == trim(s@),
{
    let v = chars_of(s);
    trim_chars(v.as_slice())
}

/// Whether `t` occurs in `s` starting at position `i`.
pub open spec fn occurs_at(s: Seq<char>, t: Seq<char>, i: int) -> bool {
    0 <= i && i + t.len() <= s.len() && s.subrange(i, i + t.len()) == t
}

/// Whether `t` is a substring of `s` (`str::contains`).
pub open spec fn contains_seq(s: Seq<char>, t: Seq<char>) -> bool {
    exists|i: int| occurs_at(s, t, i)
}

/// Whether `t` occurs in `s` at position `i`.
pub fn matches_at(s: &[char], t: &[char], i: usize) -> (b: bool)
    ensures
        b == occurs_at(s@, t@, i as int),
{
    if i > s.len() || t.len() > s.len() - i {
        return false;
    }
    let mut j: usize = 0;
    while j < t.len()
        invariant
            i + t.len() <= s.len(),
            j <= t.len(),
            forall|m: int| 0 <= m < j ==> s@[i + m] == t@[m],
        decreases t.len() - j,
    {
        if s[i + j] != t[j] {
            assert(s@.subrange(i as int, i + t.len())[j as int] != t@[j as int]);
            return false;
        }
        j = j + 1;
    }
    assert(s@.subrange(i as int, i + t.len()) == t@);
    true
}

/// Whether `t` is a substring of `s`.
pub fn contains_chars(s: &[char], t: &[char]) -> (b: bool)
    ensures
        b == contains_seq(s@, t@),
{
    let mut i: usize = 0;
    loop
        invariant
            i <= s.len(),
            forall|m: int| 0 <= m < i ==> !occurs_at(s@, t@, m),
        ensures
            i == s.len(),
            forall|m: int| 0 <= m <= i ==> !occurs_at(s@, t@, m),
        decreases s.len() - i,
    {
        if matches_at(s, t, i) {
            return true;
        }
        if i == s.len() {
            break;
        }
        i = i + 1;
    }
    assert forall|m: int| !occurs_at(s@, t@, m) by {
        if 0 <= m <= i {
        } else {
        }
    }
    false
}

/// `s` with every non-overlapping occurrence of `pat`, scanning from the
/// left, replaced by `rep` (`str::replace`). An empty pattern matches
/// before every character and at the end.
pub open spec fn replace_all(s: Seq<char>, pat: Seq<char>, rep: Seq<char>) -> Seq<char>
    decreases s.len(),
{
    if pat.len() == 0 {
        if s.len() == 0 {
            rep
        } else {
            rep + seq![s[0]] + replace_all(s.drop_first(), pat, rep)
        }
    } else if s.len() < pat.len() {
        s
    } else if s.subrange(0, pat.len() as int) == pat {
        rep + replace_all(s.subrange(pat.len() as int, s.len() as int), pat, rep)
    } else {
        seq![s[0]] + replace_all(s.drop_first(), pat, rep)
    }
}

/// Replaces every occurrence of `pat` in `s` by `rep`.
pub fn replace_chars(s: &[char], pat: &[char], rep: &[char]) -> (r: Vec<char>)
    ensures
        r@ == replace_all(s@, pat@, rep@),
{
    let mut out: Vec<char> = Vec::new();
    let mut i: usize = 0;
    assert(s@.subrange(0, s@.len() as int) == s@);
    while i < s.len()
        invariant
            i <= s.len(),
            out@ + replace_all(s@.subrange(i as int, s@.len() as int), pat@, rep@) == replace_all(
                s@,
                pat@,
                rep@,
            ),
        decreases s.len() - i,
    {
        let ghost rest = s@.subrange(i as int, s@.len() as int);
        let ghost before = out@;
        assert(rest.drop_first() == s@.subrange(i + 1, s@.len() as int));
        if pat.len() == 0 {
            extend_chars(&mut out, rep);
            out.push(s[i]);
            assert(out@ == before + rep@ + seq![s@[i as int]]);
            assert(replace_all(rest, pat@, rep@) == rep@ + seq![rest[0]] + replace_all(
                rest.drop_first(),
                pat@,
                rep@,
            ));
            assert(out@ + replace_all(rest.drop_first(), pat@, rep@) == before + replace_all(
                rest,
                pat@,
                rep@,
            ));
            i = i + 1;
        } else if matches_at(s, pat, i) {
            assert(rest.subrange(0, pat@.len() as int) == s@.subrange(i as int, i + pat@.len()));
            let ghost after = rest.subrange(pat@.len() as int, rest.len() as int);
            assert(after == s@.subrange(i + pat@.len(), s@.len() as int));
            assert(replace_all(rest, pat@, rep@) == rep@ + replace_all(after, pat@, rep@));
            extend_chars(&mut out, rep);
            assert(out@ + replace_all(after, pat@, rep@) == before + replace_all(rest, pat@, rep@));
            i = i + pat.len();
        } else {
            proof {
                if rest.len() >= pat@.len() {
                    assert(rest.subrange(0, pat@.len() as int) == s@.subrange(
                        i as int,
                        i + pat@.len(),
                    ));
                    assert(replace_all(rest, pat@, rep@) == seq![rest[0]] + replace_all(
                        rest.drop_first(),
                        pat@,
                        rep@,
                    ));
                } else {
                    assert(replace_all(rest, pat@, rep@) == rest);
                    assert(replace_all(rest.drop_first(), pat@, rep@) == rest.drop_first());
                    assert(rest == seq![rest[0]] + rest.drop_first());
                }
            }
            out.push(s[i]);
            assert(out@ + replace_all(rest.drop_first(), pat@, rep@) == before + replace_all(
                rest,
                pat@,
                rep@,
            ));
            i = i + 1;
        }
    }
    let ghost last = s@.subrange(i as int, s@.len() as int);
    assert(last.len() == 0);
    if pat.len() == 0 {
        assert(replace_all(last, pat@, rep@) == rep@);
        extend_chars(&mut out, rep);
    } else {
        assert(replace_all(last, pat@, rep@) == last);
        assert(out@ + last == out@);
    }
    out
}

/// The decimal digit character for `d < 10`.
pub open spec fn digit_char(d: nat) -> char {
    if d == 0 { '0' }
    else if d == 1 { '1' }
    else if d == 2 { '2' }
    else if d == 3 { '3' }
    else if d == 4 { '4' }
    else if d == 5 { '5' }
    else if d == 6 { '6' }
    else if d == 7 { '7' }
    else if d == 8 { '8' }
    else { '9' }
}

/// Decimal representation of a natural number, as `Display` writes it.
pub open spec fn dec(n: nat) -> Seq<char>
    decreases n,
{
    if n < 10 {
        seq![digit_char(n)]
    } else {
        dec(n / 10).push(digit_char(n % 10))
    }
}

/// Decimal representation of an integer, with a leading `-` when negative.
pub open spec fn dec_int(n: int) -> Seq<char> {
    if n < 0 {
        seq!['-'] + dec((-n) as nat)
    } else {
        dec(n as nat)
    }
}

fn digit(d: u128) -> (c: char)
    requires
        d < 10,
    ensures
        c == digit_char(d as nat),
{
    if d == 0 { '0' }
    else if d == 1 { '1' }
    else if d == 2 { '2' }
    else if d == 3 { '3' }
    else if d == 4 { '4' }
    else if d == 5 { '5' }
    else if d == 6 { '6' }
    else if d == 7 { '7' }
    else if d == 8 { '8' }
    else { '9' }
}

/// Appends the decimal representation of `n`.
pub fn push_dec(out: &mut Vec<char>, n: u128)
    ensures
        final(out)@ == old(out)@ + dec(n as nat),
    decreases n,
{
    if n < 10 {
        out.push(digit(n));
    } else {
        push_dec(out, n / 10);
        out.push(digit(n % 10));
    }
}

/// Appends the decimal representation of a signed integer.
pub fn push_dec_i64(out: &mut Vec<char>, n: i64)
    ensures
        final(out)@ == old(out)@ + dec_int(n as int),
{
    if n < 0 {
        out.push('-');
        let m: u128 = (0i128 - (n as i128)) as u128;
        push_dec(out, m);
    } else {
        push_dec(out, n as u128);
    }
}

/// Position of the first `c` in `s`, or `None`.
pub open spec fn find_first(s: Seq<char>, c: char) -> Option<int> {
    if exists|i: int| 0 <= i < s.len() && s[i] == c {
        Some(choose|i: int| 0 <= i < s.len() && s[i] == c && forall|j: int| 0 <= j < i ==> s[j] != c)
    } else {
        None
    }
}

/// Position of the first `c` in `s`.
pub fn find_char(s: &[char], c: char) -> (r: Option<usize>)
    ensures
        r is Some ==> r->0 < s@.len(),
        r matches Some(i) ==> i < s@.len() && s@[i as int] == c && forall|j: int|
            0 <= j < i ==> s@[j] != c,
        r is None ==> forall|j: int| 0 <= j < s@.len() ==> s@[j] != c,
        r matches Some(i) ==> find_first(s@, c) == Some(i as int),
        r is None ==> find_first(s@, c) is None,
{
    let mut i: usize = 0;
    while i < s.len()
        invariant
            i <= s.len(),
            forall|j: int| 0 <= j < i ==> s@[j] != c,
        decreases s.len() - i,
    {
        if s[i] == c {
            proof {
                let k = choose|k: int| 0 <= k < s@.len() && s@[k] == c && forall|j: int|
                    0 <= j < k ==> s@[j] != c;
                assert(0 <= i < s@.len() && s@[i as int] == c && forall|j: int|
                    0 <= j < i ==> s@[j] != c);
                if k < i {
                } else if k > i {
                    assert(s@[i as int] != c);
                }
            }
            return Some(i);
        }
        i = i + 1;
    }
    None
}

/// Pieces of `s` separated by `c` (`str::split`).
pub open spec fn split_seq(s: Seq<char>, c: char) -> Seq<Seq<char>>
    decreases s.len(),
{
    match find_first(s, c) {
        Some(k) => if 0 <= k < s.len() {
            seq![s.subrange(0, k)] + split_seq(s.subrange(k + 1, s.len() as int), c)
        } else {
            seq![s]
        },
        None => seq![s],
    }
}

/// At most `n` pieces of `s` separated by `c`; the last piece keeps the
/// remaining separators (`str::splitn`).
pub open spec fn splitn_seq(s: Seq<char>, n: nat, c: char) -> Seq<Seq<char>>
    decreases n,
{
    if n == 0 {
        seq![]
    } else if n == 1 {
        seq![s]
    } else {
        match find_first(s, c) {
            Some(k) => if 0 <= k < s.len() {
                seq![s.subrange(0, k)] + splitn_seq(s.subrange(k + 1, s.len() as int), (n - 1) as nat, c)
            } else {
                seq![s]
            },
            None => seq![s],
        }
    }
}

/// The views of a vector of character vectors.
pub open spec fn views(v: Seq<Vec<char>>) -> Seq<Seq<char>> {
    v.map_values(|x: Vec<char>| x@)
}

fn slice_range(s: &[char], lo: usize, hi: usize) -> (r: Vec<char>)
    requires
        lo <= hi <= s@.len(),
    ensures
        r@ == s@.subrange(lo as int, hi as int),
{
    let mut r: Vec<char> = Vec::new();
    let mut p = lo;
    while p < hi
        invariant
            lo <= p <= hi,
            hi <= s@.len(),
            r@ == s@.subrange(lo as int, p as int),
        decreases hi - p,
    {
        r.push(s[p]);
        assert(s@.subrange(lo as int, p + 1) == s@.subrange(lo as int, p as int).push(s@[p as int]));
        p = p + 1;
    }
    r
}

/// The characters of `s` from `lo` to `hi`.
pub fn sub_chars(s: &[char], lo: usize, hi: usize) -> (r: Vec<char>)
    requires
        lo <= hi <= s@.len(),
    ensures
        r@ == s@.subrange(lo as int, hi as int),
{
    slice_range(s, lo, hi)
}

/// `head` followed by the pieces of `rest`.
fn prepend(head: Vec<char>, rest: &Vec<Vec<char>>) -> (r: Vec<Vec<char>>)
    ensures
        views(r@) == seq![head@] + views(rest@),
{
    let mut r: Vec<Vec<char>> = Vec::new();
    let ghost h = head@;
    r.push(head);
    let mut j: usize = 0;
    while j < rest.len()
        invariant
            j <= rest@.len(),
            views(r@) == seq![h] + views(rest@).take(j as int),
        decreases rest@.len() - j,
    {
        let ghost old_r = r@;
        let piece = slice_range(rest[j].as_slice(), 0, rest[j].len());
        assert(rest@[j as int]@.subrange(0, rest@[j as int]@.len() as int) == rest@[j as int]@);
        r.push(piece);
        assert(views(r@) == views(old_r).push(rest@[j as int]@));
        assert(views(rest@).take(j + 1) == views(rest@).take(j as int).push(rest@[j as int]@));
        j = j + 1;
    }
    assert(views(rest@).take(rest@.len() as int) == views(rest@));
    r
}

/// Splits `s` at every `c`.
pub fn split_chars(s: &[char], c: char) -> (r: Vec<Vec<char>>)
    ensures
        views(r@) == split_seq(s@, c),
    decreases s@.len(),
{
    match find_char(s, c) {
        Some(k) => {
            assert(k < s.len());
            let head = slice_range(s, 0, k);
            let tail = slice_range(s, k + 1, s.len());
            let rest = split_chars(tail.as_slice(), c);
            prepend(head, &rest)
        },
        None => {
            let mut r: Vec<Vec<char>> = Vec::new();
            r.push(slice_range(s, 0, s.len()));
            assert(s@.subrange(0, s@.len() as int) == s@);
            assert(views(r@) == seq![s@]);
            r
        },
    }
}

/// Splits `s` at the first `n - 1` occurrences of `c`.
pub fn splitn_chars(s: &[char], n: usize, c: char) -> (r: Vec<Vec<char>>)
    ensures
        views(r@) == splitn_seq(s@, n as nat, c),
    decreases n,
{
    if n == 0 {
        let r: Vec<Vec<char>> = Vec::new();
        assert(views(r@) == Seq::<Seq<char>>::empty());
        return r;
    }
    if n == 1 {
        let mut r: Vec<Vec<char>> = Vec::new();
        r.push(slice_range(s, 0, s.len()));
        assert(s@.subrange(0, s@.len() as int) == s@);
        assert(views(r@) == seq![s@]);
        return r;
    }
    match find_char(s, c) {
        Some(k) => {
            assert(k < s.len());
            let head = slice_range(s, 0, k);
            let tail = slice_range(s, k + 1, s.len());
            let rest = splitn_chars(tail.as_slice(), n - 1, c);
            prepend(head, &rest)
        },
        None => {
            let mut r: Vec<Vec<char>> = Vec::new();
            r.push(slice_range(s, 0, s.len()));
            assert(s@.subrange(0, s@.len() as int) == s@);
            assert(views(r@) == seq![s@]);
            r
        },
    }
}

/// Whether two character slices are equal.
pub fn chars_eq(a: &[char], b: &[char]) -> (r: bool)
    ensures
        r == (a@ == b@),
{
    if a.len() != b.len() {
        return false;
    }
    let mut i: usize = 0;
    while i < a.len()
        invariant
            a@.len() == b@.len(),
            i <= a@.len(),
            forall|j: int| 0 <= j < i ==> a@[j] == b@[j],
        decreases a@.len() - i,
    {
        if a[i] != b[i] {
            assert(a@[i as int] != b@[i as int]);
            return false;
        }
        i = i + 1;
    }
    assert(a@ == b@);
    true
}

/// Whether a string slice holds exactly the characters `b`.
pub fn str_is(a: &str, b: &[char]) -> (r: bool)
    ensures
        r == (a@ == b@),
{
    let av = chars_of(a);
    chars_eq(av.as_slice(), b)
}

/// Whether `a` sorts strictly before `b` (lexicographic order of code
/// points, which is the byte order of their UTF-8 forms).
pub open spec fn lex_lt(a: Seq<char>, b: Seq<char>) -> bool
    decreases a.len(),
{
    if b.len() == 0 {
        false
    } else if a.len() == 0 {
        true
    } else if a[0] != b[0] {
        a[0] < b[0]
    } else {
        lex_lt(a.drop_first(), b.drop_first())
    }
}

/// Whether `a` sorts strictly before `b`.
pub fn text_lt(a: &[char], b: &[char]) -> (r: bool)
    ensures
        r == lex_lt(a@, b@),
{
    let mut i: usize = 0;
    assert(a@.skip(0) == a@ && b@.skip(0) == b@);
    while i < a.len() && i < b.len() && a[i] == b[i]
        invariant
            i <= a@.len(),
            i <= b@.len(),
            lex_lt(a@, b@) == lex_lt(a@.skip(i as int), b@.skip(i as int)),
        decreases a@.len() - i,
    {
        assert(a@.skip(i as int).drop_first() == a@.skip(i + 1));
        assert(b@.skip(i as int).drop_first() == b@.skip(i + 1));
        i = i + 1;
    }
    if i == b.len() {
        false
    } else if i == a.len() {
        true
    } else {
        a[i] < b[i]
    }
}

/// `lex_lt` never holds both ways.
pub proof fn lex_lt_asymmetric(a: Seq<char>, b: Seq<char>)
    ensures
        !(lex_lt(a, b) && lex_lt(b, a)),
    decreases a.len(),
{
    if a.len() > 0 && b.len() > 0 && a[0] == b[0] {
        lex_lt_asymmetric(a.drop_first(), b.drop_first());
    }
}

/// Two different texts are ordered one way or the other.
pub proof fn lex_lt_total(a: Seq<char>, b: Seq<char>)
    ensures
        a == b || lex_lt(a, b) || lex_lt(b, a),
    decreases a.len(),
{
    if a.len() > 0 && b.len() > 0 && a[0] == b[0] {
        lex_lt_total(a.drop_first(), b.drop_first());
        if a.drop_first() == b.drop_first() {
            assert(a == seq![a[0]] + a.drop_first());
            assert(b == seq![b[0]] + b.drop_first());
        }
    } else if a.len() == 0 && b.len() == 0 {
        assert(a =~= b);
    }
}

/// `lex_lt` is transitive.
pub proof fn lex_lt_transitive(a: Seq<char>, b: Seq<char>, c: Seq<char>)
    requires
        lex_lt(a, b),
        lex_lt(b, c),
    ensures
        lex_lt(a, c),
    decreases a.len(),
{
    if a.len() > 0 && b.len() > 0 && c.len() > 0 && a[0] == b[0] && b[0] == c[0] {
        lex_lt_transitive(a.drop_first(), b.drop_first(), c.drop_first());
    }
}

/// Below `b` and not above `c` means below `c`.
pub proof fn lex_lt_le(a: Seq<char>, b: Seq<char>, c: Seq<char>)
    requires
        lex_lt(a, b),
        !lex_lt(c, b),
    ensures
        lex_lt(a, c),
{
    lex_lt_total(b, c);
    if b != c {
        lex_lt_transitive(a, b, c);
    }
}

/// `find_first` finds the first occurrence.
pub proof fn find_first_at(s: Seq<char>, c: char, k: int)
    requires
        0 <= k < s.len(),
        s[k] == c,
        forall|j: int| 0 <= j < k ==> s[j] != c,
    ensures
        find_first(s, c) == Some(k),
{
    assert(0 <= k < s.len() && s[k] == c);
    let i = choose|i: int| 0 <= i < s.len() && s[i] == c && forall|j: int| 0 <= j < i ==> s[j] != c;
    assert(0 <= k < s.len() && s[k] == c && forall|j: int| 0 <= j < k ==> s[j] != c);
    if i < k {
        assert(s[i] != c);
    } else if i > k {
        assert(s[k] != c);
    }
}

/// `find_first` finds nothing in a text without `c`.
pub proof fn find_first_absent(s: Seq<char>, c: char)
    requires
        !s.contains(c),
    ensures
        find_first(s, c) is None,
{
    if exists|i: int| 0 <= i < s.len() && s[i] == c {
        let i = choose|i: int| 0 <= i < s.len() && s[i] == c;
        assert(s.contains(c));
    }
}

/// Splitting at the first `c` of `a + [c] + b`, when `a` holds none.
pub proof fn split_after_first(a: Seq<char>, c: char, b: Seq<char>)
    requires
        !a.contains(c),
    ensures
        split_seq(a + seq![c] + b, c) == seq![a] + split_seq(b, c),
        forall|n: nat| n >= 2 ==> #[trigger] splitn_seq(a + seq![c] + b, n, c) == seq![a] + splitn_seq(b, (n - 1) as nat, c),
{
    let s = a + seq![c] + b;
    assert forall|j: int| 0 <= j < a.len() implies s[j] != c by {
        assert(s[j] == a[j]);
        if a[j] == c {
            assert(a.contains(c));
        }
    }
    find_first_at(s, c, a.len() as int);
    assert(s.subrange(0, a.len() as int) == a);
    assert(s.subrange((a.len() + 1) as int, s.len() as int) == b);
}

/// A text without `c` splits into itself.
pub proof fn split_whole(a: Seq<char>, c: char)
    requires
        !a.contains(c),
    ensures
        split_seq(a, c) == seq![a],
        forall|n: nat| n >= 1 ==> #[trigger] splitn_seq(a, n, c) == seq![a],
{
    find_first_absent(a, c);
}

/// A text that starts and ends with non-white-space is its own trim.
pub proof fn trim_unchanged(s: Seq<char>)
    requires
        s.len() > 0,
        !is_ws(s[0]),
        !is_ws(s.last()),
    ensures
        trim(s) == s,
{
}

} // verus!
