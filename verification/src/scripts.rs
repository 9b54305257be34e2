//! Managed scripts: which file names may be used, and how sizes are shown.
use vstd::prelude::*;
use vstd::string::StringSliceAdditionalSpecFns;

use crate::text::{contains_chars, contains_seq, dec, extend_str, lex_lt, push_dec, string_of, text_lt};

verus! {

/// Whether a byte may appear in a script file name: an ASCII letter or
/// digit, `.`, `-` or `_`.
pub open spec fn filename_byte_ok(b: u8) -> bool {
    (48 <= b && b <= 57) || (65 <= b && b <= 90) || (97 <= b && b <= 122) || b == 46 || b == 45 || b == 95
}

/// The verdict on a script file name.
pub open spec fn filename_verdict(name: Seq<char>, bytes: Seq<u8>) -> Result<(), Seq<char>> {
    if bytes.len() == 0 {
        Err("Filename cannot be empty"@)
    } else if bytes[0] == 46 {
        Err("Filename cannot start with a dot"@)
    } else if !(forall|i: int| 0 <= i < bytes.len() ==> filename_byte_ok(#[trigger] bytes[i])) {
        Err("Filename may only contain letters, numbers, hyphens, underscores, and dots"@)
    } else if contains_seq(name, seq!['.', '.']) {
        Err("Filename cannot contain '..'"@)
    } else {
        Ok(())
    }
}

/// `dir` joined with a relative file name, as `Path::join` does.
pub open spec fn joined_path(dir: Seq<char>, name: Seq<char>) -> Seq<char> {
    if dir.len() == 0 || dir.last() == '/' {
        dir + name
    } else {
        dir + seq!['/'] + name
    }
}

/// Validate a script filename and give its path in `scripts_dir`.
///
/// Allowed characters: `[a-zA-Z0-9._-]`. The filename must not start with
/// a dot (hidden files) and must not contain path separators or `..`.
/// Whether the path, once symbolic links are resolved, stays inside
/// `scripts_dir` is a question about the file system, answered by the
/// caller.
pub fn validate_filename(filename: &str, scripts_dir: &str) -> (r: Result<String, &'static str>)
    ensures
        match filename_verdict(filename@, filename.spec_bytes()) {
            Ok(()) => r matches Ok(p) && p@ == joined_path(scripts_dir@, filename@),
            Err(e) => r matches Err(m) && m@ == e,
        },
{
    let bytes = filename.as_bytes();
    let n = bytes.len();
    if n == 0 {
        return Err("Filename cannot be empty");
    }
    if bytes[0] == 46 {
        return Err("Filename cannot start with a dot");
    }
    let mut i: usize = 0;
    while i < n
        invariant
            n == bytes@.len(),
            n > 0,
            bytes@[0] != 46,
            bytes@ == filename.spec_bytes(),
            i <= n,
            forall|j: int| 0 <= j < i ==> filename_byte_ok(#[trigger] bytes@[j]),
        decreases n - i,
    {
        let b = bytes[i];
        if !((48 <= b && b <= 57) || (65 <= b && b <= 90) || (97 <= b && b <= 122) || b == 46 || b == 45 || b == 95) {
            assert(!filename_byte_ok(bytes@[i as int]));
            return Err("Filename may only contain letters, numbers, hyphens, underscores, and dots");
        }
        i = i + 1;
    }
    let fc = crate::text::chars_of(filename);
    let dots: Vec<char> = vec!['.', '.'];
    if contains_chars(fc.as_slice(), dots.as_slice()) {
        return Err("Filename cannot contain '..'");
    }
    let dc = crate::text::chars_of(scripts_dir);
    let mut m: Vec<char> = Vec::new();
    extend_str(&mut m, scripts_dir);
    if !(dc.len() == 0 || dc[dc.len() - 1] == '/') {
        m.push('/');
    }
    extend_str(&mut m, filename);
    Ok(string_of(m.as_slice()))
}

/// `n / d` rounded to the nearest integer, ties to the even one.
pub open spec fn round_half_even(n: nat, d: nat) -> nat
    recommends
        d > 0,
{
    let q = n / d;
    let r = n % d;
    if 2 * r > d || (2 * r == d && q % 2 == 1) {
        q + 1
    } else {
        q
    }
}

/// `t` tenths written with one decimal: `<t / 10>.<t % 10>`.
pub open spec fn tenths_text(t: nat) -> Seq<char> {
    dec(t / 10) + seq!['.'] + dec(t % 10)
}

/// The text `format_size` writes: bytes below one KiB, KiB with one
/// decimal below ten, whole KiB below one MiB, else MiB with one decimal;
/// the decimals rounded to the nearest, ties to even.
pub open spec fn size_text(bytes: nat) -> Seq<char> {
    if bytes < 1024 {
        dec(bytes) + " B"@
    } else if bytes < 1024 * 1024 {
        if bytes < 10240 {
            tenths_text(round_half_even(bytes * 10, 1024)) + " KB"@
        } else {
            dec(round_half_even(bytes, 1024)) + " KB"@
        }
    } else {
        tenths_text(round_half_even(bytes * 10, 1024 * 1024)) + " MB"@
    }
}

fn round_half_even_exec(n: u128, d: u128) -> (r: u128)
    requires
        0 < d <= 1048576,
        n <= u64::MAX * 10,
    ensures
        r == round_half_even(n as nat, d as nat),
{
    let q = n / d;
    let rem = n % d;
    if 2 * rem > d || (2 * rem == d && q % 2 == 1) {
        q + 1
    } else {
        q
    }
}

fn push_tenths(out: &mut Vec<char>, t: u128)
    ensures
        final(out)@ == old(out)@ + tenths_text(t as nat),
{
    push_dec(out, t / 10);
    out.push('.');
    push_dec(out, t % 10);
}

/// Format byte count into a human-readable string (B, KB, MB).
///
/// The sizes are computed exactly; they are what floating-point division
/// gives for every count a `f64` holds exactly (below 2^53).
pub fn format_size(bytes: u64) -> (s: String)
    ensures
        s@ == size_text(bytes as nat),
{
    let b = bytes as u128;
    let mut m: Vec<char> = Vec::new();
    if b < 1024 {
        push_dec(&mut m, b);
        extend_str(&mut m, " B");
    } else if b < 1024 * 1024 {
        if b < 10240 {
            push_tenths(&mut m, round_half_even_exec(b * 10, 1024));
        } else {
            push_dec(&mut m, round_half_even_exec(b, 1024));
        }
        extend_str(&mut m, " KB");
    } else {
        push_tenths(&mut m, round_half_even_exec(b * 10, 1024 * 1024));
        extend_str(&mut m, " MB");
    }
    string_of(m.as_slice())
}


/// A script file as the scripts page lists it.
#[derive(Debug)]
pub struct ScriptEntry {
    pub name: String,
    /// Human-readable size ([`format_size`]).
    pub size: String,
    /// Last modification time, `%Y-%m-%d %H:%M` in UTC.
    pub modified: String,
}

/// `s`, in name order, with `x` placed after every entry whose name does
/// not sort after its own.
pub open spec fn insert_by_name(s: Seq<ScriptEntry>, x: ScriptEntry) -> Seq<ScriptEntry>
    decreases s.len(),
{
    if s.len() == 0 {
        seq![x]
    } else if lex_lt(x.name@, s.last().name@) {
        insert_by_name(s.drop_last(), x).push(s.last())
    } else {
        s.push(x)
    }
}

/// The entries sorted by name (`sort_by` on the name; equal names keep
/// their order).
pub open spec fn by_name(s: Seq<ScriptEntry>) -> Seq<ScriptEntry>
    decreases s.len(),
{
    if s.len() == 0 {
        seq![]
    } else {
        insert_by_name(by_name(s.drop_last()), s.last())
    }
}

proof fn lemma_insert_by_name_at(s: Seq<ScriptEntry>, x: ScriptEntry, p: int)
    requires
        0 <= p <= s.len(),
        forall|k: int| p <= k < s.len() ==> lex_lt(x.name@, (#[trigger] s[k]).name@),
        p > 0 ==> !lex_lt(x.name@, s[p - 1].name@),
    ensures
        insert_by_name(s, x) == s.insert(p, x),
    decreases s.len(),
{
    if s.len() == 0 {
        assert(s.insert(p, x) =~= seq![x]);
    } else if p == s.len() {
        assert(s.insert(p, x) =~= s.push(x));
    } else {
        assert(lex_lt(x.name@, s[s.len() - 1].name@));
        let t = s.drop_last();
        assert forall|k: int| p <= k < t.len() implies lex_lt(x.name@, (#[trigger] t[k]).name@) by {
            assert(t[k] == s[k]);
        }
        lemma_insert_by_name_at(t, x, p);
        assert(t.insert(p, x).push(s.last()) =~= s.insert(p, x));
    }
}

/// The entries sorted by name, as the scripts page shows them.
pub fn sort_by_name(entries: Vec<ScriptEntry>) -> (r: Vec<ScriptEntry>)
    ensures
        r@ == by_name(entries@),
{
    let mut rest = entries;
    let ghost all = rest@;
    let mut out: Vec<ScriptEntry> = Vec::new();
    let mut i: usize = 0;
    let n = rest.len();
    assert(all.skip(0) =~= all);
    while i < n
        invariant
            n == all.len(),
            i <= n,
            rest@ == all.skip(i as int),
            out@ == by_name(all.take(i as int)),
        decreases n - i,
    {
        let x = rest.remove(0);
        assert(x == all[i as int]);
        assert(all.skip(i as int).remove(0) =~= all.skip(i + 1));
        assert(all.take(i + 1).drop_last() =~= all.take(i as int));
        assert(all.take(i + 1).last() == all[i as int]);
        let xc = crate::text::chars_of(x.name.as_str());
        let mut p: usize = out.len();
        loop
            invariant
                p <= out@.len(),
                xc@ == x.name@,
                forall|k: int| p <= k < out@.len() ==> lex_lt(x.name@, (#[trigger] out@[k]).name@),
            ensures
                p <= out@.len(),
                forall|k: int| p <= k < out@.len() ==> lex_lt(x.name@, (#[trigger] out@[k]).name@),
                p > 0 ==> !lex_lt(x.name@, out@[p - 1].name@),
            decreases p,
        {
            if p == 0 {
                break;
            }
            let c = crate::text::chars_of(out[p - 1].name.as_str());
            if !text_lt(xc.as_slice(), c.as_slice()) {
                break;
            }
            p = p - 1;
        }
        proof {
            lemma_insert_by_name_at(out@, x, p as int);
        }
        out.insert(p, x);
        i = i + 1;
    }
    assert(all.take(n as int) =~= all);
    out
}

} // verus!
