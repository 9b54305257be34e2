//! Off-site backups: in what order listings show the stored backups, and
//! which of them a retention policy removes.
//!
//! Backups are ordered by their last-modified text, compared as strings
//! are (`String::cmp`, character by character), and sorts are stable.
use vstd::prelude::*;

pub mod schedule;
pub mod store;

pub use self::store::{BackupEntry, S3Client};

use crate::text::{chars_of, lex_lt, lex_lt_asymmetric, lex_lt_le, lex_lt_total, lex_lt_transitive, text_lt};

verus! {

/// The text an entry is ordered by.
pub open spec fn stamp(e: BackupEntry) -> Seq<char> {
    e.last_modified@
}

/// `s`, ordered oldest first, with `x` placed after every entry that is
/// not newer than it.
pub open spec fn insert_oldest_first(s: Seq<BackupEntry>, x: BackupEntry) -> Seq<BackupEntry>
    decreases s.len(),
{
    if s.len() == 0 {
        seq![x]
    } else if lex_lt(stamp(x), stamp(s.last())) {
        insert_oldest_first(s.drop_last(), x).push(s.last())
    } else {
        s.push(x)
    }
}

/// `s`, ordered newest first, with `x` placed after every entry that is
/// not older than it.
pub open spec fn insert_newest_first(s: Seq<BackupEntry>, x: BackupEntry) -> Seq<BackupEntry>
    decreases s.len(),
{
    if s.len() == 0 {
        seq![x]
    } else if lex_lt(stamp(s.last()), stamp(x)) {
        insert_newest_first(s.drop_last(), x).push(s.last())
    } else {
        s.push(x)
    }
}

/// The entries sorted oldest first; entries with the same time keep their
/// order (`sort_by` on `last_modified`).
pub open spec fn oldest_first(s: Seq<BackupEntry>) -> Seq<BackupEntry>
    decreases s.len(),
{
    if s.len() == 0 {
        seq![]
    } else {
        insert_oldest_first(oldest_first(s.drop_last()), s.last())
    }
}

/// The entries sorted newest first; entries with the same time keep their
/// order.
pub open spec fn newest_first(s: Seq<BackupEntry>) -> Seq<BackupEntry>
    decreases s.len(),
{
    if s.len() == 0 {
        seq![]
    } else {
        insert_newest_first(newest_first(s.drop_last()), s.last())
    }
}

proof fn lemma_insert_oldest_at(s: Seq<BackupEntry>, x: BackupEntry, p: int)
    requires
        0 <= p <= s.len(),
        forall|k: int| p <= k < s.len() ==> lex_lt(stamp(x), #[trigger] stamp(s[k])),
        p > 0 ==> !lex_lt(stamp(x), stamp(s[p - 1])),
    ensures
        insert_oldest_first(s, x) == s.insert(p, x),
    decreases s.len(),
{
    if s.len() == 0 {
        assert(s.insert(p, x) =~= seq![x]);
    } else if p == s.len() {
        assert(s.insert(p, x) =~= s.push(x));
    } else {
        assert(lex_lt(stamp(x), stamp(s[s.len() - 1])));
        let t = s.drop_last();
        assert forall|k: int| p <= k < t.len() implies lex_lt(stamp(x), #[trigger] stamp(t[k])) by {
            assert(t[k] == s[k]);
        }
        lemma_insert_oldest_at(t, x, p);
        assert(t.insert(p, x).push(s.last()) =~= s.insert(p, x));
    }
}

proof fn lemma_insert_newest_at(s: Seq<BackupEntry>, x: BackupEntry, p: int)
    requires
        0 <= p <= s.len(),
        forall|k: int| p <= k < s.len() ==> lex_lt(#[trigger] stamp(s[k]), stamp(x)),
        p > 0 ==> !lex_lt(stamp(s[p - 1]), stamp(x)),
    ensures
        insert_newest_first(s, x) == s.insert(p, x),
    decreases s.len(),
{
    if s.len() == 0 {
        assert(s.insert(p, x) =~= seq![x]);
    } else if p == s.len() {
        assert(s.insert(p, x) =~= s.push(x));
    } else {
        assert(lex_lt(stamp(s[s.len() - 1]), stamp(x)));
        let t = s.drop_last();
        assert forall|k: int| p <= k < t.len() implies lex_lt(#[trigger] stamp(t[k]), stamp(x)) by {
            assert(t[k] == s[k]);
        }
        lemma_insert_newest_at(t, x, p);
        assert(t.insert(p, x).push(s.last()) =~= s.insert(p, x));
    }
}

fn copy_entry(e: &BackupEntry) -> (r: BackupEntry)
    ensures
        r == *e,
{
    BackupEntry { key: e.key.clone(), size: e.size, last_modified: e.last_modified.clone() }
}

fn insert_by_time(out: &mut Vec<BackupEntry>, x: BackupEntry, newest: bool)
    ensures
        newest ==> final(out)@ == insert_newest_first(old(out)@, x),
        !newest ==> final(out)@ == insert_oldest_first(old(out)@, x),
{
    let xc = chars_of(x.last_modified.as_str());
    let mut p: usize = out.len();
    loop
        invariant
            p <= out@.len(),
            xc@ == stamp(x),
            !newest ==> forall|k: int| p <= k < out@.len() ==> lex_lt(stamp(x), #[trigger] stamp(out@[k])),
            newest ==> forall|k: int| p <= k < out@.len() ==> lex_lt(#[trigger] stamp(out@[k]), stamp(x)),
        ensures
            p <= out@.len(),
            !newest ==> forall|k: int| p <= k < out@.len() ==> lex_lt(stamp(x), #[trigger] stamp(out@[k])),
            newest ==> forall|k: int| p <= k < out@.len() ==> lex_lt(#[trigger] stamp(out@[k]), stamp(x)),
            !newest && p > 0 ==> !lex_lt(stamp(x), stamp(out@[p - 1])),
            newest && p > 0 ==> !lex_lt(stamp(out@[p - 1]), stamp(x)),
        decreases p,
    {
        if p == 0 {
            break;
        }
        let c = chars_of(out[p - 1].last_modified.as_str());
        let later = if newest {
            text_lt(c.as_slice(), xc.as_slice())
        } else {
            text_lt(xc.as_slice(), c.as_slice())
        };
        if !later {
            break;
        }
        p = p - 1;
    }
    proof {
        if newest {
            lemma_insert_newest_at(out@, x, p as int);
        } else {
            lemma_insert_oldest_at(out@, x, p as int);
        }
    }
    out.insert(p, x);
}

fn sort_by_time(entries: &[BackupEntry], newest: bool) -> (r: Vec<BackupEntry>)
    ensures
        newest ==> r@ == newest_first(entries@),
        !newest ==> r@ == oldest_first(entries@),
{
    let mut out: Vec<BackupEntry> = Vec::new();
    let mut i: usize = 0;
    while i < entries.len()
        invariant
            i <= entries@.len(),
            newest ==> out@ == newest_first(entries@.take(i as int)),
            !newest ==> out@ == oldest_first(entries@.take(i as int)),
        decreases entries@.len() - i,
    {
        assert(entries@.take(i + 1).drop_last() =~= entries@.take(i as int));
        assert(entries@.take(i + 1).last() == entries@[i as int]);
        let e = copy_entry(&entries[i]);
        insert_by_time(&mut out, e, newest);
        i = i + 1;
    }
    assert(entries@.take(entries@.len() as int) =~= entries@);
    out
}

/// The entries sorted oldest first.
pub fn sort_oldest_first(entries: &[BackupEntry]) -> (r: Vec<BackupEntry>)
    ensures
        r@ == oldest_first(entries@),
{
    sort_by_time(entries, false)
}

/// Available backups as a listing shows them: newest first.
pub fn sort_newest_first(entries: &[BackupEntry]) -> (r: Vec<BackupEntry>)
    ensures
        r@ == newest_first(entries@),
{
    sort_by_time(entries, true)
}


/// How many of `n` backups exceed a maximum count: those beyond the newest
/// `max_count`.
pub open spec fn excess_count(n: nat, max_count: Option<u32>) -> nat {
    match max_count {
        Some(m) => if n > m { (n - m) as nat } else { 0 },
        None => 0,
    }
}

/// The keys of entries, in order.
pub open spec fn keys_of(s: Seq<BackupEntry>) -> Seq<Seq<char>> {
    s.map_values(|e: BackupEntry| e.key@)
}

/// `acc`, then the key of each entry of `s` in turn that was last modified
/// before `cutoff` and is not listed yet.
pub open spec fn older_keys(s: Seq<BackupEntry>, cutoff: Seq<char>, acc: Seq<Seq<char>>) -> Seq<Seq<char>>
    decreases s.len(),
{
    if s.len() == 0 {
        acc
    } else {
        let e = s[0];
        let next = if lex_lt(stamp(e), cutoff) && !acc.contains(e.key@) {
            acc.push(e.key@)
        } else {
            acc
        };
        older_keys(s.drop_first(), cutoff, next)
    }
}

/// The keys a retention policy deletes, in the order they are deleted.
/// With the entries sorted oldest first: the oldest ones beyond the newest
/// `max_count`, then each entry last modified before `cutoff` (the time
/// `max_age` ago, as RFC 3339 text) that is not listed yet.
pub open spec fn retention_keys(entries: Seq<BackupEntry>, max_count: Option<u32>, cutoff: Option<Seq<char>>) -> Seq<Seq<char>> {
    let sorted = oldest_first(entries);
    let by_count = keys_of(sorted.take(excess_count(sorted.len(), max_count) as int));
    match cutoff {
        Some(c) => older_keys(sorted, c, by_count),
        None => by_count,
    }
}

proof fn lemma_oldest_first_len(s: Seq<BackupEntry>)
    ensures
        oldest_first(s).len() == s.len(),
    decreases s.len(),
{
    if s.len() > 0 {
        lemma_oldest_first_len(s.drop_last());
        lemma_insert_oldest_len(oldest_first(s.drop_last()), s.last());
    }
}

proof fn lemma_insert_oldest_len(s: Seq<BackupEntry>, x: BackupEntry)
    ensures
        insert_oldest_first(s, x).len() == s.len() + 1,
    decreases s.len(),
{
    if s.len() > 0 && lex_lt(stamp(x), stamp(s.last())) {
        lemma_insert_oldest_len(s.drop_last(), x);
    }
}

fn contains_key(keys: &Vec<String>, key: &str) -> (r: bool)
    ensures
        r == keys@.map_values(|k: String| k@).contains(key@),
{
    let ghost ks = keys@.map_values(|k: String| k@);
    let mut i: usize = 0;
    while i < keys.len()
        invariant
            i <= keys@.len(),
            ks == keys@.map_values(|k: String| k@),
            forall|j: int| 0 <= j < i ==> ks[j] != key@,
        decreases keys@.len() - i,
    {
        if crate::models::same_text(keys[i].as_str(), key) {
            assert(ks[i as int] == key@);
            return true;
        }
        i = i + 1;
    }
    false
}

/// The keys a retention policy deletes from the listed `entries`: with
/// them sorted oldest first, the oldest beyond the newest `max_count`, then
/// each one last modified before `cutoff`, the time `max_age` before now as
/// RFC 3339 text (the caller reads the clock), that is not listed yet.
pub fn retention_deletions(entries: &[BackupEntry], max_count: Option<u32>, cutoff: Option<&str>) -> (r: Vec<String>)
    ensures
        r@.map_values(|k: String| k@) == retention_keys(
            entries@,
            max_count,
            match cutoff {
                Some(c) => Some(c@),
                None => None,
            },
        ),
{
    let sorted = sort_oldest_first(entries);
    proof {
        lemma_oldest_first_len(entries@);
    }
    let mut out: Vec<String> = Vec::new();
    let excess: usize = match max_count {
        Some(m) => if sorted.len() as u64 > m as u64 {
            sorted.len() - (m as usize)
        } else {
            0
        },
        None => 0,
    };
    assert(excess == excess_count(sorted@.len(), max_count));
    let mut i: usize = 0;
    while i < excess
        invariant
            i <= excess <= sorted@.len(),
            out@.map_values(|k: String| k@) == keys_of(sorted@.take(i as int)),
        decreases excess - i,
    {
        out.push(sorted[i].key.clone());
        assert(keys_of(sorted@.take(i + 1)) =~= keys_of(sorted@.take(i as int)).push(sorted@[i as int].key@));
        assert(out@.map_values(|k: String| k@) =~= keys_of(sorted@.take(i as int)).push(sorted@[i as int].key@));
        i = i + 1;
    }
    match cutoff {
        Some(c) => {
            let cc = chars_of(c);
            let ghost by_count = out@.map_values(|k: String| k@);
            let mut j: usize = 0;
            assert(sorted@.skip(0) =~= sorted@);
            while j < sorted.len()
                invariant
                    j <= sorted@.len(),
                    cc@ == c@,
                    older_keys(sorted@, c@, by_count) == older_keys(
                        sorted@.skip(j as int),
                        c@,
                        out@.map_values(|k: String| k@),
                    ),
                decreases sorted@.len() - j,
            {
                assert(sorted@.skip(j as int).drop_first() =~= sorted@.skip(j + 1));
                assert(sorted@.skip(j as int)[0] == sorted@[j as int]);
                let lm = chars_of(sorted[j].last_modified.as_str());
                if text_lt(lm.as_slice(), cc.as_slice()) && !contains_key(&out, sorted[j].key.as_str()) {
                    let ghost before = out@;
                    out.push(sorted[j].key.clone());
                    assert(out@.map_values(|k: String| k@) =~= before.map_values(|k: String| k@).push(
                        sorted@[j as int].key@,
                    ));
                }
                j = j + 1;
            }
            assert(sorted@.skip(sorted@.len() as int) =~= Seq::<BackupEntry>::empty());
        },
        None => {},
    }
    out
}


/// No entry of `s` is newer than one after it.
pub open spec fn ordered_oldest_first(s: Seq<BackupEntry>) -> bool {
    forall|i: int, j: int| 0 <= i < j < s.len() ==> !lex_lt(#[trigger] stamp(s[j]), #[trigger] stamp(s[i]))
}

/// No entry of `s` is older than one after it.
pub open spec fn ordered_newest_first(s: Seq<BackupEntry>) -> bool {
    forall|i: int, j: int| 0 <= i < j < s.len() ==> !lex_lt(#[trigger] stamp(s[i]), #[trigger] stamp(s[j]))
}

proof fn lemma_insert_oldest_keeps(s: Seq<BackupEntry>, x: BackupEntry)
    ensures
        insert_oldest_first(s, x).to_multiset() == s.to_multiset().insert(x),
    decreases s.len(),
{
    broadcast use vstd::seq_lib::to_multiset_build;
    if s.len() > 0 && lex_lt(stamp(x), stamp(s.last())) {
        lemma_insert_oldest_keeps(s.drop_last(), x);
        assert(s.drop_last().push(s.last()) =~= s);
        assert(s.to_multiset() =~= s.drop_last().to_multiset().insert(s.last()));
        assert(insert_oldest_first(s, x).to_multiset() =~= s.to_multiset().insert(x));
    } else if s.len() == 0 {
        assert(seq![x] =~= s.push(x));
    }
}

proof fn lemma_insert_newest_keeps(s: Seq<BackupEntry>, x: BackupEntry)
    ensures
        insert_newest_first(s, x).to_multiset() == s.to_multiset().insert(x),
    decreases s.len(),
{
    broadcast use vstd::seq_lib::to_multiset_build;
    if s.len() > 0 && lex_lt(stamp(s.last()), stamp(x)) {
        lemma_insert_newest_keeps(s.drop_last(), x);
        assert(s.drop_last().push(s.last()) =~= s);
        assert(s.to_multiset() =~= s.drop_last().to_multiset().insert(s.last()));
        assert(insert_newest_first(s, x).to_multiset() =~= s.to_multiset().insert(x));
    } else if s.len() == 0 {
        assert(seq![x] =~= s.push(x));
    }
}

/// Every entry of the insertion is not newer than `b` when that holds of
/// `x` and of every entry of `s`.
proof fn lemma_insert_oldest_bounded(s: Seq<BackupEntry>, x: BackupEntry, b: Seq<char>)
    requires
        forall|i: int| 0 <= i < s.len() ==> !lex_lt(b, #[trigger] stamp(s[i])),
        !lex_lt(b, stamp(x)),
    ensures
        forall|k: int| 0 <= k < insert_oldest_first(s, x).len() ==> !lex_lt(b, #[trigger] stamp(insert_oldest_first(s, x)[k])),
    decreases s.len(),
{
    if s.len() > 0 && lex_lt(stamp(x), stamp(s.last())) {
        let t = s.drop_last();
        assert forall|i: int| 0 <= i < t.len() implies !lex_lt(b, #[trigger] stamp(t[i])) by {
            assert(t[i] == s[i]);
        }
        lemma_insert_oldest_bounded(t, x, b);
        assert(!lex_lt(b, stamp(s[s.len() - 1])));
        let inner = insert_oldest_first(t, x);
        let r = inner.push(s.last());
        assert(insert_oldest_first(s, x) == r);
        assert forall|k: int| 0 <= k < r.len() implies !lex_lt(b, #[trigger] stamp(r[k])) by {
            if k < inner.len() {
                assert(r[k] == inner[k]);
            }
        }
    } else if s.len() == 0 {
        assert(insert_oldest_first(s, x) =~= seq![x]);
    } else {
        let r = s.push(x);
        assert forall|k: int| 0 <= k < r.len() implies !lex_lt(b, #[trigger] stamp(r[k])) by {
            if k < s.len() {
                assert(r[k] == s[k]);
            }
        }
    }
}

proof fn lemma_insert_newest_bounded(s: Seq<BackupEntry>, x: BackupEntry, b: Seq<char>)
    requires
        forall|i: int| 0 <= i < s.len() ==> !lex_lt(#[trigger] stamp(s[i]), b),
        !lex_lt(stamp(x), b),
    ensures
        forall|k: int| 0 <= k < insert_newest_first(s, x).len() ==> !lex_lt(#[trigger] stamp(insert_newest_first(s, x)[k]), b),
    decreases s.len(),
{
    if s.len() > 0 && lex_lt(stamp(s.last()), stamp(x)) {
        let t = s.drop_last();
        assert forall|i: int| 0 <= i < t.len() implies !lex_lt(#[trigger] stamp(t[i]), b) by {
            assert(t[i] == s[i]);
        }
        lemma_insert_newest_bounded(t, x, b);
        assert(!lex_lt(stamp(s[s.len() - 1]), b));
        let inner = insert_newest_first(t, x);
        let r = inner.push(s.last());
        assert(insert_newest_first(s, x) == r);
        assert forall|k: int| 0 <= k < r.len() implies !lex_lt(#[trigger] stamp(r[k]), b) by {
            if k < inner.len() {
                assert(r[k] == inner[k]);
            }
        }
    } else if s.len() == 0 {
        assert(insert_newest_first(s, x) =~= seq![x]);
    } else {
        let r = s.push(x);
        assert forall|k: int| 0 <= k < r.len() implies !lex_lt(#[trigger] stamp(r[k]), b) by {
            if k < s.len() {
                assert(r[k] == s[k]);
            }
        }
    }
}

proof fn lemma_insert_oldest_ordered(s: Seq<BackupEntry>, x: BackupEntry)
    requires
        ordered_oldest_first(s),
    ensures
        ordered_oldest_first(insert_oldest_first(s, x)),
    decreases s.len(),
{
    if s.len() == 0 {
        assert(insert_oldest_first(s, x) =~= seq![x]);
    } else if lex_lt(stamp(x), stamp(s.last())) {
        let t = s.drop_last();
        let b = stamp(s.last());
        assert forall|i: int, j: int| 0 <= i < j < t.len() implies !lex_lt(#[trigger] stamp(t[j]), #[trigger] stamp(t[i])) by {
            assert(t[i] == s[i] && t[j] == s[j]);
        }
        lemma_insert_oldest_ordered(t, x);
        assert forall|i: int| 0 <= i < t.len() implies !lex_lt(b, #[trigger] stamp(t[i])) by {
            assert(t[i] == s[i]);
            assert(!lex_lt(stamp(s[s.len() - 1]), stamp(s[i])));
        }
        lex_lt_asymmetric(stamp(x), b);
        lemma_insert_oldest_bounded(t, x, b);
        let r = insert_oldest_first(s, x);
        let inner = insert_oldest_first(t, x);
        assert(r == inner.push(s.last()));
        assert forall|i: int, j: int| 0 <= i < j < r.len() implies !lex_lt(#[trigger] stamp(r[j]), #[trigger] stamp(r[i])) by {
            if j < inner.len() {
                assert(r[i] == inner[i] && r[j] == inner[j]);
            } else {
                assert(r[j] == s.last());
                assert(r[i] == inner[i]);
            }
        }
    } else {
        let r = s.push(x);
        assert forall|i: int, j: int| 0 <= i < j < r.len() implies !lex_lt(#[trigger] stamp(r[j]), #[trigger] stamp(r[i])) by {
            if j < s.len() {
                assert(r[i] == s[i] && r[j] == s[j]);
            } else {
                assert(r[j] == x && r[i] == s[i]);
                if lex_lt(stamp(x), stamp(s[i])) {
                    if i < s.len() - 1 {
                        assert(!lex_lt(stamp(s[s.len() - 1]), stamp(s[i])));
                        lex_lt_le(stamp(x), stamp(s[i]), stamp(s[s.len() - 1]));
                    }
                }
            }
        }
    }
}

proof fn lemma_insert_newest_ordered(s: Seq<BackupEntry>, x: BackupEntry)
    requires
        ordered_newest_first(s),
    ensures
        ordered_newest_first(insert_newest_first(s, x)),
    decreases s.len(),
{
    if s.len() == 0 {
        assert(insert_newest_first(s, x) =~= seq![x]);
    } else if lex_lt(stamp(s.last()), stamp(x)) {
        let t = s.drop_last();
        let b = stamp(s.last());
        assert forall|i: int, j: int| 0 <= i < j < t.len() implies !lex_lt(#[trigger] stamp(t[i]), #[trigger] stamp(t[j])) by {
            assert(t[i] == s[i] && t[j] == s[j]);
        }
        lemma_insert_newest_ordered(t, x);
        assert forall|i: int| 0 <= i < t.len() implies !lex_lt(#[trigger] stamp(t[i]), b) by {
            assert(t[i] == s[i]);
            assert(!lex_lt(stamp(s[i]), stamp(s[s.len() - 1])));
        }
        lex_lt_asymmetric(b, stamp(x));
        lemma_insert_newest_bounded(t, x, b);
        let r = insert_newest_first(s, x);
        let inner = insert_newest_first(t, x);
        assert(r == inner.push(s.last()));
        assert forall|i: int, j: int| 0 <= i < j < r.len() implies !lex_lt(#[trigger] stamp(r[i]), #[trigger] stamp(r[j])) by {
            if j < inner.len() {
                assert(r[i] == inner[i] && r[j] == inner[j]);
            } else {
                assert(r[j] == s.last());
                assert(r[i] == inner[i]);
            }
        }
    } else {
        let r = s.push(x);
        assert forall|i: int, j: int| 0 <= i < j < r.len() implies !lex_lt(#[trigger] stamp(r[i]), #[trigger] stamp(r[j])) by {
            if j < s.len() {
                assert(r[i] == s[i] && r[j] == s[j]);
            } else {
                assert(r[j] == x && r[i] == s[i]);
                if lex_lt(stamp(s[i]), stamp(x)) {
                    if i < s.len() - 1 {
                        assert(!lex_lt(stamp(s[i]), stamp(s[s.len() - 1])));
                        lex_lt_total(stamp(s[i]), stamp(s[s.len() - 1]));
                        if stamp(s[i]) != stamp(s[s.len() - 1]) {
                            lex_lt_transitive(stamp(s[s.len() - 1]), stamp(s[i]), stamp(x));
                        }
                    }
                }
            }
        }
    }
}

/// Sorting oldest first orders the entries by time and keeps them all: no
/// entry comes before an older one, and the same entries remain, counted
/// with repetition.
pub proof fn oldest_first_orders_and_keeps(s: Seq<BackupEntry>)
    ensures
        ordered_oldest_first(oldest_first(s)),
        oldest_first(s).to_multiset() == s.to_multiset(),
    decreases s.len(),
{
    broadcast use vstd::seq_lib::to_multiset_build;
    if s.len() == 0 {
        assert(oldest_first(s) =~= s);
    } else {
        oldest_first_orders_and_keeps(s.drop_last());
        lemma_insert_oldest_ordered(oldest_first(s.drop_last()), s.last());
        lemma_insert_oldest_keeps(oldest_first(s.drop_last()), s.last());
        assert(s.drop_last().push(s.last()) =~= s);
    }
}

/// Sorting newest first orders the entries by time and keeps them all: no
/// entry comes before a newer one, and the same entries remain, counted
/// with repetition.
pub proof fn newest_first_orders_and_keeps(s: Seq<BackupEntry>)
    ensures
        ordered_newest_first(newest_first(s)),
        newest_first(s).to_multiset() == s.to_multiset(),
    decreases s.len(),
{
    broadcast use vstd::seq_lib::to_multiset_build;
    if s.len() == 0 {
        assert(newest_first(s) =~= s);
    } else {
        newest_first_orders_and_keeps(s.drop_last());
        lemma_insert_newest_ordered(newest_first(s.drop_last()), s.last());
        lemma_insert_newest_keeps(newest_first(s.drop_last()), s.last());
        assert(s.drop_last().push(s.last()) =~= s);
    }
}


/// The count rule of a retention policy leaves at most `max_count`
/// backups and removes only the oldest: each removed entry is not newer
/// than any kept one.
pub proof fn count_retention_removes_oldest(entries: Seq<BackupEntry>, max_count: u32)
    ensures
        ({
            let sorted = oldest_first(entries);
            let n = excess_count(entries.len(), Some(max_count)) as int;
            &&& entries.len() - n <= max_count
            &&& sorted.len() == entries.len()
            &&& retention_keys(entries, Some(max_count), None) == keys_of(sorted.take(n))
            &&& forall|i: int, j: int|
                0 <= i < n <= j < sorted.len() ==> !lex_lt(#[trigger] stamp(sorted[j]), #[trigger] stamp(sorted[i]))
        }),
{
    lemma_oldest_first_len(entries);
    oldest_first_orders_and_keeps(entries);
}

} // verus!
