//! HTTP details of serving the embedded static assets.
use vstd::prelude::*;

use crate::text::{chars_eq, chars_of, split_chars, split_seq, trim, trim_chars, views};

verus! {

/// Whether one `If-None-Match` candidate, trimmed, names the entity tag:
/// `*`, the tag itself, or its weak form `W/<tag>`.
pub open spec fn etag_candidate_matches(candidate: Seq<char>, etag: Seq<char>) -> bool {
    let c = trim(candidate);
    c == "*"@ || c == etag || c == "W/"@ + etag
}

/// Whether an `If-None-Match` header (its text, when it is one) names the
/// entity tag in any of its comma-separated candidates.
pub open spec fn if_none_match_holds(header: Option<Seq<char>>, etag: Seq<char>) -> bool {
    match header {
        Some(v) => some_candidate_matches(split_seq(v, ','), etag),
        None => false,
    }
}

/// Whether any of the candidates names the entity tag.
pub open spec fn some_candidate_matches(candidates: Seq<Seq<char>>, etag: Seq<char>) -> bool {
    exists|i: int| 0 <= i < candidates.len() && etag_candidate_matches(#[trigger] candidates[i], etag)
}

/// Whether the request's `If-None-Match` header (`None` when absent or not
/// visible ASCII) matches the asset's entity tag, so that the answer is
/// 304 Not Modified.
pub fn if_none_match_matches(header: Option<&str>, etag: &str) -> (r: bool)
    ensures
        r == if_none_match_holds(
            match header {
                Some(h) => Some(h@),
                None => None,
            },
            etag@,
        ),
{
    let value = match header {
        Some(v) => v,
        None => return false,
    };
    let vc = chars_of(value);
    let ec = chars_of(etag);
    let mut weak: Vec<char> = Vec::new();
    weak.push('W');
    weak.push('/');
    let ghost wprefix = weak@;
    crate::text::extend_chars(&mut weak, ec.as_slice());
    proof {
        reveal_strlit("W/");
        reveal_strlit("*");
        assert(wprefix =~= "W/"@);
    }
    let star: Vec<char> = vec!['*'];
    assert(star@ =~= "*"@);
    let parts = split_chars(vc.as_slice(), ',');
    let ghost ps = split_seq(value@, ',');
    let mut i: usize = 0;
    while i < parts.len()
        invariant
            i <= parts@.len(),
            views(parts@) == ps,
            ps == split_seq(value@, ','),
            ec@ == etag@,
            header == Some(value),
            weak@ == "W/"@ + etag@,
            star@ == "*"@,
            forall|j: int| 0 <= j < i ==> !etag_candidate_matches(#[trigger] ps[j], etag@),
        decreases parts@.len() - i,
    {
        assert(ps[i as int] == parts@[i as int]@);
        let c = trim_chars(parts[i].as_slice());
        if chars_eq(c.as_slice(), star.as_slice()) || chars_eq(c.as_slice(), ec.as_slice()) || chars_eq(
            c.as_slice(),
            weak.as_slice(),
        ) {
            assert(etag_candidate_matches(ps[i as int], etag@));
            assert(some_candidate_matches(ps, etag@));

            return true;
        }
        i = i + 1;
    }
    false
}

} // verus!
