//! The session cookie: reading it from a request and writing its
//! `Set-Cookie` headers.
use vstd::prelude::*;

use crate::text::{chars_of, extend_chars, extend_str, split_chars, split_seq, string_of, sub_chars, trim, trim_chars, views};

verus! {

/// Name of the session cookie.
pub const COOKIE_NAME: &'static str = "sendword_session";

/// Rejection of a request without a valid session; answered with a 303
/// redirect to `/login`.
#[derive(Debug)]
pub struct AuthRejection;

/// The value of the cookie `name` in the pieces of a `Cookie` header: the
/// first trimmed piece that starts with `name` decides, unless its value is
/// empty; a piece that starts with `name` but not `name=` ends the search.
pub open spec fn cookie_value(pieces: Seq<Seq<char>>, name: Seq<char>) -> Option<Seq<char>>
    decreases pieces.len(),
{
    if pieces.len() == 0 {
        None
    } else {
        let p = trim(pieces[0]);
        if name.len() <= p.len() && p.subrange(0, name.len() as int) == name {
            let rest = p.subrange(name.len() as int, p.len() as int);
            if rest.len() == 0 || rest[0] != '=' {
                None
            } else if rest.len() > 1 {
                Some(rest.subrange(1, rest.len() as int))
            } else {
                cookie_value(pieces.drop_first(), name)
            }
        } else {
            cookie_value(pieces.drop_first(), name)
        }
    }
}

/// Extract a cookie value by name from the `Cookie` header, if the request
/// has one.
pub fn extract_cookie(header: Option<&str>, name: &str) -> (r: Option<String>)
    ensures
        header is None ==> r is None,
        header matches Some(h) ==> match cookie_value(split_seq(h@, ';'), name@) {
            Some(v) => r matches Some(s) && s@ == v,
            None => r is None,
        },
{
    let h = match header {
        Some(h) => h,
        None => return None,
    };
    let hc = chars_of(h);
    let nc = chars_of(name);
    let pieces = split_chars(hc.as_slice(), ';');
    let ghost ps = views(pieces@);
    let mut i: usize = 0;
    assert(ps.skip(0) == ps);
    while i < pieces.len()
        invariant
            header == Some(h),
            ps == views(pieces@),
            ps == split_seq(h@, ';'),
            nc@ == name@,
            i <= pieces@.len(),
            cookie_value(ps, name@) == cookie_value(ps.skip(i as int), name@),
        decreases pieces@.len() - i,
    {
        let ghost rest = ps.skip(i as int);
        assert(rest[0] == pieces@[i as int]@);
        assert(rest.drop_first() == ps.skip(i + 1));
        let p = trim_chars(pieces[i].as_slice());
        if nc.len() <= p.len() && crate::text::chars_eq(sub_chars(p.as_slice(), 0, nc.len()).as_slice(), nc.as_slice()) {
            let v = sub_chars(p.as_slice(), nc.len(), p.len());
            if v.len() == 0 || v[0] != '=' {
                return None;
            }
            if v.len() > 1 {
                let value = sub_chars(v.as_slice(), 1, v.len());
                return Some(string_of(value.as_slice()));
            }
        }
        i = i + 1;
    }
    assert(ps.skip(i as int) =~= Seq::<Seq<char>>::empty());
    None
}

/// The `Set-Cookie` attributes shared by both session cookie headers.
pub open spec fn secure_suffix(secure: bool) -> Seq<char> {
    if secure {
        "; Secure"@
    } else {
        ""@
    }
}

/// Cookie configuration for the session cookie.
/// Used by the login handler to set the cookie with the correct flags.
#[derive(Debug)]
pub struct CookieConfig {
    pub secure: bool,
}

impl CookieConfig {
    /// Format a Set-Cookie header value for the session token.
    pub fn session_cookie_header(&self, token: &str) -> (h: String)
        ensures
            h@ == "sendword_session="@ + token@ + "; HttpOnly; SameSite=Lax; Path=/"@ + secure_suffix(self.secure),
    {
        let mut m: Vec<char> = Vec::new();
        extend_str(&mut m, "sendword_session=");
        extend_str(&mut m, token);
        extend_str(&mut m, "; HttpOnly; SameSite=Lax; Path=/");
        if self.secure {
            extend_str(&mut m, "; Secure");
        } else {
            proof {
                reveal_strlit("");
                assert(m@ + ""@ == m@);
            }
        }
        string_of(m.as_slice())
    }

    /// Format a Set-Cookie header value that clears the session cookie.
    pub fn clear_cookie_header(&self) -> (h: String)
        ensures
            h@ == "sendword_session=; HttpOnly; SameSite=Lax; Path=/; Max-Age=0"@ + secure_suffix(self.secure),
    {
        let mut m: Vec<char> = Vec::new();
        extend_str(&mut m, "sendword_session=; HttpOnly; SameSite=Lax; Path=/; Max-Age=0");
        if self.secure {
            extend_str(&mut m, "; Secure");
        } else {
            proof {
                reveal_strlit("");
                assert(m@ + ""@ == m@);
            }
        }
        string_of(m.as_slice())
    }
}

} // verus!
