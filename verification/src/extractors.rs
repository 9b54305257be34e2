//! Rejection of requests to pages that need a signed-in user.
use vstd::prelude::*;

verus! {

/// Rejection of an unauthenticated request to an HTML page; answered with
/// a 303 redirect to `/login` rather than a 401.
#[derive(Debug)]
pub struct AuthRejection;

/// Where a rejected request is sent.
pub fn login_redirect_target() -> (s: &'static str)
    ensures
        s@ == "/login"@,
{
    "/login"
}

} // verus!
