//! Login sessions and their tokens.
use base64::Engine;
use rand::TryRngCore;
use vstd::prelude::*;

verus! {

/// A login session; `id` is the token kept in the session cookie.
#[derive(Debug)]
pub struct Session {
    pub id: String,
    pub user_id: String,
    pub created_at: String,
    pub expires_at: String,
}

/// The character for a 6-bit value in the URL-safe base64 alphabet of
/// RFC 4648 (section 5): `A`-`Z`, `a`-`z`, `0`-`9`, `-`, `_`.
pub open spec fn b64url_char(v: int) -> char {
    if v < 26 {
        (65 + v) as char
    } else if v < 52 {
        (97 + (v - 26)) as char
    } else if v < 62 {
        (48 + (v - 52)) as char
    } else if v == 62 {
        '-'
    } else {
        '_'
    }
}

/// URL-safe base64 of `bytes` without padding (RFC 4648, section 5): each
/// group of three bytes gives four characters, a final group of one or
/// two bytes gives two or three.
pub open spec fn base64url(bytes: Seq<u8>) -> Seq<char>
    decreases bytes.len(),
{
    if bytes.len() == 0 {
        seq![]
    } else if bytes.len() == 1 {
        let n = bytes[0] as int;
        seq![b64url_char(n / 4), b64url_char((n % 4) * 16)]
    } else if bytes.len() == 2 {
        let n = bytes[0] as int * 256 + bytes[1] as int;
        seq![b64url_char(n / 1024), b64url_char((n / 16) % 64), b64url_char((n % 16) * 4)]
    } else {
        let n = bytes[0] as int * 65536 + bytes[1] as int * 256 + bytes[2] as int;
        seq![b64url_char(n / 262144), b64url_char((n / 4096) % 64), b64url_char((n / 64) % 64), b64url_char(n % 64)]
            + base64url(bytes.subrange(3, bytes.len() as int))
    }
}

/// Whether `c` belongs to the URL-safe base64 alphabet.
pub open spec fn is_token_char(c: char) -> bool {
    ('A' <= c && c <= 'Z') || ('a' <= c && c <= 'z') || ('0' <= c && c <= '9') || c == '-' || c == '_'
}

proof fn lemma_b64url_char(v: int)
    requires
        0 <= v < 64,
    ensures
        is_token_char(b64url_char(v)),
{
}

proof fn lemma_base64url_shape(bytes: Seq<u8>)
    ensures
        base64url(bytes).len() == 4 * (bytes.len() / 3) + if bytes.len() % 3 == 0 {
            0
        } else {
            bytes.len() % 3 + 1
        },
        forall|i: int| 0 <= i < base64url(bytes).len() ==> is_token_char(#[trigger] base64url(bytes)[i]),
    decreases bytes.len(),
{
    if bytes.len() == 0 {
    } else if bytes.len() == 1 {
        let n = bytes[0] as int;
        lemma_b64url_char(n / 4);
        lemma_b64url_char((n % 4) * 16);
    } else if bytes.len() == 2 {
        let n = bytes[0] as int * 256 + bytes[1] as int;
        lemma_b64url_char(n / 1024);
        lemma_b64url_char((n / 16) % 64);
        lemma_b64url_char((n % 16) * 4);
    } else {
        let n = bytes[0] as int * 65536 + bytes[1] as int * 256 + bytes[2] as int;
        let rest = bytes.subrange(3, bytes.len() as int);
        lemma_base64url_shape(rest);
        lemma_b64url_char(n / 262144);
        lemma_b64url_char((n / 4096) % 64);
        lemma_b64url_char((n / 64) % 64);
        lemma_b64url_char(n % 64);
        let head = seq![b64url_char(n / 262144), b64url_char((n / 4096) % 64), b64url_char((n / 64) % 64), b64url_char(n % 64)];
        assert(base64url(bytes) == head + base64url(rest));
        assert forall|i: int| 0 <= i < base64url(bytes).len() implies is_token_char(#[trigger] base64url(bytes)[i]) by {
            if i >= 4 {
                assert(base64url(bytes)[i] == base64url(rest)[i - 4]);
            }
        }
    }
}

/// `URL_SAFE_NO_PAD.encode` of the `base64` crate: URL-safe base64 without
/// padding, claimed to be [`base64url`].
#[verifier::external_body]
fn encode_base64url(bytes: &[u8]) -> (s: String)
    ensures
        s@ == base64url(bytes@),
{
    base64::engine::general_purpose::URL_SAFE_NO_PAD.encode(bytes)
}

/// `n` bytes from the operating system's random source
/// (`OsRng::try_fill_bytes`), or `None` when it fails. Nothing is claimed
/// of the bytes but their number.
#[verifier::external_body]
pub(crate) fn os_random_bytes(n: usize) -> (r: Option<Vec<u8>>)
    ensures
        r matches Some(b) ==> b@.len() == n,
{
    let mut bytes = vec![0u8; n];
    match rand::rngs::OsRng.try_fill_bytes(&mut bytes) {
        Ok(()) => Some(bytes),
        Err(_) => None,
    }
}

/// Generate a cryptographically random 32-byte session token,
/// base64url-encoded without padding: 43 characters of the URL-safe
/// alphabet. `None` when the operating system's random source fails.
pub fn generate_token() -> (t: Option<String>)
    ensures
        t matches Some(s) ==> s@.len() == 43 && forall|i: int| 0 <= i < s@.len() ==> is_token_char(#[trigger] s@[i]),
        t matches Some(s) ==> exists|bytes: Seq<u8>| bytes.len() == 32 && s@ == #[trigger] base64url(bytes),
{
    match os_random_bytes(32) {
        Some(bytes) => {
            let s = encode_base64url(bytes.as_slice());
            proof {
                lemma_base64url_shape(bytes@);
            }
            Some(s)
        },
        None => None,
    }
}

} // verus!
