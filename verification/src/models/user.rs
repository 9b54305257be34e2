//! Users of the web interface.
use vstd::prelude::*;
use argon2::{PasswordHasher, PasswordVerifier};
use vstd::string::StringSliceAdditionalSpecFns;

use crate::error::DbError;
use crate::text::{extend_str, string_of};

verus! {

/// Whether a byte is an ASCII letter, digit or hyphen.
pub open spec fn username_byte_ok(b: u8) -> bool {
    (97u8 <= b && b <= 122u8) || (65u8 <= b && b <= 90u8) || (48u8 <= b && b <= 57u8) || b == 45u8
}

/// The verdict on a user name given its UTF-8 bytes.
pub open spec fn username_verdict(bytes: Seq<u8>) -> Result<(), Seq<char>> {
    if !(3 <= bytes.len() <= 32) {
        Err("username must be 3-32 characters"@)
    } else if bytes[0] == 45u8 || bytes.last() == 45u8 {
        Err("username must not start or end with a hyphen"@)
    } else if exists|i: int| 0 <= i < bytes.len() && !username_byte_ok(bytes[i]) {
        Err("username must contain only alphanumeric characters and hyphens"@)
    } else {
        Ok(())
    }
}

/// Validates a username: 3-32 characters, alphanumeric + hyphens, no leading/trailing hyphens.
pub fn validate_username(username: &str) -> (r: Result<(), &'static str>)
    ensures
        match r {
            Ok(()) => username_verdict(username.spec_bytes()) == Ok::<(), Seq<char>>(()),
            Err(e) => username_verdict(username.spec_bytes()) == Err::<(), Seq<char>>(e@),
        },
{
    let bytes = username.as_bytes();
    let len = bytes.len();
    if !(3 <= len && len <= 32) {
        return Err("username must be 3-32 characters");
    }
    assert(bytes@.last() == bytes@[len - 1]);
    if bytes[0] == 45u8 || bytes[len - 1] == 45u8 {
        return Err("username must not start or end with a hyphen");
    }
    let mut i: usize = 0;
    while i < len
        invariant
            bytes@ == username.spec_bytes(),
            len == bytes@.len(),
            3 <= len <= 32,
            bytes@[0] != 45u8 && bytes@.last() != 45u8,
            i <= len,
            forall|j: int| 0 <= j < i ==> username_byte_ok(bytes@[j]),
        decreases len - i,
    {
        let b = bytes[i];
        if !((97u8 <= b && b <= 122u8) || (65u8 <= b && b <= 90u8) || (48u8 <= b && b <= 57u8)
            || b == 45u8) {
            assert(!username_byte_ok(bytes@[i as int]));
            return Err("username must contain only alphanumeric characters and hyphens");
        }
        i = i + 1;
    }
    Ok(())
}

/// A user of the web interface.
#[derive(Debug)]
pub struct User {
    pub id: String,
    pub username: String,
    /// The argon2id hash of the password, in PHC string format.
    pub password_hash: String,
    pub created_at: String,
}


/// Whether argon2 accepts `password` for the stored hash `hash` (a PHC
/// string), as `PasswordHash::new` followed by
/// `Argon2::default().verify_password` decides it.
pub uninterp spec fn argon2_accepts(password: Seq<char>, hash: Seq<char>) -> bool;

/// `SaltString::encode_b64` of the salt bytes, then
/// `Argon2::default().hash_password` with that salt, as a PHC string, or
/// the error's text. Between 3 and 48 bytes encode to a salt of 4 to 64
/// B64 characters, the lengths `SaltString::as_salt` takes without
/// panicking. A hash it produces verifies with the same password (the crate
/// documents exactly this round trip); nothing else is claimed.
#[verifier::external_body]
fn argon2_hash(password: &str, salt_bytes: &[u8]) -> (r: Result<String, String>)
    requires
        3 <= salt_bytes@.len() <= 48,
    ensures
        r matches Ok(h) ==> argon2_accepts(password@, h@),
{
    let salt = match argon2::password_hash::SaltString::encode_b64(salt_bytes) {
        Ok(salt) => salt,
        Err(e) => return Err(e.to_string()),
    };
    match argon2::Argon2::default().hash_password(password.as_bytes(), &salt) {
        Ok(h) => Ok(h.to_string()),
        Err(e) => Err(e.to_string()),
    }
}

/// `PasswordHash::new` on the stored text, then
/// `Argon2::default().verify_password`; `false` when the text is not a
/// PHC string. Claimed to be [`argon2_accepts`].
#[verifier::external_body]
fn argon2_verify(password: &str, hash: &str) -> (r: bool)
    ensures
        r == argon2_accepts(password@, hash@),
{
    match argon2::PasswordHash::new(hash) {
        Ok(parsed) => argon2::Argon2::default().verify_password(password.as_bytes(), &parsed).is_ok(),
        Err(_) => false,
    }
}

/// The error for a failed hashing, with its detail.
fn hashing_failed(detail: &str) -> (e: DbError)
    ensures
        e matches DbError::Validation(m) && m@ == "password hashing failed: "@ + detail@,
{
    let mut m: Vec<char> = Vec::new();
    extend_str(&mut m, "password hashing failed: ");
    extend_str(&mut m, detail);
    DbError::Validation(string_of(m.as_slice()))
}

/// Hash a plaintext password with argon2id and a fresh random salt of 16
/// bytes from the operating system. Returns the PHC-formatted hash string,
/// which [`verify_password`] accepts for the same password; an error when
/// the random source or the hashing fails.
pub fn hash_password(password: &str) -> (r: Result<String, DbError>)
    ensures
        r matches Ok(h) ==> argon2_accepts(password@, h@),
        r matches Err(e) ==> (e matches DbError::Validation(m) && m@.len() >= 25 && m@.subrange(0, 25)
            == "password hashing failed: "@),
{
    proof {
        reveal_strlit("password hashing failed: ");
    }
    let bytes = match crate::models::session::os_random_bytes(16) {
        Some(b) => b,
        None => {
            let e = hashing_failed("random source unavailable");
            proof {
                assert(e->Validation_0@.subrange(0, 25) =~= "password hashing failed: "@);
            }
            return Err(e);
        },
    };
    match argon2_hash(password, bytes.as_slice()) {
        Ok(h) => Ok(h),
        Err(m) => {
            let e = hashing_failed(m.as_str());
            proof {
                assert(e->Validation_0@.subrange(0, 25) =~= "password hashing failed: "@);
            }
            Err(e)
        },
    }
}

/// Verify a plaintext password against a stored argon2id hash.
pub fn verify_password(password: &str, hash: &str) -> (r: bool)
    ensures
        r == argon2_accepts(password@, hash@),
{
    argon2_verify(password, hash)
}

} // verus!
