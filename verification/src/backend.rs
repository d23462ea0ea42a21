//! Authentication: the user record a session is tied to, and the password
//! check.

use vstd::prelude::*;

use vstd::utf8::encode_utf8;

use crate::error::Error;

verus! {

/// The authentication backend.
#[derive(Clone, Copy)]
pub struct Backend;

/// What a session knows of its user.
pub struct UserAuth {
    pub id: i64,
    pub username: String,
    pub bcrypt: String,
}

impl UserAuth {
    /// The user's id.
    pub fn id(&self) -> (r: i64)
        ensures
            r == self.id,
    {
        self.id
    }

    /// The bytes a session is bound to: the password hash, so that changing
    /// the password ends every session.
    pub fn session_auth_hash(&self) -> (r: &[u8])
        ensures
            r@ == encode_utf8(self.bcrypt@),
    {
        self.bcrypt.as_str().as_bytes()
    }
}

/// Whether `bcrypt::verify(password, hash)` returns `Ok(true)`, that is,
/// `hash` is a well-formed bcrypt hash of `password`.
pub uninterp spec fn bcrypt_accepts(password: Seq<char>, hash: Seq<char>) -> bool;

/// Calls `bcrypt::verify(password, hash)`; an error (a malformed hash)
/// counts as a mismatch. The contract names the result; the bcrypt
/// computation is not stated.
#[verifier::external_body]
fn password_matches(password: &str, hash: &str) -> (r: bool)
    ensures
        r == bcrypt_accepts(password@, hash@),
{
    bcrypt::verify(password, hash).unwrap_or(false)
}

/// How a bcrypt hash of work factor `cost` begins: `$2b$`, the cost in two
/// decimal digits, and `$`.
pub open spec fn bcrypt_prefix(cost: u32) -> Seq<char> {
    "$2b$"@ + seq![(48 + cost / 10) as char, (48 + cost % 10) as char] + "$"@
}

/// Calls `bcrypt::hash(password, cost)`, which draws a fresh random salt.
/// Whatever salt it draws, a hash it returns is one that `bcrypt::verify`
/// accepts for the same password: `verify` reads the cost and the salt back
/// out of the hash and recomputes it, truncating the password at 72 bytes
/// just as `hash` does. A cost outside 4..=31 is refused, and drawing the
/// salt may fail; either error is kept as a `Bcrypt` error with its message.
/// A hash it returns is written in bcrypt's `2b` form: 60 characters that
/// begin with `$2b$`, the cost in two digits and `$` (`HashParts::format`).
/// Which salt is drawn, and so the rest of the hash, is left open.
#[verifier::external_body]
pub(crate) fn hash_password(password: &str, cost: u32) -> (r: Result<String, Error>)
    ensures
        r matches Ok(h) ==> bcrypt_accepts(password@, h@),
        r matches Ok(h) ==> h@.len() == 60 && h@.subrange(0, 7) == bcrypt_prefix(cost),
        !(4 <= cost <= 31) ==> r is Err,
        r matches Err(e) ==> e is Bcrypt,
{
    match bcrypt::hash(password, cost) {
        Ok(h) => Ok(h),
        Err(e) => Err(Error::Bcrypt(e.to_string())),
    }
}

impl Backend {
    /// The user that `password` logs in, given the user found under the
    /// submitted name: none when there is no such user or the password does
    /// not match the stored hash, so that both are answered alike.
    pub fn verify_credentials(&self, user: Option<UserAuth>, password: &str) -> (r: Option<
        UserAuth,
    >)
        ensures
            match user {
                None => r is None,
                Some(u) => if bcrypt_accepts(password@, u.bcrypt@) {
                    r == Some(u)
                } else {
                    r is None
                },
            },
    {
        match user {
            None => None,
            Some(u) => {
                if password_matches(password, u.bcrypt.as_str()) {
                    Some(u)
                } else {
                    None
                }
            },
        }
    }
}

} // verus!
