//! Password hashing with bcrypt: an adaptive one-way hash with a random salt
//! and a fixed cost factor, and a verification that fails closed.
use vstd::prelude::*;

verus! {

/// Whether `bcrypt::verify` accepts a password against a stored hash. A
/// malformed hash accepts nothing.
pub uninterp spec fn bcrypt_verifies(password: Seq<char>, hash: Seq<char>) -> bool;

/// Relies on `bcrypt::verify`: it recomputes the hash of the password with
/// the cost and salt read from the stored hash and compares in constant
/// time. An error (a malformed hash) is read as no match.
#[verifier::external_body]
pub(crate) fn verify_password(password: &str, hash: &str) -> (r: bool)
    ensures
        r == bcrypt_verifies(password@, hash@),
{
    bcrypt::verify(password, hash).unwrap_or(false)
}

/// Relies on `bcrypt::hash` with `bcrypt::DEFAULT_COST`: each call draws a
/// fresh salt, so nothing is known of the hash but that `bcrypt::verify`
/// accepts the same password against it.
#[verifier::external_body]
pub(crate) fn hash_password(password: &str) -> (r: Option<String>)
    ensures
        r matches Some(h) ==> bcrypt_verifies(password@, h@),
{
    bcrypt::hash(password, bcrypt::DEFAULT_COST).ok()
}

} // verus!
