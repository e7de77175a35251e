//! Signed session tokens: issue and parse. A token is an HS256 JSON Web
//! Token whose payload is the claims text of [`crate::json`]. Parsing checks,
//! in this order, the signature, the presence and form of every claim, and
//! that the expiry instant lies in the future.
use vstd::prelude::*;
use crate::claims::{ClaimsView, JwtClaims, UserData};
use crate::json::{
    claims_in_range, claims_json, claims_of_text, claims_text, lemma_text_claims, read_claims,
};

verus! {

/// The token that `jsonwebtoken::encode` makes, with the default HS256
/// header, of a payload text under a shared secret.
pub uninterp spec fn hs256_token(payload: Seq<char>, secret: Seq<u8>) -> Seq<char>;

/// The payload text that `jsonwebtoken::decode` gives back of a token under a
/// shared secret when it checks the HS256 signature and nothing else; `None`
/// where the token is malformed or its signature does not match.
pub uninterp spec fn hs256_payload(token: Seq<char>, secret: Seq<u8>) -> Option<Seq<char>>;

/// Relies on `jsonwebtoken::encode` with `Header::default()` (HS256) and an
/// HMAC key, over `serde_json::value::RawValue::from_string`. A claims text
/// is valid JSON without surrounding white space, so `RawValue` keeps it as
/// it stands and the payload segment is its base64url text. Its top-level
/// keys are `user_data` and `exp`, a non-negative integer below 2^64, so
/// `decode` with the same secret and signature-only validation reads its
/// validation claims without error and gives the same text back. Neither
/// step can fail on such a text (an HMAC key takes any secret), and the
/// token joins three segments with dots, so it is never empty.
#[verifier::external_body]
fn sign_payload(payload: &str, secret: &[u8]) -> (r: Option<String>)
    requires
        exists|c: ClaimsView| claims_in_range(c) && payload@ == claims_text(c),
    ensures
        r is Some,
        r.unwrap()@ == hs256_token(payload@, secret@),
        hs256_payload(r.unwrap()@, secret@) == Some(payload@),
        r.unwrap()@.len() > 0,
{
    let raw = serde_json::value::RawValue::from_string(payload.to_owned()).ok()?;
    let key = jsonwebtoken::EncodingKey::from_secret(secret);
    jsonwebtoken::encode(&jsonwebtoken::Header::default(), &raw, &key).ok()
}

/// Relies on `jsonwebtoken::decode` into a `serde_json::value::RawValue`
/// with a `Validation` for HS256 whose expiry, audience and required-claim
/// checks are off: what it returns then depends on the token and the secret
/// alone. The expiry is checked by [`parse`].
#[verifier::external_body]
fn verified_payload(token: &str, secret: &[u8]) -> (r: Option<String>)
    ensures
        match r {
            Some(p) => hs256_payload(token@, secret@) == Some(p@),
            None => hs256_payload(token@, secret@) is None,
        },
{
    let mut validation = jsonwebtoken::Validation::new(jsonwebtoken::Algorithm::HS256);
    validation.validate_exp = false;
    validation.validate_aud = false;
    validation.required_spec_claims.clear();
    let key = jsonwebtoken::DecodingKey::from_secret(secret);
    let data = jsonwebtoken::decode::<Box<serde_json::value::RawValue>>(token, &key, &validation);
    data.ok().map(|d| d.claims.get().to_owned())
}

/// Why a token could not be issued or was not accepted. Every failure to
/// accept a token is the same opaque `Rejected`, whatever check failed.
#[derive(PartialEq, Eq, Structural, Clone, Copy, Debug)]
pub enum TokenError {
    Rejected,
    NotIssued,
}

/// A token issued at `now` with time to live `ttl` can carry its expiry.
pub open spec fn expiry_fits(now: int, ttl: int) -> bool {
    0 <= now + ttl <= usize::MAX
}

/// `token` carries the claims `c` signed under `secret`.
pub open spec fn signed(c: ClaimsView, token: Seq<char>, secret: Seq<u8>) -> bool {
    &&& claims_in_range(c)
    &&& token == hs256_token(claims_text(c), secret)
    &&& hs256_payload(token, secret) == Some(claims_text(c))
    &&& token.len() > 0
}

/// `token` carries the claims `c` signed under `secret`, issued at `now`
/// with time to live `ttl`.
pub open spec fn issued(c: ClaimsView, token: Seq<char>, secret: Seq<u8>, now: int, ttl: int) -> bool {
    c.exp == now + ttl && signed(c, token, secret)
}

/// The claims that a token yields at instant `now`: the signature must
/// match, the payload must be a claims text, and the expiry must lie after
/// `now`.
pub open spec fn parse_spec(token: Seq<char>, secret: Seq<u8>, now: int) -> Option<ClaimsView> {
    match hs256_payload(token, secret) {
        None => None,
        Some(p) => match claims_of_text(p) {
            None => None,
            Some(c) => if c.exp > now {
                Some(c)
            } else {
                None
            },
        },
    }
}

/// Signs `user` into a token that expires at instant `exp`.
pub fn issue_until(user: &UserData, secret: &[u8], exp: usize) -> (r: (JwtClaims, String))
    ensures
        r.0.user_data@ == user@,
        r.0.exp == exp,
        signed(r.0@, r.1@, secret@),
{
    let claims = JwtClaims { user_data: user.clone_data(), exp };
    let payload = claims_json(&claims);
    assert(claims_in_range(claims@));
    let token = sign_payload(payload.as_str(), secret).unwrap();
    (claims, token)
}

/// Signs `user` into a token that expires `ttl` seconds after `now`; it
/// cannot be issued only where that instant is negative or does not fit.
pub fn issue(user: &UserData, secret: &[u8], ttl: i64, now: u64) -> (r: Result<
    (JwtClaims, String),
    TokenError,
>)
    ensures
        match r {
            Ok((c, t)) => c.user_data@ == user@ && issued(c@, t@, secret@, now as int, ttl as int),
            Err(e) => e == TokenError::NotIssued,
        },
        r is Ok <==> expiry_fits(now as int, ttl as int),
{
    let exp: i128 = now as i128 + ttl as i128;
    if exp < 0 || exp > usize::MAX as i128 {
        return Err(TokenError::NotIssued);
    }
    Ok(issue_until(user, secret, exp as usize))
}

/// The claims of `token` at instant `now`: its signature, its claims and its
/// expiry are checked in this order, and any failure is `Rejected`.
pub fn parse(token: &str, secret: &[u8], now: u64) -> (r: Result<JwtClaims, TokenError>)
    ensures
        match r {
            Ok(c) => parse_spec(token@, secret@, now as int) == Some(c@),
            Err(e) => parse_spec(token@, secret@, now as int) is None && e == TokenError::Rejected,
        },
{
    let payload = match verified_payload(token, secret) {
        Some(p) => p,
        None => return Err(TokenError::Rejected),
    };
    let claims = match read_claims(payload.as_str()) {
        Some(c) => c,
        None => return Err(TokenError::Rejected),
    };
    if claims.exp as u64 > now {
        Ok(claims)
    } else {
        Err(TokenError::Rejected)
    }
}

/// Round trip: a token parses back to the claims it was issued with at any
/// instant before its expiry.
pub proof fn lemma_issue_parse(c: ClaimsView, token: Seq<char>, secret: Seq<u8>, now: int, ttl: int, later: int)
    requires
        issued(c, token, secret, now, ttl),
        later < now + ttl,
    ensures
        parse_spec(token, secret, later) == Some(c),
{
    lemma_text_claims(c);
}

/// Expiry: a token is rejected from its expiry instant on, though its
/// signature matches; one issued with a negative time to live is rejected
/// at once.
pub proof fn lemma_expired(c: ClaimsView, token: Seq<char>, secret: Seq<u8>, now: int, ttl: int, later: int)
    requires
        issued(c, token, secret, now, ttl),
        later >= now + ttl,
    ensures
        parse_spec(token, secret, later) is None,
        hs256_payload(token, secret) is Some,
{
    lemma_text_claims(c);
}

/// Whatever a token parses to is carried in it as exactly that claims text.
pub proof fn lemma_parse_sound(token: Seq<char>, secret: Seq<u8>, now: int)
    requires
        parse_spec(token, secret, now) is Some,
    ensures
        hs256_payload(token, secret) == Some(claims_text(parse_spec(token, secret, now).unwrap())),
        parse_spec(token, secret, now).unwrap().exp > now,
{
}

/// A signed token parses back to its claims at any instant before its
/// expiry, and to nothing from then on.
pub proof fn lemma_signed_parse(c: ClaimsView, token: Seq<char>, secret: Seq<u8>, later: int)
    requires
        signed(c, token, secret),
    ensures
        later < c.exp ==> parse_spec(token, secret, later) == Some(c),
        later >= c.exp ==> parse_spec(token, secret, later) is None,
{
    lemma_text_claims(c);
}

/// A token whose signature does not check and a token past its expiry are
/// turned away alike: neither yields claims, and parsing both fails with the
/// one error `Rejected` that [`parse`] has.
pub proof fn lemma_rejections_alike(
    forged: Seq<char>,
    c: ClaimsView,
    expired: Seq<char>,
    secret: Seq<u8>,
    now: int,
)
    requires
        hs256_payload(forged, secret) is None,
        signed(c, expired, secret),
        now >= c.exp,
    ensures
        parse_spec(forged, secret, now) is None,
        parse_spec(expired, secret, now) is None,
{
    lemma_signed_parse(c, expired, secret, now);
}

} // verus!
