//! Login, session renewal, the per-request authorization guard and the
//! password change. The credential store is outside: its lookups reach these
//! functions as plain values, and the records they return are what the
//! store is to write.
use vstd::prelude::*;
use crate::bodies::{ChangePasswordBody, LoginBody};
use crate::claims::{ClaimsView, JwtClaims, UserData, UserView, same_profile, scrubbed};
use crate::password::{bcrypt_verifies, hash_password, verify_password};
use crate::token::{
    expiry_fits, issue, issue_until, issued, lemma_issue_parse, parse, parse_spec, signed,
};

verus! {

/// Time to live of a token minted at login, in seconds (100 hours).
pub const LOGIN_TTL: i64 = 360000;

/// Time to live of a token minted at renewal, in seconds (10000 hours).
pub const RENEW_TTL: i64 = 36000000;

/// The configuration of the subsystem, built once at process start.
pub struct AuthConfig {
    pub secret: Vec<u8>,
    pub login_ttl: i64,
    pub renew_ttl: i64,
}

impl AuthConfig {
    /// A configuration with the given signing secret and the default time
    /// to live of login and renewal.
    pub fn new(secret: Vec<u8>) -> (r: AuthConfig)
        ensures
            r.secret@ == secret@,
            r.login_ttl == LOGIN_TTL,
            r.renew_ttl == RENEW_TTL,
    {
        AuthConfig { secret, login_ttl: LOGIN_TTL, renew_ttl: RENEW_TTL }
    }
}

/// The outcomes of a failed step on the credential and token paths.
#[derive(PartialEq, Eq, Structural, Clone, Copy, Debug)]
pub enum AuthError {
    /// Unknown identity or wrong password at login, or a token that cannot
    /// be renewed; never says which.
    InvalidCredentials,
    /// A request that the guard turns away, whatever the cause.
    Unauthorized,
    /// The current password given at a password change is wrong.
    PasswordMismatch,
    /// The user is not in the credential store.
    NotFound,
    /// The credential store failed, or a password could not be hashed for
    /// it: a server error.
    StoreFailure,
    /// The store did not take the record written back by a password change
    /// or a user update: a failed request.
    UpdateFailed,
    /// A token fault: its expiry instant does not fit the token.
    Internal,
}

pub open spec fn status_of(e: AuthError) -> u16 {
    match e {
        AuthError::InvalidCredentials => 401,
        AuthError::Unauthorized => 401,
        AuthError::PasswordMismatch => 400,
        AuthError::NotFound => 404,
        AuthError::StoreFailure => 500,
        AuthError::UpdateFailed => 400,
        AuthError::Internal => 500,
    }
}

pub open spec fn message_of(e: AuthError) -> Seq<char> {
    match e {
        AuthError::InvalidCredentials => "INVALID USERNAME / PASSWORD"@,
        AuthError::Unauthorized => "Unauthorized"@,
        AuthError::PasswordMismatch => "Old password didn't match"@,
        AuthError::NotFound => "User not found"@,
        AuthError::StoreFailure => "Server error"@,
        AuthError::UpdateFailed => "Request Failed."@,
        AuthError::Internal => "Internal error"@,
    }
}

impl AuthError {
    /// The HTTP status that answers this error.
    pub fn status(&self) -> (r: u16)
        ensures
            r == status_of(*self),
    {
        match self {
            AuthError::InvalidCredentials => 401,
            AuthError::Unauthorized => 401,
            AuthError::PasswordMismatch => 400,
            AuthError::NotFound => 404,
            AuthError::StoreFailure => 500,
            AuthError::UpdateFailed => 400,
            AuthError::Internal => 500,
        }
    }

    /// The message shown to the client; it reveals nothing of the cause
    /// beyond the error itself.
    pub fn message(&self) -> (r: &'static str)
        ensures
            r@ == message_of(*self),
    {
        match self {
            AuthError::InvalidCredentials => "INVALID USERNAME / PASSWORD",
            AuthError::Unauthorized => "Unauthorized",
            AuthError::PasswordMismatch => "Old password didn't match",
            AuthError::NotFound => "User not found",
            AuthError::StoreFailure => "Server error",
            AuthError::UpdateFailed => "Request Failed.",
            AuthError::Internal => "Internal error",
        }
    }
}

/// A session: its claims and the signed token that carries them.
pub struct Session {
    pub claims: JwtClaims,
    pub token: String,
}

/// The `Authorization` header of a request as it arrived.
pub enum AuthorizationHeader {
    /// No such header.
    Absent,
    /// A value that is not text.
    Unreadable,
    /// The value as text.
    Text(String),
}

/// The token of a header value `Bearer <token>`.
pub open spec fn bearer_token_of(v: Seq<char>) -> Option<Seq<char>> {
    if v.len() >= 7 && v.subrange(0, 7) == "Bearer "@ {
        Some(v.skip(7))
    } else {
        None
    }
}

/// The bearer token that a header presents.
pub open spec fn header_token(h: AuthorizationHeader) -> Option<Seq<char>> {
    match h {
        AuthorizationHeader::Text(v) => bearer_token_of(v@),
        _ => None,
    }
}

/// The claims that a request with header `h` is authorized with at `now`.
pub open spec fn request_claims(h: AuthorizationHeader, secret: Seq<u8>, now: int) -> Option<
    ClaimsView,
> {
    match header_token(h) {
        None => None,
        Some(t) => parse_spec(t, secret, now),
    }
}

/// The expiry of a renewal at `now` of a session that expires at `old_exp`:
/// `ttl` seconds from now, and in any case later than before.
pub open spec fn renewed_exp(old_exp: nat, now: int, ttl: int) -> int {
    if now + ttl > old_exp {
        now + ttl
    } else {
        old_exp + 1int
    }
}

/// The claims of a renewal at `now` of a session with claims `old`.
pub open spec fn renewal_of(old: ClaimsView, now: int, ttl: int) -> ClaimsView {
    ClaimsView { user_data: scrubbed(old.user_data), exp: renewed_exp(old.exp, now, ttl) as nat }
}

/// The token of a header value `Bearer <token>`.
pub fn strip_bearer(v: &str) -> (r: Option<&str>)
    ensures
        match r {
            Some(t) => bearer_token_of(v@) == Some(t@),
            None => bearer_token_of(v@) is None,
        },
{
    let prefix = "Bearer ";
    proof {
        reveal_strlit("Bearer ");
    }
    let n = v.unicode_len();
    if n < 7 {
        return None;
    }
    let head = String::from_str(v.substring_char(0, 7));
    if head == String::from_str(prefix) {
        let rest = v.substring_char(7, n);
        assert(rest@ =~= v@.skip(7));
        Some(rest)
    } else {
        None
    }
}

fn header_claims(header: &AuthorizationHeader, secret: &[u8], now: u64) -> (r: Option<JwtClaims>)
    ensures
        match r {
            Some(c) => request_claims(*header, secret@, now as int) == Some(c@),
            None => request_claims(*header, secret@, now as int) is None,
        },
{
    match header {
        AuthorizationHeader::Text(v) => match strip_bearer(v.as_str()) {
            Some(token) => match parse(token, secret, now) {
                Ok(c) => Some(c),
                Err(_) => None,
            },
            None => None,
        },
        _ => None,
    }
}

/// Login at instant `now`: `record` is what the credential store holds
/// under the identity of `body`, if anything.
pub fn login(record: Option<UserData>, body: &LoginBody, config: &AuthConfig, now: u64) -> (r:
    Result<Session, AuthError>)
    ensures
        match record {
            Some(u) if u.username@ == body.username@ && bcrypt_verifies(
                body.password@,
                u.password@,
            ) => if expiry_fits(now as int, config.login_ttl as int) {
                r matches Ok(s) && s.claims.user_data@ == scrubbed(u@) && issued(
                    s.claims@,
                    s.token@,
                    config.secret@,
                    now as int,
                    config.login_ttl as int,
                )
            } else {
                r == Err::<Session, AuthError>(AuthError::Internal)
            },
            _ => r == Err::<Session, AuthError>(AuthError::InvalidCredentials),
        },
{
    let u = match record {
        Some(u) => u,
        None => return Err(AuthError::InvalidCredentials),
    };
    if !(u.username == body.username) {
        return Err(AuthError::InvalidCredentials);
    }
    if !verify_password(body.password.as_str(), u.password.as_str()) {
        return Err(AuthError::InvalidCredentials);
    }
    let profile = u.scrub();
    match issue(&profile, config.secret.as_slice(), config.login_ttl, now) {
        Ok((claims, token)) => Ok(Session { claims, token }),
        Err(_) => Err(AuthError::Internal),
    }
}

/// Renewal at instant `now`: the session that the request's bearer token
/// carries is reissued with the same profile and an expiry `renew_ttl`
/// seconds from now, or one second past the old expiry where that is later.
pub fn authenticated(header: &AuthorizationHeader, config: &AuthConfig, now: u64) -> (r: Result<
    Session,
    AuthError,
>)
    ensures
        match request_claims(*header, config.secret@, now as int) {
            None => r == Err::<Session, AuthError>(AuthError::InvalidCredentials),
            Some(old) => if renewed_exp(old.exp, now as int, config.renew_ttl as int)
                <= usize::MAX {
                r matches Ok(s) && s.claims@ == renewal_of(old, now as int, config.renew_ttl as int)
                    && signed(s.claims@, s.token@, config.secret@)
            } else {
                r == Err::<Session, AuthError>(AuthError::Internal)
            },
        },
{
    let old = match header_claims(header, config.secret.as_slice(), now) {
        Some(c) => c,
        None => return Err(AuthError::InvalidCredentials),
    };
    let fresh: i128 = now as i128 + config.renew_ttl as i128;
    let exp: i128 = if fresh > old.exp as i128 {
        fresh
    } else {
        old.exp as i128 + 1
    };
    if exp > usize::MAX as i128 {
        return Err(AuthError::Internal);
    }
    let profile = old.user_data.scrub();
    let (claims, token) = issue_until(&profile, config.secret.as_slice(), exp as usize);
    Ok(Session { claims, token })
}

/// The guard at instant `now`: the claims a request is let through with,
/// or `Unauthorized`.
pub fn auth_guard(header: &AuthorizationHeader, config: &AuthConfig, now: u64) -> (r: Result<
    JwtClaims,
    AuthError,
>)
    ensures
        match request_claims(*header, config.secret@, now as int) {
            Some(c) => r matches Ok(x) && x@ == c,
            None => r == Err::<JwtClaims, AuthError>(AuthError::Unauthorized),
        },
{
    match header_claims(header, config.secret.as_slice(), now) {
        Some(c) => Ok(c),
        None => Err(AuthError::Unauthorized),
    }
}

/// The guard at instant `now` in front of a protected operation: `downstream`
/// runs once, with the request's claims, when the request is let through,
/// and its result is passed on unchanged; otherwise it does not run and the
/// request is `Unauthorized`.
pub fn guard_then<R, F: FnOnce(JwtClaims) -> R>(
    header: &AuthorizationHeader,
    config: &AuthConfig,
    now: u64,
    downstream: F,
) -> (r: Result<R, AuthError>)
    requires
        forall|c: JwtClaims| call_requires(downstream, (c,)),
    ensures
        match request_claims(*header, config.secret@, now as int) {
            Some(c) => r matches Ok(x) && exists|d: JwtClaims| d@ == c && call_ensures(
                downstream,
                (d,),
                x,
            ),
            None => r == Err::<R, AuthError>(AuthError::Unauthorized),
        },
{
    match auth_guard(header, config, now) {
        Ok(c) => Ok(downstream(c)),
        Err(e) => Err(e),
    }
}

/// The password change: `record` is what the credential store holds under
/// `body.id`, if anything; on success the result is the record to write
/// back, with the new hash and `now` as its modification time.
pub fn change_password(record: Option<UserData>, body: &ChangePasswordBody, now: i64) -> (r:
    Result<UserData, AuthError>)
    ensures
        match record {
            Some(u) if u.id == body.id => if bcrypt_verifies(body.old_password@, u.password@) {
                match r {
                    Ok(n) => n@ == (UserView { password: n@.password, updated_at: now as int, ..u@ })
                        && bcrypt_verifies(body.new_password@, n@.password),
                    Err(e) => e == AuthError::StoreFailure,
                }
            } else {
                r == Err::<UserData, AuthError>(AuthError::PasswordMismatch)
            },
            _ => r == Err::<UserData, AuthError>(AuthError::NotFound),
        },
{
    let u = match record {
        Some(u) => u,
        None => return Err(AuthError::NotFound),
    };
    if u.id != body.id {
        return Err(AuthError::NotFound);
    }
    if !verify_password(body.old_password.as_str(), u.password.as_str()) {
        return Err(AuthError::PasswordMismatch);
    }
    match hash_password(body.new_password.as_str()) {
        Some(h) => Ok(UserData { password: h, updated_at: now, ..u }),
        None => Err(AuthError::StoreFailure),
    }
}

/// A user whose stored hash was made from the password logs in with it,
/// and the token minted then parses, until it expires, to claims of that
/// same identity with the hash scrubbed.
pub proof fn lemma_login_identity(
    u: UserView,
    claims: ClaimsView,
    token: Seq<char>,
    secret: Seq<u8>,
    now: int,
    ttl: int,
    later: int,
)
    requires
        claims.user_data == scrubbed(u),
        issued(claims, token, secret, now, ttl),
        later < now + ttl,
    ensures
        parse_spec(token, secret, later) == Some(claims),
        claims.user_data.username == u.username,
        claims.user_data.password.len() == 0,
{
    lemma_issue_parse(claims, token, secret, now, ttl, later);
}

/// Renewal keeps every profile field, scrubs the hash, and moves the expiry
/// strictly forward, to no less than `ttl` seconds from now; renewing again
/// keeps the same profile.
pub proof fn lemma_renewal(old: ClaimsView, now: int, ttl: int)
    ensures
        same_profile(renewal_of(old, now, ttl).user_data, old.user_data),
        renewal_of(old, now, ttl).user_data.password.len() == 0,
        renewal_of(old, now, ttl).exp > old.exp,
        renewal_of(old, now, ttl).exp >= now + ttl,
        renewal_of(renewal_of(old, now, ttl), now, ttl).user_data == renewal_of(
            old,
            now,
            ttl,
        ).user_data,
        old.user_data.password.len() == 0 ==> renewal_of(old, now, ttl).user_data == old.user_data,
{
    let n = renewal_of(old, now, ttl).user_data;
    assert(scrubbed(n) == scrubbed(old.user_data));
    assert(scrubbed(n) == n);
    if old.user_data.password.len() == 0 {
        assert(old.user_data.password =~= Seq::<char>::empty());
    }
}

} // verus!
