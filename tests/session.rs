use std::cell::Cell;

use auth_session::bodies::{ChangePasswordBody, LoginBody, UserCreateBody, UserUpdateBody};
use auth_session::claims::UserData;
use auth_session::session::{
    auth_guard, authenticated, change_password, guard_then, login, strip_bearer, AuthConfig, AuthError, AuthorizationHeader, LOGIN_TTL, RENEW_TTL,
};
use auth_session::token::{issue, parse};
use auth_session::users::{new_credential, update_credential};
use auth_session::pagination::{page_offset, paginate, PaginationBody, PAGE_TAKE};

fn config() -> AuthConfig {
    AuthConfig::new(b"server-secret".to_vec())
}

fn stored_user(username: &str, password: &str) -> UserData {
    let body = UserCreateBody {
        username: username.to_string(),
        password: password.to_string(),
        full_name: "Full Name".to_string(),
        address: "Street 1".to_string(),
        phone_number: "0800".to_string(),
        role: "admin".to_string(),
        photo: "me.png".to_string(),
    };
    let mut u = new_credential(&body, 1_600_000_000).expect("hashed");
    u.id = 42;
    u
}

fn login_body(username: &str, password: &str) -> LoginBody {
    LoginBody { username: username.to_string(), password: password.to_string() }
}

fn bearer(token: &str) -> AuthorizationHeader {
    AuthorizationHeader::Text(format!("Bearer {}", token))
}

#[test]
fn new_credential_hashes_the_password() {
    let u = stored_user("carol", "pw1");
    assert_ne!(u.password, "pw1");
    assert!(u.password.starts_with("$2"));
    assert_eq!(u.created_at, 1_600_000_000);
    assert_eq!(u.updated_at, 1_600_000_000);
    assert_eq!(u.username, "carol");
}

#[test]
fn login_succeeds_and_token_carries_identity() {
    let cfg = config();
    let u = stored_user("dave", "correct horse");
    let now: u64 = 1_700_000_000;
    let s = login(Some(u.clone()), &login_body("dave", "correct horse"), &cfg, now).expect("login");
    assert_eq!(s.claims.user_data.username, "dave");
    assert_eq!(s.claims.user_data.id, 42);
    assert_eq!(s.claims.user_data.password, "");
    assert_eq!(s.claims.exp as u64, now + LOGIN_TTL as u64);
    let back = parse(&s.token, &cfg.secret, now + 10).expect("parses");
    assert_eq!(back.user_data.username, "dave");
    assert_eq!(back.user_data.password, "");
}

#[test]
fn login_then_guard_lets_through() {
    let cfg = config();
    let u = stored_user("erin", "pw");
    let s = login(Some(u), &login_body("erin", "pw"), &cfg, 500).expect("login");
    let back = auth_guard(&bearer(&s.token), &cfg, 600).expect("guard lets it through");
    assert_eq!(back.user_data.username, "erin");
}

#[test]
fn wrong_password_and_unknown_user_look_the_same() {
    let cfg = config();
    let u = stored_user("frank", "right");
    let wrong = login(Some(u.clone()), &login_body("frank", "wrong"), &cfg, 5).err().unwrap();
    let unknown = login(None, &login_body("nobody", "right"), &cfg, 5).err().unwrap();
    let other_name = login(Some(u), &login_body("frankie", "right"), &cfg, 5).err().unwrap();
    assert_eq!(wrong, AuthError::InvalidCredentials);
    assert_eq!(unknown, AuthError::InvalidCredentials);
    assert_eq!(other_name, AuthError::InvalidCredentials);
    assert_eq!(wrong.status(), unknown.status());
    assert_eq!(wrong.message(), unknown.message());
    assert_eq!(wrong.status(), 401);
}

#[test]
fn malformed_stored_hash_fails_closed() {
    let cfg = config();
    let mut u = stored_user("gina", "pw");
    u.password = "not-a-hash".to_string();
    assert_eq!(
        login(Some(u), &login_body("gina", "pw"), &cfg, 5).err(),
        Some(AuthError::InvalidCredentials)
    );
}

#[test]
fn renewal_keeps_profile_and_extends_expiry() {
    let cfg = config();
    let u = stored_user("hank", "pw");
    let t0: u64 = 1_700_000_000;
    let s = login(Some(u), &login_body("hank", "pw"), &cfg, t0).expect("login");
    let t1 = t0 + 60;
    let r = authenticated(&bearer(&s.token), &cfg, t1).expect("renewed");
    let (a, b) = (&s.claims.user_data, &r.claims.user_data);
    assert_eq!(a.id, b.id);
    assert_eq!(a.username, b.username);
    assert_eq!(a.password, b.password);
    assert_eq!(a.full_name, b.full_name);
    assert_eq!(a.address, b.address);
    assert_eq!(a.phone_number, b.phone_number);
    assert_eq!(a.role, b.role);
    assert_eq!(a.photo, b.photo);
    assert_eq!(a.created_at, b.created_at);
    assert_eq!(a.updated_at, b.updated_at);
    assert_eq!(r.claims.exp as u64, t1 + RENEW_TTL as u64);
    assert!(r.claims.exp > s.claims.exp);
    let back = parse(&r.token, &cfg.secret, t1).expect("renewed token parses");
    assert_eq!(back.exp, r.claims.exp);
}

#[test]
fn renewal_and_its_failures() {
    let cfg = config();
    let u = stored_user("ivy", "pw");
    let s = login(Some(u), &login_body("ivy", "pw"), &cfg, 500).expect("login");
    let r = authenticated(&bearer(&s.token), &cfg, 700).expect("renewed");
    assert!(r.claims.exp >= s.claims.exp);
    for h in [
        AuthorizationHeader::Absent,
        AuthorizationHeader::Unreadable,
        AuthorizationHeader::Text(s.token.clone()),
        AuthorizationHeader::Text(format!("bearer {}", s.token)),
        bearer("garbage"),
    ] {
        assert_eq!(authenticated(&h, &cfg, 700).err(), Some(AuthError::InvalidCredentials));
    }
}

#[test]
fn password_change_scenario() {
    let cfg = config();
    let u = stored_user("jack", "oldpw");
    let body = ChangePasswordBody {
        id: 42,
        old_password: "oldpw".to_string(),
        new_password: "newpw".to_string(),
    };
    let changed = change_password(Some(u.clone()), &body, 1_700_000_123).expect("changed");
    assert_eq!(changed.updated_at, 1_700_000_123);
    assert_eq!(changed.created_at, u.created_at);
    assert_eq!(changed.username, u.username);
    assert_ne!(changed.password, u.password);
    assert!(login(Some(changed.clone()), &login_body("jack", "newpw"), &cfg, 9).is_ok());
    assert_eq!(
        login(Some(changed), &login_body("jack", "oldpw"), &cfg, 9).err(),
        Some(AuthError::InvalidCredentials)
    );
}

#[test]
fn password_change_with_wrong_current_password() {
    let u = stored_user("kate", "oldpw");
    let stored_hash = u.password.clone();
    let body = ChangePasswordBody {
        id: 42,
        old_password: "guess".to_string(),
        new_password: "newpw".to_string(),
    };
    let e = change_password(Some(u.clone()), &body, 1).err().unwrap();
    assert_eq!(e, AuthError::PasswordMismatch);
    assert_eq!(e.status(), 400);
    assert_eq!(u.password, stored_hash);
}

#[test]
fn password_change_for_unknown_user() {
    let body = ChangePasswordBody {
        id: 3,
        old_password: "a".to_string(),
        new_password: "b".to_string(),
    };
    let e = change_password(None, &body, 1).err().unwrap();
    assert_eq!(e, AuthError::NotFound);
    assert_eq!(e.status(), 404);
    let u = stored_user("lena", "a");
    assert_eq!(change_password(Some(u), &body, 1).err(), Some(AuthError::NotFound));
}

#[test]
fn guard_without_header_never_reaches_downstream() {
    let cfg = config();
    let calls = Cell::new(0u32);
    let downstream = |_: &auth_session::claims::JwtClaims| calls.set(calls.get() + 1);
    for h in [
        AuthorizationHeader::Absent,
        AuthorizationHeader::Unreadable,
        AuthorizationHeader::Text("Basic abc".to_string()),
        bearer("not.a.token"),
    ] {
        match auth_guard(&h, &cfg, 100) {
            Ok(c) => downstream(&c),
            Err(e) => {
                assert_eq!(e, AuthError::Unauthorized);
                assert_eq!(e.status(), 401);
            },
        }
    }
    assert_eq!(calls.get(), 0);
}

#[test]
fn guard_forwards_valid_token_and_rejects_expired() {
    let cfg = config();
    let u = stored_user("mike", "pw");
    let (claims, token) = issue(&u, &cfg.secret, 50, 1000).expect("issued");
    let c = auth_guard(&bearer(&token), &cfg, 1049).expect("valid");
    assert_eq!(c.user_data.username, "mike");
    assert_eq!(c.exp, claims.exp);
    assert_eq!(auth_guard(&bearer(&token), &cfg, 1050).err(), Some(AuthError::Unauthorized));
}

#[test]
fn bearer_prefix() {
    assert_eq!(strip_bearer("Bearer abc"), Some("abc"));
    assert_eq!(strip_bearer("Bearer "), Some(""));
    assert_eq!(strip_bearer("Bearer"), None);
    assert_eq!(strip_bearer("bearer abc"), None);
    assert_eq!(strip_bearer("Token abc"), None);
}

#[test]
fn error_statuses() {
    assert_eq!(AuthError::InvalidCredentials.status(), 401);
    assert_eq!(AuthError::Unauthorized.status(), 401);
    assert_eq!(AuthError::PasswordMismatch.status(), 400);
    assert_eq!(AuthError::NotFound.status(), 404);
    assert_eq!(AuthError::StoreFailure.status(), 500);
    assert_eq!(AuthError::UpdateFailed.status(), 400);
    assert_eq!(AuthError::Internal.status(), 500);
}

#[test]
fn user_update_keeps_absent_fields_and_rehashes_new_password() {
    let u = stored_user("nina", "pw");
    let body = UserUpdateBody {
        username: None,
        password: Some("other".to_string()),
        full_name: Some("Nina N".to_string()),
        address: None,
        phone_number: None,
        role: None,
        photo: None,
    };
    let n = update_credential(&u, &body, 77).expect("updated");
    assert_eq!(n.username, "nina");
    assert_eq!(n.full_name, "Nina N");
    assert_eq!(n.address, u.address);
    assert_eq!(n.updated_at, 77);
    assert_ne!(n.password, u.password);
    let cfg = config();
    assert!(login(Some(n), &login_body("nina", "other"), &cfg, 1).is_ok());
}

#[test]
fn user_update_with_same_password_keeps_hash() {
    let u = stored_user("omar", "pw");
    let body = UserUpdateBody {
        username: Some("omar2".to_string()),
        password: Some("pw".to_string()),
        full_name: None,
        address: None,
        phone_number: None,
        role: None,
        photo: None,
    };
    let n = update_credential(&u, &body, 78).expect("updated");
    assert_eq!(n.password, u.password);
    assert_eq!(n.username, "omar2");
}

#[test]
fn pagination() {
    let body = PaginationBody { term: "x".to_string(), page: 3 };
    let cases = [(0u64, 0i64), (1, 1), (9, 1), (10, 1), (11, 2), (20, 2), (21, 3), (95, 10)];
    for (count, pages) in cases {
        let r = paginate(&body, count);
        assert_eq!(r.total_page, pages);
        assert_eq!(r.per_page, PAGE_TAKE);
        assert_eq!(r.count, count as i64);
        assert_eq!(r.current_page, 3);
    }
    assert_eq!(page_offset(1), Some(0));
    assert_eq!(page_offset(3), Some(20));
    assert_eq!(page_offset(0), Some(0));
    assert_eq!(page_offset(-4), Some(0));
    assert_eq!(page_offset(i64::MAX), None);
}

#[test]
fn downstream_runs_only_behind_a_valid_token() {
    let cfg = config();
    let calls = Cell::new(0u32);
    for h in [AuthorizationHeader::Absent, AuthorizationHeader::Unreadable, bearer("x.y.z")] {
        let r = guard_then(&h, &cfg, 100, |_c| {
            calls.set(calls.get() + 1);
            "handled"
        });
        assert_eq!(r.err(), Some(AuthError::Unauthorized));
    }
    assert_eq!(calls.get(), 0);
    let u = stored_user("pia", "pw");
    let (_, token) = issue(&u, &cfg.secret, 50, 100).expect("issued");
    let r = guard_then(&bearer(&token), &cfg, 120, |c| {
        calls.set(calls.get() + 1);
        c.user_data.username
    });
    assert_eq!(r.ok(), Some("pia".to_string()));
    assert_eq!(calls.get(), 1);
}

#[test]
fn error_messages() {
    assert_eq!(AuthError::InvalidCredentials.message(), "INVALID USERNAME / PASSWORD");
    assert_eq!(AuthError::Unauthorized.message(), "Unauthorized");
    assert_eq!(AuthError::PasswordMismatch.message(), "Old password didn't match");
    assert_eq!(AuthError::NotFound.message(), "User not found");
    assert_eq!(AuthError::StoreFailure.message(), "Server error");
    assert_eq!(AuthError::UpdateFailed.message(), "Request Failed.");
    assert_eq!(AuthError::Internal.message(), "Internal error");
}

#[test]
fn renewal_in_the_same_second_still_moves_expiry_forward() {
    let cfg = config();
    let u = stored_user("quinn", "pw");
    let t0: u64 = 1_700_000_000;
    let s = login(Some(u), &login_body("quinn", "pw"), &cfg, t0).expect("login");
    let r1 = authenticated(&bearer(&s.token), &cfg, t0).expect("renewed");
    let r2 = authenticated(&bearer(&r1.token), &cfg, t0).expect("renewed again");
    assert_eq!(r1.claims.exp as u64, t0 + RENEW_TTL as u64);
    assert_eq!(r2.claims.exp, r1.claims.exp + 1);
    assert_eq!(r2.claims.user_data.username, "quinn");
    assert_eq!(r2.claims.user_data.password, "");
}

#[test]
fn login_with_unrepresentable_expiry_is_internal() {
    let mut cfg = config();
    cfg.login_ttl = -10;
    let u = stored_user("rhea", "pw");
    assert_eq!(
        login(Some(u), &login_body("rhea", "pw"), &cfg, 5).err(),
        Some(AuthError::Internal)
    );
}
