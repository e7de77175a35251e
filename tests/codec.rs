use auth_session::claims::{JwtClaims, UserData};
use auth_session::json::{claims_json, read_claims};
use auth_session::token::{issue, parse, TokenError};

fn sample_user() -> UserData {
    UserData {
        id: 7,
        username: "alice".to_string(),
        password: String::new(),
        full_name: "Alice \"Al\" Smith".to_string(),
        address: "Line 1\nLine 2\\end".to_string(),
        phone_number: "+62 811".to_string(),
        role: "admin".to_string(),
        photo: "héllo-ü.png".to_string(),
        created_at: -5,
        updated_at: 1700000000,
    }
}

fn same_user(a: &UserData, b: &UserData) -> bool {
    a.id == b.id
        && a.username == b.username
        && a.password == b.password
        && a.full_name == b.full_name
        && a.address == b.address
        && a.phone_number == b.phone_number
        && a.role == b.role
        && a.photo == b.photo
        && a.created_at == b.created_at
        && a.updated_at == b.updated_at
}

#[test]
fn claims_text_is_exact() {
    let c = JwtClaims {
        user_data: UserData {
            id: 1,
            username: "bob".to_string(),
            password: String::new(),
            full_name: "B\u{1}".to_string(),
            address: String::new(),
            phone_number: String::new(),
            role: "user".to_string(),
            photo: String::new(),
            created_at: 0,
            updated_at: -12,
        },
        exp: 360000,
    };
    assert_eq!(
        claims_json(&c),
        "{\"user_data\":{\"id\":1,\"username\":\"bob\",\"password\":\"\",\"full_name\":\"B\\u0001\",\"address\":\"\",\"phone_number\":\"\",\"role\":\"user\",\"photo\":\"\",\"created_at\":0,\"updated_at\":-12},\"exp\":360000}"
    );
}

#[test]
fn claims_text_reads_back() {
    let c = JwtClaims { user_data: sample_user(), exp: 1234567890 };
    let text = claims_json(&c);
    let back = read_claims(&text).expect("reads back");
    assert!(same_user(&back.user_data, &c.user_data));
    assert_eq!(back.exp, c.exp);
}

#[test]
fn claims_text_extremes_read_back() {
    let mut u = sample_user();
    u.id = i32::MIN;
    u.created_at = i64::MIN;
    u.updated_at = i64::MAX;
    let c = JwtClaims { user_data: u, exp: usize::MAX };
    let back = read_claims(&claims_json(&c)).expect("reads back");
    assert!(same_user(&back.user_data, &c.user_data));
    assert_eq!(back.exp, usize::MAX);
}

#[test]
fn reader_rejects_other_texts() {
    let c = JwtClaims { user_data: sample_user(), exp: 99 };
    let text = claims_json(&c);
    assert!(read_claims(&format!("{} ", text)).is_none());
    assert!(read_claims(&format!(" {}", text)).is_none());
    assert!(read_claims(&text.replace("\"exp\":99", "\"exp\":099")).is_none());
    assert!(read_claims(&text.replace("\"exp\":99", "\"exp\":-1")).is_none());
    assert!(read_claims(&text.replace("\"id\":7", "\"id\":-0")).is_none());
    assert!(read_claims(&text.replace("\"id\":7", "\"id\":2147483648")).is_none());
    assert!(read_claims(&text.replace("\"role\"", "\"rôle\"")).is_none());
    assert!(read_claims("").is_none());
    assert!(read_claims("{}").is_none());
}

#[test]
fn token_round_trip_before_expiry() {
    let secret = b"s3cret-key";
    let user = sample_user();
    let now: u64 = 1_700_000_000;
    let (claims, token) = issue(&user, secret, 3600, now).expect("issued");
    assert_eq!(claims.exp, 1_700_003_600);
    for later in [now, now + 1, now + 3599] {
        let back = parse(&token, secret, later).expect("valid until expiry");
        assert!(same_user(&back.user_data, &user));
        assert_eq!(back.exp, claims.exp);
    }
    assert_eq!(parse(&token, secret, now + 3600).err(), Some(TokenError::Rejected));
}

#[test]
fn token_with_negative_ttl_is_rejected() {
    let secret = b"s3cret-key";
    let now: u64 = 1_700_000_000;
    let (_, token) = issue(&sample_user(), secret, -1, now).expect("issued");
    assert_eq!(parse(&token, secret, now).err(), Some(TokenError::Rejected));
    assert_eq!(parse(&token, secret, now - 1).ok().map(|c| c.exp as u64), None);
}

#[test]
fn expiry_out_of_range_is_not_issued() {
    let user = sample_user();
    assert_eq!(issue(&user, b"k", -10, 5).err(), Some(TokenError::NotIssued));
}

#[test]
fn token_under_other_secret_is_rejected() {
    let (_, token) = issue(&sample_user(), b"first", 100, 10).expect("issued");
    assert_eq!(parse(&token, b"second", 10).err(), Some(TokenError::Rejected));
}

#[test]
fn every_single_bit_flip_is_rejected() {
    let secret = b"tamper-test";
    let now: u64 = 1_000;
    let (_, token) = issue(&sample_user(), secret, 100, now).expect("issued");
    let bytes = token.as_bytes();
    for i in 0..bytes.len() {
        for bit in 0..7 {
            let mut flipped = bytes.to_vec();
            flipped[i] ^= 1 << bit;
            let text = String::from_utf8(flipped).expect("ascii stays ascii");
            assert_eq!(
                parse(&text, secret, now).err(),
                Some(TokenError::Rejected),
                "flip of bit {} at {}",
                bit,
                i
            );
        }
    }
}

#[test]
fn garbage_tokens_are_rejected() {
    for t in ["", "abc", "a.b.c", "..", "Bearer x"] {
        assert_eq!(parse(t, b"k", 0).err(), Some(TokenError::Rejected));
    }
}
