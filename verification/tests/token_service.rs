use service_core::codec::{num_to_fixed, parse_fixed};
use service_core::roles::Role;
use service_core::token::{AuthError, Claims, TokenService, claims_payload, parse_claims};

fn service() -> TokenService {
    TokenService::new(b"my secret".to_vec())
}

#[test]
fn numerals_write_fixed_width() {
    assert_eq!(num_to_fixed(42, 20), "00000000000000000042");
    assert_eq!(num_to_fixed(0, 20), "00000000000000000000");
    assert_eq!(num_to_fixed(u64::MAX, 20), "18446744073709551615");
}

#[test]
fn numerals_read_back() {
    assert_eq!(parse_fixed("00000000000000000042", 0), Some(42));
    assert_eq!(parse_fixed("18446744073709551615", 0), Some(u64::MAX));
    // one past u64::MAX is refused
    assert_eq!(parse_fixed("18446744073709551616", 0), None);
    // a non-digit is refused
    assert_eq!(parse_fixed("0000000000000000004x", 0), None);
    // reading starts at the given offset
    assert_eq!(parse_fixed("xx00000000000000000007", 2), Some(7));
}

#[test]
fn payload_round_trip() {
    let claims = Claims {
        subject: "alice".to_string(),
        role: "Admin".to_string(),
        exp: 123456,
    };
    let payload = claims_payload(&claims);
    let back = parse_claims(payload.as_str()).expect("payload parses");
    assert_eq!(back.subject, "alice");
    assert_eq!(back.role, "Admin");
    assert_eq!(back.exp, 123456);
}

#[test]
fn payload_with_awkward_subject_round_trips() {
    let claims = Claims {
        subject: "a.b:c/d {e}".to_string(),
        role: "".to_string(),
        exp: 0,
    };
    let payload = claims_payload(&claims);
    let back = parse_claims(payload.as_str()).expect("payload parses");
    assert_eq!(back.subject, "a.b:c/d {e}");
    assert_eq!(back.role, "");
    assert_eq!(back.exp, 0);
}

#[test]
fn junk_payloads_are_refused() {
    assert!(parse_claims("").is_none());
    assert!(parse_claims("not a payload").is_none());
    assert!(parse_claims("00000000000000000000").is_none());
    // length numeral larger than the text it prefixes
    let mut s = String::from("00000000000000000099");
    s.push_str("short");
    assert!(parse_claims(s.as_str()).is_none());
}

#[test]
fn issue_validate_round_trip() {
    // the round trip of the token service: what was issued comes back
    let ts = service();
    let token = ts.issue("alice", Role::Admin, 100, 1000);
    let claims = ts.validate(&token, 1050).expect("valid before expiry");
    assert_eq!(claims.subject, "alice");
    assert_eq!(claims.role, "Admin");
    assert_eq!(claims.exp, 1100);
}

#[test]
fn expired_token_fails_with_expired() {
    let ts = service();
    let token = ts.issue("alice", Role::User, 100, 1000);
    assert_eq!(ts.validate(&token, 1100), Err(AuthError::Expired));
    assert_eq!(ts.validate(&token, 5000), Err(AuthError::Expired));
}

#[test]
fn expired_wins_over_bad_signature() {
    // an expired payload fails with Expired no matter the signature
    let ts = service();
    let token = ts.issue("alice", Role::User, 100, 1000);
    let mut tampered = token;
    let last = tampered.raw.pop().expect("token is not empty");
    tampered.raw.push(if last == 'A' { 'B' } else { 'A' });
    assert_eq!(ts.validate(&tampered, 9999), Err(AuthError::Expired));
}

#[test]
fn tampered_signature_is_malformed() {
    let ts = service();
    let token = ts.issue("alice", Role::Admin, 1000, 1000);
    let mut tampered = token;
    let last = tampered.raw.pop().expect("token is not empty");
    tampered.raw.push(if last == 'A' { 'B' } else { 'A' });
    assert_eq!(ts.validate(&tampered, 1100), Err(AuthError::Malformed));
}

#[test]
fn token_under_other_key_is_malformed() {
    let ts = service();
    let other = TokenService::new(b"another secret".to_vec());
    let token = other.issue("alice", Role::Admin, 1000, 1000);
    assert_eq!(ts.validate(&token, 1100), Err(AuthError::Malformed));
}

#[test]
fn garbage_tokens_are_malformed() {
    let ts = service();
    for raw in ["", "garbage", "a.b", "....", "00000000000000000000."] {
        let token = service_core::token::Token { raw: raw.to_string() };
        assert_eq!(ts.validate(&token, 0), Err(AuthError::Malformed));
    }
}

#[test]
fn signature_depends_on_the_payload() {
    // two different subjects give two different tokens under one key
    let ts = service();
    let t1 = ts.issue("alice", Role::Admin, 100, 1000);
    let t2 = ts.issue("bob", Role::Admin, 100, 1000);
    assert_ne!(t1.raw, t2.raw);
    let sig1 = t1.raw.rsplit('.').next().unwrap().to_string();
    let sig2 = t2.raw.rsplit('.').next().unwrap().to_string();
    assert_ne!(sig1, sig2);
    assert!(!sig1.is_empty());
}
