use backend::claims::{Claims, ExamClaims};
use backend::error::AppError;
use backend::jwt::{
    bearer_token_of, claims_from_header, int_text, issue_login_token, parse_i64, sign_claims,
    sign_exam_claims, sign_jwt, user_id_of, verify_claims, verify_exam_claims, verify_jwt,
};

fn claims(exp: u64) -> Claims {
    Claims { sub: "42".to_string(), role: "user".to_string(), exp }
}

#[test]
fn round_trip_returns_the_claims() {
    let c = Claims { sub: "7".to_string(), role: "admin".to_string(), exp: 2_000 };
    let token = sign_claims(&c, "secret");
    assert_eq!(verify_claims(&token, "secret", 1_999), Ok(c));
}

#[test]
fn round_trip_with_escaped_text() {
    let c = Claims { sub: "a\"b\\c".to_string(), role: "r\u{1}\u{e9}\u{4e2d}".to_string(), exp: 9 };
    let token = sign_claims(&c, "secret");
    assert_eq!(verify_claims(&token, "secret", 0), Ok(c));
}

#[test]
fn token_has_the_standard_layout() {
    let token = sign_claims(&claims(1_700_000_000), "secret");
    let parts: Vec<&str> = token.split('.').collect();
    assert_eq!(parts.len(), 3);
    assert_eq!(parts[0], "eyJ0eXAiOiJKV1QiLCJhbGciOiJIUzI1NiJ9");
    // {"sub":"42","role":"user","exp":1700000000}
    assert_eq!(parts[1], "eyJzdWIiOiI0MiIsInJvbGUiOiJ1c2VyIiwiZXhwIjoxNzAwMDAwMDAwfQ");
    assert_eq!(parts[2].len(), 43);
}

#[test]
fn expired_token_is_rejected() {
    let token = sign_claims(&claims(1_000), "secret");
    match verify_claims(&token, "secret", 1_000) {
        Err(AppError::AuthError(msg)) => assert_eq!(msg, "Invalid token"),
        other => panic!("unexpected {:?}", other),
    }
    assert!(verify_claims(&token, "secret", 5_000).is_err());
    assert!(verify_claims(&token, "secret", 999).is_ok());
}

#[test]
fn tampered_payload_is_rejected() {
    let token = sign_claims(&claims(10_000), "secret");
    let dot = token.find('.').unwrap();
    let mut bytes = token.clone().into_bytes();
    for i in (dot + 1)..(dot + 10) {
        let mut changed = bytes.clone();
        changed[i] = if changed[i] == b'A' { b'B' } else { b'A' };
        let t = String::from_utf8(changed).unwrap();
        assert!(verify_claims(&t, "secret", 0).is_err());
    }
    bytes[dot + 1] ^= 1;
    assert!(verify_claims(&String::from_utf8(bytes).unwrap(), "secret", 0).is_err());
}

#[test]
fn wrong_secret_is_rejected() {
    let token = sign_claims(&claims(10_000), "secret-a");
    assert!(verify_claims(&token, "secret-b", 0).is_err());
    assert!(verify_claims(&token, "secret-a", 0).is_ok());
}

#[test]
fn malformed_tokens_are_rejected() {
    for t in ["", "abc", "a.b", "a.b.c.d", "...", "é.é.é"] {
        assert!(verify_claims(t, "secret", 0).is_err());
    }
}

#[test]
fn exam_token_round_trip() {
    let c = ExamClaims { question_ids: vec![3, -1, 9_223_372_036_854_775_807, i64::MIN], exp: 77 };
    let token = sign_exam_claims(&c, "k");
    assert_eq!(verify_exam_claims(&token, "k", 76), Ok(c.clone()));
    assert!(verify_exam_claims(&token, "k", 77).is_err());
    let empty = ExamClaims { question_ids: vec![], exp: 5 };
    assert_eq!(verify_exam_claims(&sign_exam_claims(&empty, "k"), "k", 0), Ok(empty));
}

#[test]
fn login_token_is_not_an_exam_token() {
    let token = sign_claims(&claims(100), "k");
    assert!(verify_exam_claims(&token, "k", 0).is_err());
    let exam = sign_exam_claims(&ExamClaims { question_ids: vec![1], exp: 100 }, "k");
    assert!(verify_claims(&exam, "k", 0).is_err());
}

#[test]
fn issued_token_carries_id_role_and_expiry() {
    let token = issue_login_token(-15, "admin", "k", 100, 3_600).unwrap();
    let c = verify_claims(&token, "k", 3_699).unwrap();
    assert_eq!(c, Claims { sub: "-15".to_string(), role: "admin".to_string(), exp: 3_700 });
    assert!(matches!(
        issue_login_token(1, "user", "k", u64::MAX, 1),
        Err(AppError::InternalServerError(_))
    ));
}

#[test]
fn current_time_sign_and_verify() {
    let token = sign_jwt(5, "alice", "user", "k", 600).unwrap();
    let c = verify_jwt(&token, "k").unwrap();
    assert_eq!(c.sub, "5");
    assert_eq!(c.role, "user");
    assert!(verify_jwt(&token, "other").is_err());
}

#[test]
fn bearer_prefix_is_case_sensitive() {
    assert_eq!(bearer_token_of("Bearer abc"), Some("abc"));
    assert_eq!(bearer_token_of("Bearer "), Some(""));
    assert_eq!(bearer_token_of("bearer abc"), None);
    assert_eq!(bearer_token_of("Bearerabc"), None);
    assert_eq!(bearer_token_of("Basic abc"), None);
}

#[test]
fn header_resolution() {
    let token = sign_claims(&claims(1_000), "k");
    let header = format!("Bearer {}", token);
    assert_eq!(claims_from_header(Some(&header), "k", 10), Some(claims(1_000)));
    assert_eq!(claims_from_header(None, "k", 10), None);
    assert_eq!(claims_from_header(Some(&token), "k", 10), None);
    assert_eq!(claims_from_header(Some(&header), "k", 1_000), None);
}

#[test]
fn integer_text_and_parsing() {
    assert_eq!(int_text(0), "0");
    assert_eq!(int_text(-9_223_372_036_854_775_808), "-9223372036854775808");
    assert_eq!(parse_i64("42"), Some(42));
    assert_eq!(parse_i64("+42"), Some(42));
    assert_eq!(parse_i64("-9223372036854775808"), Some(i64::MIN));
    assert_eq!(parse_i64("9223372036854775808"), None);
    assert_eq!(parse_i64(""), None);
    assert_eq!(parse_i64("-"), None);
    assert_eq!(parse_i64("4a"), None);
    assert_eq!(user_id_of(&claims(0)), 42);
    let odd = Claims { sub: "x".to_string(), role: "user".to_string(), exp: 0 };
    assert_eq!(user_id_of(&odd), 0);
}
