use std::collections::HashMap;

use backend::claims::Claims;
use backend::community::{
    check_not_ghost, check_not_self, check_post_deletion, comment_root, post_list_limit, post_sort,
    review_action, score_paper, PostSort, ReviewAction,
};
use backend::config::{parse_u64, Config, ConfigError};
use backend::error::AppError;
use backend::hash::{hash_password, verify_password};
use backend::html::clean_html;
use backend::requests::{
    AdminUpdateUserRequest, CreateArchRequest, CreatePostRequest, CreateQuestionRequest,
    CreateUserRequest, ListParams, LoginRequest,
};
use backend::validation::{
    validate_carousel_urls, validate_contribution_type, validate_data_size, validate_options,
    validate_url_string, FieldError,
};

fn s(v: &str) -> String {
    v.to_string()
}

#[test]
fn config_defaults_and_errors() {
    let c = Config::from_vars(Some(s("postgres://db")), Some(s("k")), None, None, None, None).unwrap();
    assert_eq!(c.rust_log, "info");
    assert_eq!(c.jwt_expiration, 3600);
    assert!(!c.seeds_admin());
    let c = Config::from_vars(
        Some(s("db")),
        Some(s("k")),
        Some(s("debug")),
        Some(s("+600")),
        Some(s("root")),
        Some(s("pw")),
    )
    .unwrap();
    assert_eq!(c.jwt_expiration, 600);
    assert_eq!(c.rust_log, "debug");
    assert!(c.seeds_admin());
    assert_eq!(Config::from_vars(None, Some(s("k")), None, None, None, None), Err(ConfigError::MissingDatabaseUrl));
    assert_eq!(Config::from_vars(Some(s("db")), None, None, None, None, None), Err(ConfigError::MissingJwtSecret));
    assert_eq!(
        Config::from_vars(Some(s("db")), Some(s("k")), None, Some(s("soon")), None, None),
        Err(ConfigError::InvalidJwtExpiration)
    );
    assert_eq!(parse_u64("18446744073709551615"), Some(u64::MAX));
    assert_eq!(parse_u64("18446744073709551616"), None);
    assert_eq!(parse_u64("-1"), None);
}

#[test]
fn error_status_and_public_message() {
    let e = AppError::InternalServerError(s("db down"));
    assert_eq!(e.status_code(), 500);
    assert_eq!(e.public_message(), "Internal Server Error");
    assert_eq!(AppError::BadRequest(s("bad")).status_code(), 400);
    assert_eq!(AppError::BadRequest(s("bad")).public_message(), "bad");
    assert_eq!(AppError::AuthError(s("no")).status_code(), 401);
    assert_eq!(AppError::NotFound(s("gone")).status_code(), 404);
    assert_eq!(AppError::Conflict(s("dup")).status_code(), 409);
}

#[test]
fn password_hashing_round_trip() {
    let h1 = hash_password("password123").unwrap();
    let h2 = hash_password("password123").unwrap();
    assert_ne!(h1, h2);
    assert!(h1.starts_with("$argon2"));
    assert_eq!(verify_password("password123", &h1), Ok(true));
    assert_eq!(verify_password("password124", &h1), Ok(false));
    assert!(matches!(verify_password("password123", "not a hash"), Err(AppError::InternalServerError(_))));
}

#[test]
fn html_is_sanitised() {
    assert_eq!(clean_html("<b>ok</b><script>alert(1)</script>"), "<b>ok</b>");
    assert_eq!(clean_html("<a href=\"x\" onclick=\"evil()\">l</a>"), "<a href=\"x\" rel=\"noopener noreferrer\">l</a>");
}

#[test]
fn field_rules() {
    assert_eq!(validate_options(&[]), Err(FieldError::OptionsCannotBeEmpty));
    assert_eq!(validate_options(&[s("A"), "x".repeat(501)]), Err(FieldError::OptionTooLong));
    assert_eq!(validate_options(&[s("A"), "x".repeat(500)]), Ok(()));
    assert_eq!(validate_options(&["\u{e9}".repeat(251)]), Err(FieldError::OptionTooLong));
    assert_eq!(validate_url_string("http://img.com"), Ok(()));
    assert_eq!(validate_url_string("not a url"), Err(FieldError::InvalidUrl));
    assert_eq!(validate_carousel_urls(&[s("http://1.com"), s("nope")]), Err(FieldError::InvalidUrl));
    assert_eq!(validate_carousel_urls(&[format!("http://{}.com", "a".repeat(500))]), Err(FieldError::UrlTooLong));
    assert_eq!(validate_contribution_type("architecture"), Ok(()));
    assert_eq!(validate_contribution_type("question"), Ok(()));
    assert_eq!(validate_contribution_type("post"), Err(FieldError::InvalidContributionType));
    assert_eq!(validate_data_size(&"x".repeat(50_000)), Ok(()));
    assert_eq!(validate_data_size(&"x".repeat(50_001)), Err(FieldError::PayloadTooLarge));
    assert_eq!(FieldError::UrlTooLong.code(), "url_too_long");
}

#[test]
fn request_length_rules_count_characters() {
    assert!(CreateUserRequest { username: s("abc"), password: s("pass") }.validate().is_ok());
    assert!(CreateUserRequest { username: s("ab"), password: s("password123") }.validate().is_err());
    assert!(CreateUserRequest { username: "\u{4e2d}".repeat(50), password: s("pass") }.validate().is_ok());
    assert!(CreateUserRequest { username: "\u{4e2d}".repeat(51), password: s("pass") }.validate().is_err());
    assert!(LoginRequest { username: s("a"), password: s("") }.validate().is_err());
    assert!(CreatePostRequest { title: s("My First Post"), content: s("Hello World!") }.validate().is_ok());
    assert!(CreatePostRequest { title: s(""), content: s("x") }.validate().is_err());
    let q = CreateQuestionRequest {
        question_type: s("single"),
        content: s("What is dougong?"),
        options: vec![s("A"), s("B")],
        answer: s("A"),
        analysis: Some(s("...")),
    };
    assert!(q.validate().is_ok());
    let arch = CreateArchRequest {
        category: s("Palace"),
        name: s("Forbidden City Contribution"),
        dynasty: s("Ming"),
        location: s("Beijing"),
        description: s("Crowdsourced desc"),
        cover_img: s("http://img.com"),
        carousel_imgs: vec![s("http://1.com")],
    };
    assert!(arch.validate().is_ok());
    let bad = CreateArchRequest { cover_img: s("img"), ..arch };
    assert!(matches!(bad.validate(), Err(AppError::BadRequest(_))));
    let none = AdminUpdateUserRequest { username: None, role: None, password: None, is_verified: None };
    assert!(!none.has_changes());
    assert!(none.validate().is_ok());
    let p = ListParams { category: None, q: Some(s("gate")) };
    assert_eq!(p.search_pattern(), Some(s("%gate%")));
}

#[test]
fn community_decisions() {
    assert_eq!(post_list_limit(None), 20);
    assert_eq!(post_list_limit(Some(2)), 2);
    assert_eq!(post_list_limit(Some(500)), 100);
    assert_eq!(post_sort(Some("hot")), PostSort::Hot);
    assert_eq!(post_sort(Some("new")), PostSort::New);
    assert_eq!(post_sort(None), PostSort::New);
    let author = Claims { sub: s("5"), role: s("user"), exp: 0 };
    let admin = Claims { sub: s("1"), role: s("admin"), exp: 0 };
    assert_eq!(check_post_deletion(5, &author), Ok(()));
    assert!(matches!(check_post_deletion(6, &author), Err(AppError::AuthError(_))));
    assert_eq!(check_post_deletion(6, &admin), Ok(()));
    assert_eq!(comment_root(10, None), 10);
    assert_eq!(comment_root(10, Some(3)), 3);
    assert!(matches!(check_not_self(1, &admin), Err(AppError::BadRequest(_))));
    assert_eq!(check_not_self(2, &admin), Ok(()));
    assert!(check_not_ghost(4, 4).is_err());
    assert_eq!(review_action("approved", "architecture"), Ok(ReviewAction::InsertArchitecture));
    assert_eq!(review_action("approved", "question"), Ok(ReviewAction::InsertQuestion));
    assert_eq!(review_action("rejected", "anything"), Ok(ReviewAction::StatusOnly));
    assert!(matches!(review_action("approved", "post"), Err(AppError::BadRequest(_))));
    let mut key = HashMap::new();
    key.insert(1, s("A"));
    key.insert(2, s("B"));
    let mut answers = HashMap::new();
    answers.insert(1, s("A"));
    answers.insert(2, s("C"));
    answers.insert(3, s("A"));
    assert_eq!(score_paper(&answers, &key), (10, 1));
}
