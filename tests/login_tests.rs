use backend::claims::{Claims, ExamClaims};
use backend::community::review_action;
use backend::error::AppError;
use backend::exam::{check_submission, generate_exam, open_submission, Question, SubmitExamRequest};
use backend::hash::{hash_password, hash_password_with_salt, verify_password};
use backend::jwt::{sign_exam_claims, verify_claims};
use backend::login::{authenticate, authenticate_now, Credentials};

fn bad_credentials(r: Result<String, AppError>) -> bool {
    matches!(r, Err(AppError::AuthError(m)) if m == "Invalid username or password")
}

#[test]
fn same_password_under_two_salts_gives_two_digests() {
    let a = hash_password_with_salt("password123", "c2FsdHNhbHRzYWx0MQ").unwrap();
    let b = hash_password_with_salt("password123", "c2FsdHNhbHRzYWx0Mg").unwrap();
    assert_ne!(a, b);
    assert!(a.contains("c2FsdHNhbHRzYWx0MQ"));
    assert!(a.starts_with("$argon2id$"));
    assert_ne!(a, "password123");
    assert_eq!(verify_password("password123", &a), Ok(true));
    assert_eq!(verify_password("password123", &b), Ok(true));
    assert_eq!(hash_password_with_salt("password123", "c2FsdHNhbHRzYWx0MQ").unwrap(), a);
}

#[test]
fn refused_salt_is_an_internal_error() {
    assert!(matches!(hash_password_with_salt("pw", "abc"), Err(AppError::InternalServerError(_))));
    assert!(matches!(hash_password_with_salt("pw", "bad$salt"), Err(AppError::InternalServerError(_))));
    assert!(hash_password("").is_ok());
}

fn stored(password: &str, role: &str) -> Credentials {
    Credentials { id: 12, role: role.to_string(), password_hash: hash_password(password).unwrap() }
}

#[test]
fn login_issues_a_token_for_the_right_password() {
    let user = stored("password123", "admin");
    let token = authenticate(Some(&user), "password123", "k", 100, 600).unwrap();
    let claims = verify_claims(&token, "k", 699).unwrap();
    assert_eq!(claims, Claims { sub: "12".to_string(), role: "admin".to_string(), exp: 700 });
    assert!(authenticate_now(Some(&user), "password123", "k", 600).is_ok());
}

#[test]
fn unknown_user_and_wrong_password_look_the_same() {
    let user = stored("password123", "user");
    assert!(bad_credentials(authenticate(None, "password123", "k", 0, 60)));
    assert!(bad_credentials(authenticate(Some(&user), "password124", "k", 0, 60)));
    assert!(bad_credentials(authenticate_now(None, "x", "k", 60)));
    let broken = Credentials { id: 1, role: "user".to_string(), password_hash: "plain".to_string() };
    assert!(matches!(authenticate(Some(&broken), "plain", "k", 0, 60), Err(AppError::InternalServerError(_))));
    assert!(matches!(
        authenticate(Some(&user), "password123", "k", u64::MAX, 1),
        Err(AppError::InternalServerError(_))
    ));
}

#[test]
fn unknown_contribution_type_message() {
    match review_action("approved", "post") {
        Err(AppError::BadRequest(m)) => assert_eq!(m, "Unknown type"),
        other => panic!("unexpected {:?}", other),
    }
}

#[test]
fn bad_exam_token_gives_the_exam_token_error() {
    let answers = [(1, "A".to_string())].into_iter().collect();
    let req = SubmitExamRequest { exam_token: "not.a.token".to_string(), answers };
    for r in [open_submission(&req, "k", 0), check_submission(&req, "k")] {
        match r {
            Err(AppError::BadRequest(m)) => assert_eq!(m, "invalid or expired exam token"),
            other => panic!("unexpected {:?}", other),
        }
    }
    let token = sign_exam_claims(&ExamClaims { question_ids: vec![1, 2], exp: 10 }, "k");
    let req = SubmitExamRequest { exam_token: token, answers: req.answers };
    match open_submission(&req, "k", 0) {
        Err(AppError::BadRequest(m)) => assert_eq!(m, "answer all questions"),
        other => panic!("unexpected {:?}", other),
    }
}

#[test]
fn generated_exam_hands_out_public_questions() {
    let drawn = vec![Question {
        id: 5,
        question_type: "single".to_string(),
        content: "What is dougong?".to_string(),
        options: vec!["A".to_string()],
        answer: "A".to_string(),
        analysis: None,
        created_at: Some(0),
    }];
    let exam = generate_exam(drawn, "k").unwrap();
    assert_eq!(exam.questions.len(), 1);
    assert_eq!(exam.questions[0].id, 5);
    assert_eq!(exam.expires_in, 900);
}
