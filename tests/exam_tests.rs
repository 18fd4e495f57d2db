use std::collections::HashMap;

use backend::claims::ExamClaims;
use backend::config::EXAM_TOKEN_TTL_SECONDS;
use backend::error::AppError;
use backend::exam::{
    calculate_score, check_answer_set, grade_answers, issue_exam, open_submission,
    record_exam_result, ExamResult, Question, Score, SubmitExamRequest,
};
use backend::gate::UserStatus;
use backend::jwt::{sign_exam_claims, verify_exam_claims};

fn percent(score: &Score) -> f64 {
    let (n, d) = score.percent_parts();
    n as f64 / d as f64
}

#[test]
fn test_calculate_score_perfect() {
    let mut user_answers = HashMap::new();
    user_answers.insert(1, "A".to_string());
    user_answers.insert(2, "B".to_string());

    let mut db_answers = HashMap::new();
    db_answers.insert(1, "A".to_string());
    db_answers.insert(2, "B".to_string());

    let (correct, score) = calculate_score(&user_answers, &db_answers);
    assert_eq!(correct, 2);
    assert_eq!(percent(&score), 100.0);
}

#[test]
fn test_calculate_score_half() {
    let mut user_answers = HashMap::new();
    user_answers.insert(1, "A".to_string());
    user_answers.insert(2, "C".to_string());

    let mut db_answers = HashMap::new();
    db_answers.insert(1, "A".to_string());
    db_answers.insert(2, "B".to_string());

    let (correct, score) = calculate_score(&user_answers, &db_answers);
    assert_eq!(correct, 1);
    assert_eq!(percent(&score), 50.0);
}

#[test]
fn test_calculate_score_pass_threshold() {
    let mut db_answers = HashMap::new();
    for i in 1..=5 {
        db_answers.insert(i, "A".to_string());
    }

    let mut user_answers = HashMap::new();
    user_answers.insert(1, "A".to_string());
    user_answers.insert(2, "A".to_string());
    user_answers.insert(3, "A".to_string());
    user_answers.insert(4, "B".to_string());
    user_answers.insert(5, "B".to_string());

    let (correct, score) = calculate_score(&user_answers, &db_answers);
    assert_eq!(correct, 3);
    assert_eq!(percent(&score), 60.0);
}

#[test]
fn test_calculate_score_zero() {
    let mut user_answers = HashMap::new();
    user_answers.insert(1, "B".to_string());

    let mut db_answers = HashMap::new();
    db_answers.insert(1, "A".to_string());

    let (correct, score) = calculate_score(&user_answers, &db_answers);
    assert_eq!(correct, 0);
    assert_eq!(percent(&score), 0.0);
}

fn answers_for(ids: &[i64], value: &str) -> HashMap<i64, String> {
    ids.iter().map(|id| (*id, value.to_string())).collect()
}

#[test]
fn answer_set_must_match_exactly() {
    let assigned = vec![1, 2, 3];
    let subset = check_answer_set(&assigned, &answers_for(&[1, 2], "A"));
    assert!(matches!(subset, Err(AppError::BadRequest(_))));
    let superset = check_answer_set(&assigned, &answers_for(&[1, 2, 3, 4], "A"));
    assert!(matches!(superset, Err(AppError::BadRequest(_))));
    assert_eq!(check_answer_set(&assigned, &answers_for(&[1, 2, 3], "A")), Ok(()));
}

#[test]
fn extra_answer_is_named_in_the_error() {
    let assigned = vec![1, 2, 3];
    match check_answer_set(&assigned, &answers_for(&[1, 2, 3, 44], "A")) {
        Err(AppError::BadRequest(msg)) => assert_eq!(msg, "question 44 is not part of this exam"),
        other => panic!("unexpected {:?}", other),
    }
    match check_answer_set(&assigned, &answers_for(&[1, 2], "A")) {
        Err(AppError::BadRequest(msg)) => assert_eq!(msg, "answer all questions"),
        other => panic!("unexpected {:?}", other),
    }
}

#[test]
fn scoring_is_inclusive_at_sixty_percent() {
    let assigned = vec![1, 2, 3, 4, 5];
    let key = answers_for(&assigned, "A");
    let mut answers = HashMap::new();
    answers.insert(1, "A".to_string());
    answers.insert(2, "A".to_string());
    answers.insert(3, "A".to_string());
    answers.insert(4, "B".to_string());
    answers.insert(5, "B".to_string());
    let result = grade_answers(&assigned, &answers, &key);
    assert_eq!(result, ExamResult { correct_count: 3, total: 5, passed: true });
    assert_eq!(percent(&result.score()), 60.0);
    assert_eq!(result.message(), "Verification successful!");
}

#[test]
fn just_below_threshold_fails() {
    let assigned = vec![1, 2, 3, 4, 5];
    let key = answers_for(&assigned, "A");
    let mut answers = answers_for(&assigned, "B");
    answers.insert(1, "A".to_string());
    answers.insert(2, "A".to_string());
    let result = grade_answers(&assigned, &answers, &key);
    assert_eq!(result.correct_count, 2);
    assert!(!result.passed);
    assert_eq!(percent(&result.score()), 40.0);
    assert_eq!(result.message(), "Score too low. Try again.");
}

#[test]
fn comparison_is_case_and_whitespace_sensitive() {
    let assigned = vec![1, 2];
    let key = answers_for(&assigned, "A");
    let mut answers = HashMap::new();
    answers.insert(1, "a".to_string());
    answers.insert(2, "A ".to_string());
    assert_eq!(grade_answers(&assigned, &answers, &key).correct_count, 0);
}

#[test]
fn zero_questions_score_zero_and_fail() {
    let result = grade_answers(&[], &HashMap::new(), &HashMap::new());
    assert_eq!(result, ExamResult { correct_count: 0, total: 0, passed: false });
    assert_eq!(result.score().percent_parts(), (0, 1));
    assert_eq!(percent(&result.score()), 0.0);
}

fn question(id: i64) -> Question {
    Question {
        id,
        question_type: "single".to_string(),
        content: format!("Question {}", id),
        options: vec!["A".to_string(), "B".to_string()],
        answer: "A".to_string(),
        analysis: Some("Analysis".to_string()),
        created_at: None,
    }
}

#[test]
fn issued_exam_hides_answers_and_fixes_ids() {
    let drawn: Vec<Question> = (1..=25).map(question).collect();
    let resp = issue_exam(drawn, "exam-secret", 1_000).unwrap();
    assert_eq!(resp.questions.len(), 20);
    assert_eq!(resp.expires_in, 900);
    assert_eq!(resp.questions[0].id, 1);
    assert_eq!(resp.questions[19].id, 20);
    assert_eq!(resp.questions[3].content, "Question 4");
    let claims = verify_exam_claims(&resp.exam_token, "exam-secret", 1_000).unwrap();
    assert_eq!(claims.question_ids, (1..=20).collect::<Vec<i64>>());
    assert_eq!(claims.exp, 1_000 + EXAM_TOKEN_TTL_SECONDS);
}

#[test]
fn small_pool_gives_a_smaller_exam() {
    let drawn: Vec<Question> = (7..=9).map(question).collect();
    let resp = issue_exam(drawn, "s", 0).unwrap();
    assert_eq!(resp.questions.len(), 3);
    let claims = verify_exam_claims(&resp.exam_token, "s", 0).unwrap();
    assert_eq!(claims.question_ids, vec![7, 8, 9]);
}

#[test]
fn exam_expiry_overflow_is_an_internal_error() {
    let resp = issue_exam(vec![question(1)], "s", u64::MAX);
    assert!(matches!(resp, Err(AppError::InternalServerError(_))));
}

#[test]
fn submission_is_checked_against_the_signed_question_set() {
    let token = sign_exam_claims(&ExamClaims { question_ids: vec![1, 2, 3], exp: 500 }, "k");
    let ok = SubmitExamRequest { exam_token: token.clone(), answers: answers_for(&[1, 2, 3], "A") };
    assert_eq!(open_submission(&ok, "k", 100), Ok(vec![1, 2, 3]));
    let short = SubmitExamRequest { exam_token: token.clone(), answers: answers_for(&[1, 2], "A") };
    assert!(matches!(open_submission(&short, "k", 100), Err(AppError::BadRequest(_))));
    let long = SubmitExamRequest { exam_token: token.clone(), answers: answers_for(&[1, 2, 3, 4], "A") };
    assert!(matches!(open_submission(&long, "k", 100), Err(AppError::BadRequest(_))));
    match open_submission(&ok, "k", 500) {
        Err(AppError::BadRequest(msg)) => assert_eq!(msg, "invalid or expired exam token"),
        other => panic!("unexpected {:?}", other),
    }
    assert!(matches!(open_submission(&ok, "other", 100), Err(AppError::BadRequest(_))));
}

#[test]
fn escalation_is_monotonic() {
    let mut status = UserStatus { is_verified: false, role: "user".to_string() };
    let fail = ExamResult { correct_count: 1, total: 5, passed: false };
    let pass = ExamResult { correct_count: 4, total: 5, passed: true };
    record_exam_result(&mut status, &fail);
    assert!(!status.is_verified);
    record_exam_result(&mut status, &pass);
    assert!(status.is_verified);
    record_exam_result(&mut status, &fail);
    assert!(status.is_verified);
    record_exam_result(&mut status, &pass);
    assert!(status.is_verified);
    assert_eq!(status.role, "user");
}
