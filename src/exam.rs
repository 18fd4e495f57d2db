//! The qualification exam: what is handed out, how a submission is checked
//! against the signed question set, how it is scored, and what a pass changes.
use vstd::prelude::*;
use std::collections::HashMap;
use crate::error::AppError;
use crate::config::{EXAM_QUESTION_COUNT, EXAM_TOKEN_TTL_SECONDS, PASSING_SCORE_PERCENTAGE};
use crate::claims::{ExamClaims, ExamModel};
use crate::gate::UserStatus;
use crate::jwt::{exam_verdict, is_invalid_exam_token, unix_now, id_text, int_text, issued_exam, key_of, sign_exam_claims, verify_exam_claims};
use crate::token::token_text;
use crate::claims::exam_payload;
use vstd::std_specs::iter::IteratorSpec;

verus! {

broadcast use vstd::std_specs::hash::group_hash_axioms;

/// Whether `v` holds `x`.
pub fn contains_id(v: &[i64], x: i64) -> (r: bool)
    ensures
        r == v@.contains(x),
{
    let mut i: usize = 0;
    while i < v.len()
        invariant
            i <= v.len(),
            forall|j: int| 0 <= j < i ==> v@[j] != x,
        decreases v.len() - i,
    {
        if v[i] == x {
            return true;
        }
        i = i + 1;
    }
    false
}

/// The submitted question ids all belong to `assigned`, and there are at
/// least as many answers as assigned questions.
pub open spec fn answer_set_ok(assigned: Seq<i64>, answers: Map<i64, String>) -> bool {
    &&& forall|k: i64| #[trigger] answers.contains_key(k) ==> assigned.contains(k)
    &&& answers.len() >= assigned.len()
}

pub open spec fn answer_set_ok_ids(assigned: Seq<i64>, answers: Map<i64, String>) -> bool {
    forall|k: i64| #[trigger] answers.contains_key(k) ==> assigned.contains(k)
}

/// The error for a submission whose answers do not cover the assigned
/// questions exactly: it names an answered id that was not assigned, or asks
/// for the missing answers.
pub open spec fn answer_set_error(assigned: Seq<i64>, answers: Map<i64, String>, e: AppError) -> bool {
    e matches AppError::BadRequest(m) && ((exists|k: i64|
        #![trigger answers.contains_key(k)]
        answers.contains_key(k) && !assigned.contains(k) && m@ == "question "@ + id_text(k as int)
            + " is not part of this exam"@) || (answer_set_ok_ids(assigned, answers) && m@
        == "answer all questions"@))
}

/// Checks a submitted answer map against the assigned question set: an id
/// that was not assigned and a missing answer are both a `BadRequest`.
pub fn check_answer_set(assigned: &[i64], answers: &HashMap<i64, String>) -> (r: Result<(), AppError>)
    ensures
        r is Ok <==> answer_set_ok(assigned@, answers@),
        r matches Err(e) ==> answer_set_error(assigned@, answers@, e),
{
    let ghost pairs = vstd::std_specs::hash::spec_hash_map_iter(answers).remaining();
    for pair in it: answers.iter()
        invariant
            it.seq() == pairs,
            forall|j: int| 0 <= j < it.index() ==> assigned@.contains(*it.seq()[j].0),
    {
        let (k, _v) = pair;
        if !contains_id(assigned, *k) {
            assert(answers@.contains_key(*k));
            let mut msg = String::from_str("question ");
            msg.append(int_text(*k).as_str());
            msg.append(" is not part of this exam");
            return Err(AppError::BadRequest(msg));
        }
    }
    assert forall|k: i64| #[trigger] answers@.contains_key(k) implies assigned@.contains(k) by {
        assert(pairs.contains((&k, &answers@[k])));
        let j = choose|j: int| 0 <= j < pairs.len() && pairs[j] == (&k, &answers@[k]);
        assert(*pairs[j].0 == k);
    }
    if answers.len() < assigned.len() {
        return Err(AppError::BadRequest(String::from_str("answer all questions")));
    }
    Ok(())
}

/// The ids answered exactly (case- and whitespace-sensitive) as the key says.
pub open spec fn correct_ids(answers: Map<i64, String>, key: Map<i64, String>) -> Set<i64> {
    answers.dom().filter(|k: i64| is_correct(answers, key, k))
}

pub open spec fn is_correct(answers: Map<i64, String>, key: Map<i64, String>, k: i64) -> bool {
    key.contains_key(k) && key[k]@ == answers[k]@
}

/// A score as a fraction: `correct` right out of `total`.
#[derive(Debug, Clone, Copy, PartialEq, Eq)]
pub struct Score {
    pub correct: usize,
    pub total: usize,
}

impl Score {
    /// The percentage as numerator and denominator: `100 * correct / total`,
    /// and `0 / 1` when there are no questions.
    pub fn percent_parts(&self) -> (r: (u128, u128))
        ensures
            self.total == 0 ==> r == (0u128, 1u128),
            self.total > 0 ==> r == ((100 * self.correct) as u128, self.total as u128),
    {
        if self.total == 0 {
            (0, 1)
        } else {
            (100 * (self.correct as u128), self.total as u128)
        }
    }

    pub open spec fn spec_passes(self) -> bool {
        self.total > 0 && 100 * self.correct >= PASSING_SCORE_PERCENTAGE * self.total
    }

    /// At least the passing percentage, inclusive; never with no questions.
    pub fn passes(&self) -> (r: bool)
        ensures
            r == self.spec_passes(),
    {
        self.total > 0 && 100 * (self.correct as u128) >= (PASSING_SCORE_PERCENTAGE as u128) * (
        self.total as u128)
    }
}

/// Counts the submitted answers that match the key; the total is the size of the key.
pub fn calculate_score(user_answers: &HashMap<i64, String>, db_answers: &HashMap<i64, String>) -> (r: (
    usize,
    Score,
))
    ensures
        r.0 == correct_ids(user_answers@, db_answers@).len(),
        r.1 == (Score { correct: r.0, total: db_answers@.len() as usize }),
{
    let total = db_answers.len();
    let ghost pairs = vstd::std_specs::hash::spec_hash_map_iter(user_answers).remaining();
    let ghost mut seen: Set<i64> = Set::empty();
    let ghost mut idx: int = 0;
    let mut count: usize = 0;
    let n = user_answers.len();
    assert(seen.filter(|x: i64| is_correct(user_answers@, db_answers@, x)) =~= Set::<i64>::empty());
    for pair in it: user_answers.iter()
        invariant
            it.seq() == pairs,
            idx == it.index(),
            pairs.len() == user_answers@.len(),
            pairs.len() == n,
            pairs.no_duplicates(),
            seen.finite(),
            forall|x: i64| #[trigger]
                seen.contains(x) <==> exists|j: int| 0 <= j < idx && *pairs[j].0 == x,
            count == seen.filter(|x: i64| is_correct(user_answers@, db_answers@, x)).len(),
            count <= idx,
    {
        let (k, v) = pair;
        proof {
            assert(*k == *pairs[idx].0);
            assert(!seen.contains(*k)) by {
                if seen.contains(*k) {
                    let j = choose|j: int| 0 <= j < idx && *pairs[j].0 == *k;
                    assert(user_answers@[*pairs[j].0] == *pairs[j].1);
                    assert(user_answers@[*pairs[idx].0] == *pairs[idx].1);
                    assert(pairs[j] == pairs[idx]);
                }
            }
            assert(user_answers@[*k] == *v);
        }
        let hit = match db_answers.get(k) {
            Some(correct) => {
                assert(db_answers@.contains_key(*k) && db_answers@[*k] == *correct);
                v.eq(correct)
            },
            None => {
                assert(!db_answers@.contains_key(*k));
                false
            },
        };
        assert(user_answers@[*k] == *v);
        assert(hit == is_correct(user_answers@, db_answers@, *k));
        assert(idx < pairs.len());
        proof {
            let seen2 = seen.insert(*k);
            if hit {
                assert(seen2.filter(|x: i64| is_correct(user_answers@, db_answers@, x)) =~= seen.filter(|x: i64| is_correct(user_answers@, db_answers@, x)).insert(*k));
            } else {
                assert(seen2.filter(|x: i64| is_correct(user_answers@, db_answers@, x)) =~= seen.filter(|x: i64| is_correct(user_answers@, db_answers@, x)));
            }
            assert forall|x: i64| #[trigger]
                seen2.contains(x) <==> exists|j: int| 0 <= j < idx + 1 && *pairs[j].0 == x by {
                if x == *k {
                    assert(*pairs[idx].0 == x);
                }
                if exists|j: int| 0 <= j < idx + 1 && *pairs[j].0 == x {
                    let j = choose|j: int| 0 <= j < idx + 1 && *pairs[j].0 == x;
                    if j < idx {
                        assert(seen.contains(x));
                    }
                }
            }
            seen = seen2;
            idx = idx + 1;
        }
        if hit {
            count = count + 1;
        }
    }
    proof {
        assert(seen =~= user_answers@.dom()) by {
            assert forall|x: i64| seen.contains(x) <==> user_answers@.dom().contains(x) by {
                if user_answers@.contains_key(x) {
                    assert(pairs.contains((&x, &user_answers@[x])));
                    let j = choose|j: int| 0 <= j < pairs.len() && pairs[j] == (&x, &user_answers@[x]);
                    assert(*pairs[j].0 == x);
                }
                if seen.contains(x) {
                    let j = choose|j: int| 0 <= j < idx && *pairs[j].0 == x;
                    assert(user_answers@.contains_key(*pairs[j].0));
                }
            }
        }
        assert(seen.filter(|x: i64| is_correct(user_answers@, db_answers@, x)) =~= correct_ids(user_answers@, db_answers@));
    }
    (count, Score { correct: count, total })
}

/// A stored exam question; `created_at` is in seconds since the Unix epoch.
#[derive(Debug, Clone, PartialEq, Eq)]
pub struct Question {
    pub id: i64,
    /// `single` or `multiple`.
    pub question_type: String,
    pub content: String,
    pub options: Vec<String>,
    /// The correct answer: never sent to a client.
    pub answer: String,
    pub analysis: Option<String>,
    pub created_at: Option<i64>,
}

/// What a client sees of a question: no answer, no analysis.
#[derive(Debug, Clone, PartialEq, Eq)]
pub struct PublicQuestion {
    pub id: i64,
    pub question_type: String,
    pub content: String,
    pub options: Vec<String>,
}

pub open spec fn public_of(q: Question) -> PublicQuestion {
    PublicQuestion {
        id: q.id,
        question_type: q.question_type,
        content: q.content,
        options: q.options,
    }
}

impl Question {
    /// The client's view of the question.
    pub fn into_public(self) -> (r: PublicQuestion)
        ensures
            r == public_of(self),
    {
        PublicQuestion {
            id: self.id,
            question_type: self.question_type,
            content: self.content,
            options: self.options,
        }
    }
}

/// A generated exam: the public questions and the token that fixes them.
#[derive(Debug, Clone, PartialEq, Eq)]
pub struct ExamResponse {
    pub questions: Vec<PublicQuestion>,
    pub exam_token: String,
    /// Seconds until the token expires.
    pub expires_in: u64,
}

/// A submitted exam.
#[derive(Debug, Clone, PartialEq, Eq)]
pub struct SubmitExamRequest {
    /// The token received with the exam.
    pub exam_token: String,
    /// Question id to the option chosen.
    pub answers: HashMap<i64, String>,
}

pub open spec fn exam_size(drawn: nat) -> nat {
    if drawn < EXAM_QUESTION_COUNT as nat {
        drawn
    } else {
        EXAM_QUESTION_COUNT as nat
    }
}

/// `resp` is the exam issued at `now` from the questions drawn: the first
/// `EXAM_QUESTION_COUNT` of them without their answers, and a token that
/// fixes their ids and expires `EXAM_TOKEN_TTL_SECONDS` later.
pub open spec fn exam_issued_at(drawn: Seq<Question>, secret: Seq<char>, now: nat, resp: ExamResponse) -> bool {
    let n = exam_size(drawn.len());
    &&& resp.expires_in == EXAM_TOKEN_TTL_SECONDS
    &&& resp.questions@.len() == n
    &&& forall|i: int| 0 <= i < n ==> resp.questions@[i] == public_of(#[trigger] drawn[i])
    &&& issued_exam(
        ExamModel {
            question_ids: Seq::new(n, |i: int| drawn[i].id),
            exp: (now + EXAM_TOKEN_TTL_SECONDS) as nat,
        },
        secret,
        resp.exam_token@,
    )
}

/// Issues an exam at `now` from the questions drawn: at most
/// `EXAM_QUESTION_COUNT` of them, in the order given, their ids fixed in a
/// signed exam token that expires `EXAM_TOKEN_TTL_SECONDS` later.
pub fn issue_exam(drawn: Vec<Question>, secret: &str, now: u64) -> (r: Result<ExamResponse, AppError>)
    ensures
        now + EXAM_TOKEN_TTL_SECONDS <= u64::MAX ==> r is Ok,
        r matches Err(e) ==> e is InternalServerError,
        r matches Ok(resp) ==> exam_issued_at(drawn@, secret@, now as nat, resp),
{
    let exp = match now.checked_add(EXAM_TOKEN_TTL_SECONDS) {
        Some(e) => e,
        None => {
            return Err(AppError::InternalServerError(String::from_str("exam expiry overflows")));
        },
    };
    let limit = EXAM_QUESTION_COUNT as usize;
    let ghost n = exam_size(drawn@.len());
    let ghost original = drawn@;
    let mut ids: Vec<i64> = Vec::new();
    let mut questions: Vec<PublicQuestion> = Vec::new();
    let mut i: usize = 0;
    let total = drawn.len();
    for q in it: drawn
        invariant
            it.seq() == original,
            original.len() == total,
            i == it.index(),
            ids@.len() == questions@.len(),
            ids@.len() == if i < limit { i } else { limit },
            forall|j: int| 0 <= j < ids@.len() ==> ids@[j] == original[j].id,
            forall|j: int| 0 <= j < questions@.len() ==> questions@[j] == public_of(original[j]),
    {
        assert(i < total);
        if i < limit {
            ids.push(q.id);
            questions.push(q.into_public());
        }
        i = i + 1;
    }
    let claims = ExamClaims { question_ids: ids, exp };
    let token = sign_exam_claims(&claims, secret);
    assert(claims.question_ids@ =~= Seq::new(n, |i: int| drawn@[i].id));
    Ok(ExamResponse { questions, exam_token: token, expires_in: EXAM_TOKEN_TTL_SECONDS })
}

/// Issues an exam from the questions drawn, at the current time.
pub fn generate_exam(drawn: Vec<Question>, secret: &str) -> (r: Result<ExamResponse, AppError>)
    ensures
        r matches Ok(resp) ==> exists|now: nat| #[trigger]
            exam_issued_at(drawn@, secret@, now, resp),
        r matches Err(e) ==> e is InternalServerError,
{
    match unix_now() {
        Some(now) => issue_exam(drawn, secret, now),
        None => Err(AppError::InternalServerError(String::from_str("system clock before 1970"))),
    }
}

/// What checking a submission at `now` gives: the invalid-token error where
/// the exam token does not verify; otherwise the assigned ids where the
/// answers cover them exactly, and the answer-set error where not.
pub open spec fn submission_outcome(
    req: SubmitExamRequest,
    secret: Seq<char>,
    now: nat,
    r: Result<Vec<i64>, AppError>,
) -> bool {
    match exam_verdict(req.exam_token@, secret, now) {
        None => r matches Err(e) && is_invalid_exam_token(e),
        Some(m) => match r {
            Ok(ids) => ids@ == m.question_ids && answer_set_ok(m.question_ids, req.answers@),
            Err(e) => !answer_set_ok(m.question_ids, req.answers@) && answer_set_error(
                m.question_ids,
                req.answers@,
                e,
            ),
        },
    }
}

/// Checks a submission at `now`: its exam token must verify, and its answers
/// must cover exactly the questions that the token assigned. Gives the
/// assigned ids, whose answer key is then to be fetched.
pub fn open_submission(req: &SubmitExamRequest, secret: &str, now: u64) -> (r: Result<
    Vec<i64>,
    AppError,
>)
    ensures
        r matches Ok(ids) ==> exists|m: ExamModel|
            #![trigger exam_payload(m)]
            req.exam_token@ == token_text(exam_payload(m), key_of(secret@)) && m.exp > now
                && m.question_ids == ids@ && answer_set_ok(ids@, req.answers@),
        forall|m: ExamModel|
            #![trigger issued_exam(m, secret@, req.exam_token@)]
            issued_exam(m, secret@, req.exam_token@) && now < m.exp <= u64::MAX ==> (r is Ok
                <==> answer_set_ok(m.question_ids, req.answers@)) && (r matches Ok(ids) ==> ids@
                == m.question_ids),
        forall|m: ExamModel|
            #![trigger issued_exam(m, secret@, req.exam_token@)]
            issued_exam(m, secret@, req.exam_token@) && m.exp <= now ==> r is Err,
        submission_outcome(*req, secret@, now as nat, r),
{
    let claims = verify_exam_claims(req.exam_token.as_str(), secret, now)?;
    check_answer_set(claims.question_ids.as_slice(), &req.answers)?;
    Ok(claims.question_ids)
}

/// Checks a submission against the current time.
pub fn check_submission(req: &SubmitExamRequest, secret: &str) -> (r: Result<Vec<i64>, AppError>)
    ensures
        r matches Ok(ids) ==> exists|m: ExamModel|
            #![trigger exam_payload(m)]
            req.exam_token@ == token_text(exam_payload(m), key_of(secret@)) && m.question_ids
                == ids@ && answer_set_ok(ids@, req.answers@),
        r matches Err(e) ==> e is BadRequest || e is InternalServerError,
        (r matches Err(AppError::InternalServerError(m)) && m@ == "system clock before 1970"@)
            || exists|now: nat| #[trigger] submission_outcome(*req, secret@, now, r),
{
    match unix_now() {
        Some(now) => open_submission(req, secret, now),
        None => Err(AppError::InternalServerError(String::from_str("system clock before 1970"))),
    }
}

/// The outcome of a graded exam.
#[derive(Debug, Clone, Copy, PartialEq, Eq)]
pub struct ExamResult {
    pub correct_count: usize,
    pub total: usize,
    pub passed: bool,
}

impl ExamResult {
    pub fn score(&self) -> (r: Score)
        ensures
            r == (Score { correct: self.correct_count, total: self.total }),
    {
        Score { correct: self.correct_count, total: self.total }
    }

    /// The message shown with the result.
    pub fn message(&self) -> (r: String)
        ensures
            self.passed ==> r@ == "Verification successful!"@,
            !self.passed ==> r@ == "Score too low. Try again."@,
    {
        if self.passed {
            String::from_str("Verification successful!")
        } else {
            String::from_str("Score too low. Try again.")
        }
    }
}

/// Grades answers against the key of the assigned questions: the total is
/// the number of questions assigned.
pub fn grade_answers(
    assigned: &[i64],
    answers: &HashMap<i64, String>,
    key: &HashMap<i64, String>,
) -> (r: ExamResult)
    ensures
        r.correct_count == correct_ids(answers@, key@).len(),
        r.total == assigned@.len(),
        r.passed == (Score { correct: r.correct_count, total: r.total }).spec_passes(),
{
    let (correct, _) = calculate_score(answers, key);
    let score = Score { correct, total: assigned.len() };
    ExamResult { correct_count: correct, total: assigned.len(), passed: score.passes() }
}

/// A user's verified flag after one graded submission: set by a pass, never cleared.
pub open spec fn escalated(verified: bool, passed: bool) -> bool {
    verified || passed
}

/// Whether a graded submission writes the verified flag: exactly on a pass.
/// The write sets the flag unconditionally; `record_exam_result` states its
/// effect on the stored state.
pub fn escalates(result: &ExamResult) -> (r: bool)
    ensures
        r == result.passed,
{
    result.passed
}

/// Sets the verified flag; doing it again changes nothing.
pub fn mark_verified(status: &mut UserStatus)
    ensures
        final(status).is_verified,
        final(status).role == old(status).role,
{
    status.is_verified = true;
}

/// Applies a graded submission to the user's stored state.
pub fn record_exam_result(status: &mut UserStatus, result: &ExamResult)
    ensures
        final(status).is_verified == escalated(old(status).is_verified, result.passed),
        final(status).role == old(status).role,
{
    if result.passed {
        mark_verified(status);
    }
}

/// The verified flag after a run of submissions with these pass/fail outcomes.
pub open spec fn verified_after(start: bool, outcomes: Seq<bool>) -> bool
    decreases outcomes.len(),
{
    if outcomes.len() == 0 {
        start
    } else {
        escalated(verified_after(start, outcomes.drop_last()), outcomes.last())
    }
}

/// Once a submission passes, the user is verified after it and after every
/// later submission, passing or failing.
pub proof fn lemma_escalation_monotonic(start: bool, outcomes: Seq<bool>, i: int, j: int)
    requires
        0 <= i < j <= outcomes.len(),
        outcomes[i],
    ensures
        verified_after(start, outcomes.take(j)),
    decreases j,
{
    let t = outcomes.take(j);
    assert(t.drop_last() =~= outcomes.take(j - 1));
    if j - 1 > i {
        lemma_escalation_monotonic(start, outcomes, i, j - 1);
    } else {
        assert(t.last() == outcomes[i]);
    }
}

} // verus!
