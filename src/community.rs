//! Decisions of the community endpoints: listing, ownership, threads, reviews
//! and practice papers.
use vstd::prelude::*;
use std::collections::HashMap;
use crate::claims::Claims;
use crate::error::AppError;
use crate::exam::{calculate_score, correct_ids};
use crate::gate::{admin_role, is_admin};
use crate::jwt::{parsed_i64, user_id_of};
use crate::validation::{architecture_kind, question_kind, same_text};

verus! {

/// The page size of a post listing: 20 unless given, at most 100.
pub fn post_list_limit(limit: Option<i64>) -> (r: i64)
    ensures
        r == match limit {
            Some(l) => if l < 100 {
                l
            } else {
                100
            },
            None => 20,
        },
{
    match limit {
        Some(l) => if l < 100 {
            l
        } else {
            100
        },
        None => 20,
    }
}

/// How a post listing is ordered.
#[derive(Debug, Clone, Copy, PartialEq, Eq, Structural)]
pub enum PostSort {
    /// Newest first, paged by a creation-time cursor.
    New,
    /// By interactions weighed against age.
    Hot,
}

/// `hot` selects the hot ordering; anything else, or nothing, the newest first.
pub fn post_sort(sort: Option<&str>) -> (r: PostSort)
    ensures
        r == (if sort matches Some(s) && s@ == seq!['h', 'o', 't'] {
            PostSort::Hot
        } else {
            PostSort::New
        }),
{
    match sort {
        Some(s) => {
            proof {
                reveal_strlit("hot");
                assert("hot"@ =~= seq!['h', 'o', 't']);
            }
            if same_text(s, "hot") {
                PostSort::Hot
            } else {
                PostSort::New
            }
        },
        None => PostSort::New,
    }
}

pub open spec fn subject_id(c: Claims) -> i64 {
    match parsed_i64(c.sub@) {
        Some(v) => v,
        None => 0,
    }
}

/// A post may be deleted by its author or by an administrator.
pub fn check_post_deletion(owner_id: i64, claims: &Claims) -> (r: Result<(), AppError>)
    ensures
        r is Ok <==> (owner_id == subject_id(*claims) || claims.role@ == admin_role()),
        r matches Err(e) ==> e is AuthError,
{
    if owner_id != user_id_of(claims) && !is_admin(claims.role.as_str()) {
        return Err(AppError::AuthError(String::from_str("You are not authorized to delete this post")));
    }
    Ok(())
}

/// The thread root of a reply: the parent's root, or the parent itself when
/// it starts a thread.
pub fn comment_root(parent_id: i64, parent_root: Option<i64>) -> (r: i64)
    ensures
        r == match parent_root {
            Some(root) => root,
            None => parent_id,
        },
{
    match parent_root {
        Some(root) => root,
        None => parent_id,
    }
}

/// An administrator may not delete their own account.
pub fn check_not_self(target_id: i64, claims: &Claims) -> (r: Result<(), AppError>)
    ensures
        r is Ok <==> target_id != subject_id(*claims),
        r matches Err(e) ==> e is BadRequest,
{
    if target_id == user_id_of(claims) {
        return Err(AppError::BadRequest(String::from_str("Cannot delete yourself")));
    }
    Ok(())
}

/// The placeholder account that inherits a deleted user's content may not be deleted.
pub fn check_not_ghost(target_id: i64, ghost_id: i64) -> (r: Result<(), AppError>)
    ensures
        r is Ok <==> target_id != ghost_id,
        r matches Err(e) ==> e is BadRequest,
{
    if target_id == ghost_id {
        return Err(AppError::BadRequest(String::from_str("Cannot delete the ghost user")));
    }
    Ok(())
}

/// What approving or rejecting a contribution writes.
#[derive(Debug, Clone, Copy, PartialEq, Eq, Structural)]
pub enum ReviewAction {
    /// Only the contribution's status changes.
    StatusOnly,
    /// An architecture entry is created from the contribution's data.
    InsertArchitecture,
    /// A question is created from the contribution's data.
    InsertQuestion,
}

pub open spec fn approved_status() -> Seq<char> {
    seq!['a', 'p', 'p', 'r', 'o', 'v', 'e', 'd']
}

/// The review's effect: an approval creates the contributed item, of a kind
/// that must be known; anything else only records the status.
pub fn review_action(status: &str, contribution_type: &str) -> (r: Result<ReviewAction, AppError>)
    ensures
        status@ != approved_status() ==> r == Ok::<ReviewAction, AppError>(ReviewAction::StatusOnly),
        status@ == approved_status() && contribution_type@ == architecture_kind() ==> r == Ok::<
            ReviewAction,
            AppError,
        >(ReviewAction::InsertArchitecture),
        status@ == approved_status() && contribution_type@ == question_kind() ==> r == Ok::<
            ReviewAction,
            AppError,
        >(ReviewAction::InsertQuestion),
        status@ == approved_status() && contribution_type@ != architecture_kind()
            && contribution_type@ != question_kind() ==> (r matches Err(AppError::BadRequest(m))
            && m@ == "Unknown type"@),
{
    proof {
        reveal_strlit("approved");
        reveal_strlit("architecture");
        reveal_strlit("question");
        assert("approved"@ =~= approved_status());
        assert("architecture"@ =~= architecture_kind());
        assert("question"@ =~= question_kind());
    }
    if !same_text(status, "approved") {
        return Ok(ReviewAction::StatusOnly);
    }
    if same_text(contribution_type, "architecture") {
        Ok(ReviewAction::InsertArchitecture)
    } else if same_text(contribution_type, "question") {
        Ok(ReviewAction::InsertQuestion)
    } else {
        Err(AppError::BadRequest(String::from_str("Unknown type")))
    }
}

/// A practice paper: ten points for each answer that matches the key.
pub fn score_paper(answers: &HashMap<i64, String>, key: &HashMap<i64, String>) -> (r: (u128, usize))
    ensures
        r.1 == correct_ids(answers@, key@).len(),
        r.0 == 10 * r.1,
{
    let (correct, _) = calculate_score(answers, key);
    (10 * (correct as u128), correct)
}

} // verus!
