//! Request bodies and their `validate` rules.
use vstd::prelude::*;
use crate::error::AppError;
use crate::validation::{
    all_within, carousel_ok, url_accepted, validate_carousel_urls, validate_optional_carousel_urls,
    validate_optional_options, validate_options, validate_url_string, FieldError,
};

verus! {

pub open spec fn len_in(s: Seq<char>, min: nat, max: nat) -> bool {
    min <= s.len() <= max
}

pub open spec fn opt_len_in(s: Option<String>, min: nat, max: nat) -> bool {
    match s {
        Some(v) => len_in(v@, min, max),
        None => true,
    }
}

/// A length rule on a text field, counted in characters.
fn check_len(value: &str, min: usize, max: usize, field: &str) -> (r: Result<(), AppError>)
    ensures
        r is Ok <==> len_in(value@, min as nat, max as nat),
        r matches Err(e) ==> e is BadRequest,
{
    let n = value.unicode_len();
    if n < min || n > max {
        let mut msg = String::from_str(field);
        msg.append(": length out of range");
        return Err(AppError::BadRequest(msg));
    }
    Ok(())
}

fn check_opt_len(value: &Option<String>, min: usize, max: usize, field: &str) -> (r: Result<
    (),
    AppError,
>)
    ensures
        r is Ok <==> opt_len_in(*value, min as nat, max as nat),
        r matches Err(e) ==> e is BadRequest,
{
    match value {
        Some(v) => check_len(v.as_str(), min, max, field),
        None => Ok(()),
    }
}

/// A custom field rule, reported as a `BadRequest` naming its code.
fn check_rule(outcome: Result<(), FieldError>, field: &str) -> (r: Result<(), AppError>)
    ensures
        r is Ok <==> outcome is Ok,
        r matches Err(e) ==> e is BadRequest,
{
    match outcome {
        Ok(()) => Ok(()),
        Err(e) => {
            let mut msg = String::from_str(field);
            msg.append(": ");
            msg.append(e.code());
            Err(AppError::BadRequest(msg))
        },
    }
}

/// Registration.
#[derive(Debug, Clone, PartialEq, Eq)]
pub struct CreateUserRequest {
    pub username: String,
    pub password: String,
}

impl CreateUserRequest {
    pub open spec fn valid(&self) -> bool {
        len_in(self.username@, 3, 50) && len_in(self.password@, 4, 128)
    }

    pub fn validate(&self) -> (r: Result<(), AppError>)
        ensures
            r is Ok <==> self.valid(),
            r matches Err(e) ==> e is BadRequest,
    {
        check_len(self.username.as_str(), 3, 50, "username")?;
        check_len(self.password.as_str(), 4, 128, "password")
    }
}

/// Login.
#[derive(Debug, Clone, PartialEq, Eq)]
pub struct LoginRequest {
    pub username: String,
    pub password: String,
}

impl LoginRequest {
    pub open spec fn valid(&self) -> bool {
        len_in(self.username@, 1, 50) && len_in(self.password@, 1, 128)
    }

    pub fn validate(&self) -> (r: Result<(), AppError>)
        ensures
            r is Ok <==> self.valid(),
            r matches Err(e) ==> e is BadRequest,
    {
        check_len(self.username.as_str(), 1, 50, "username")?;
        check_len(self.password.as_str(), 1, 128, "password")
    }
}

/// An administrator creating a user with a role.
#[derive(Debug, Clone, PartialEq, Eq)]
pub struct AdminCreateUserRequest {
    pub username: String,
    pub password: String,
    /// `user` or `admin`.
    pub role: String,
}

impl AdminCreateUserRequest {
    pub open spec fn valid(&self) -> bool {
        len_in(self.username@, 3, 50) && len_in(self.password@, 4, 128)
    }

    pub fn validate(&self) -> (r: Result<(), AppError>)
        ensures
            r is Ok <==> self.valid(),
            r matches Err(e) ==> e is BadRequest,
    {
        check_len(self.username.as_str(), 3, 50, "username")?;
        check_len(self.password.as_str(), 4, 128, "password")
    }
}

/// An administrator changing some of a user's fields.
#[derive(Debug, Clone, PartialEq, Eq)]
pub struct AdminUpdateUserRequest {
    pub username: Option<String>,
    pub role: Option<String>,
    pub password: Option<String>,
    pub is_verified: Option<bool>,
}

impl AdminUpdateUserRequest {
    pub open spec fn valid(&self) -> bool {
        opt_len_in(self.username, 3, 50) && opt_len_in(self.role, 1, 20) && opt_len_in(
            self.password,
            4,
            128,
        )
    }

    pub fn validate(&self) -> (r: Result<(), AppError>)
        ensures
            r is Ok <==> self.valid(),
            r matches Err(e) ==> e is BadRequest,
    {
        check_opt_len(&self.username, 3, 50, "username")?;
        check_opt_len(&self.role, 1, 20, "role")?;
        check_opt_len(&self.password, 4, 128, "password")
    }

    /// Whether any field is to change; an update without one is a no-op.
    pub fn has_changes(&self) -> (r: bool)
        ensures
            r == (self.username is Some || self.role is Some || self.password is Some
                || self.is_verified is Some),
    {
        self.username.is_some() || self.role.is_some() || self.password.is_some()
            || self.is_verified.is_some()
    }
}

/// An administrator's verdict on a contribution.
#[derive(Debug, Clone, PartialEq, Eq)]
pub struct ReviewContributionRequest {
    /// `approved` or `rejected`.
    pub status: String,
    pub admin_comment: Option<String>,
}

/// Filters for listing architecture entries.
#[derive(Debug, Clone, PartialEq, Eq)]
pub struct ListParams {
    pub category: Option<String>,
    pub q: Option<String>,
}

impl ListParams {
    /// The `ILIKE` pattern for the search keyword: `%keyword%`.
    pub fn search_pattern(&self) -> (r: Option<String>)
        ensures
            self.q is None ==> r is None,
            self.q matches Some(k) ==> r matches Some(p) && p@ == seq!['%'] + k@ + seq!['%'],
    {
        match &self.q {
            Some(k) => {
                proof {
                    reveal_strlit("%");
                }
                let mut p = String::from_str("%");
                p.append(k.as_str());
                p.append("%");
                Some(p)
            },
            None => None,
        }
    }
}

/// A new architecture entry.
#[derive(Debug, Clone, PartialEq, Eq)]
pub struct CreateArchRequest {
    pub category: String,
    pub name: String,
    pub dynasty: String,
    pub location: String,
    pub description: String,
    pub cover_img: String,
    pub carousel_imgs: Vec<String>,
}

impl CreateArchRequest {
    pub open spec fn valid(&self) -> bool {
        &&& len_in(self.category@, 1, 50)
        &&& len_in(self.name@, 1, 100)
        &&& len_in(self.dynasty@, 1, 50)
        &&& len_in(self.location@, 1, 200)
        &&& len_in(self.description@, 1, 20000)
        &&& len_in(self.cover_img@, 1, 500)
        &&& url_accepted(self.cover_img@)
        &&& carousel_ok(self.carousel_imgs@)
    }

    pub fn validate(&self) -> (r: Result<(), AppError>)
        ensures
            r is Ok <==> self.valid(),
            r matches Err(e) ==> e is BadRequest,
    {
        check_len(self.category.as_str(), 1, 50, "category")?;
        check_len(self.name.as_str(), 1, 100, "name")?;
        check_len(self.dynasty.as_str(), 1, 50, "dynasty")?;
        check_len(self.location.as_str(), 1, 200, "location")?;
        check_len(self.description.as_str(), 1, 20000, "description")?;
        check_len(self.cover_img.as_str(), 1, 500, "cover_img")?;
        check_rule(validate_url_string(self.cover_img.as_str()), "cover_img")?;
        check_rule(validate_carousel_urls(self.carousel_imgs.as_slice()), "carousel_imgs")
    }
}

/// Changes to an architecture entry.
#[derive(Debug, Clone, PartialEq, Eq)]
pub struct UpdateArchRequest {
    pub category: Option<String>,
    pub name: Option<String>,
    pub dynasty: Option<String>,
    pub location: Option<String>,
    pub description: Option<String>,
    pub cover_img: Option<String>,
    pub carousel_imgs: Option<Vec<String>>,
}

impl UpdateArchRequest {
    pub open spec fn valid(&self) -> bool {
        &&& opt_len_in(self.category, 1, 50)
        &&& opt_len_in(self.name, 1, 100)
        &&& opt_len_in(self.dynasty, 1, 50)
        &&& opt_len_in(self.location, 1, 200)
        &&& opt_len_in(self.description, 1, 20000)
        &&& opt_len_in(self.cover_img, 1, 500)
        &&& (self.carousel_imgs matches Some(urls) ==> all_within(urls@, 500))
    }

    pub fn validate(&self) -> (r: Result<(), AppError>)
        ensures
            r is Ok <==> self.valid(),
            r matches Err(e) ==> e is BadRequest,
    {
        check_opt_len(&self.category, 1, 50, "category")?;
        check_opt_len(&self.name, 1, 100, "name")?;
        check_opt_len(&self.dynasty, 1, 50, "dynasty")?;
        check_opt_len(&self.location, 1, 200, "location")?;
        check_opt_len(&self.description, 1, 20000, "description")?;
        check_opt_len(&self.cover_img, 1, 500, "cover_img")?;
        match &self.carousel_imgs {
            Some(urls) => check_rule(validate_optional_carousel_urls(urls.as_slice()), "carousel_imgs"),
            None => Ok(()),
        }
    }
}

/// A new exam question.
#[derive(Debug, Clone, PartialEq, Eq)]
pub struct CreateQuestionRequest {
    pub question_type: String,
    pub content: String,
    pub options: Vec<String>,
    pub answer: String,
    pub analysis: Option<String>,
}

impl CreateQuestionRequest {
    pub open spec fn valid(&self) -> bool {
        &&& len_in(self.question_type@, 1, 20)
        &&& len_in(self.content@, 1, 1000)
        &&& self.options@.len() > 0
        &&& all_within(self.options@, 500)
        &&& len_in(self.answer@, 1, 500)
        &&& opt_len_in(self.analysis, 0, 2000)
    }

    pub fn validate(&self) -> (r: Result<(), AppError>)
        ensures
            r is Ok <==> self.valid(),
            r matches Err(e) ==> e is BadRequest,
    {
        check_len(self.question_type.as_str(), 1, 20, "question_type")?;
        check_len(self.content.as_str(), 1, 1000, "content")?;
        check_rule(validate_options(self.options.as_slice()), "options")?;
        check_len(self.answer.as_str(), 1, 500, "answer")?;
        check_opt_len(&self.analysis, 0, 2000, "analysis")
    }
}

/// Changes to an exam question.
#[derive(Debug, Clone, PartialEq, Eq)]
pub struct UpdateQuestionRequest {
    pub question_type: Option<String>,
    pub content: Option<String>,
    pub options: Option<Vec<String>>,
    pub answer: Option<String>,
    pub analysis: Option<String>,
}

impl UpdateQuestionRequest {
    pub open spec fn valid(&self) -> bool {
        &&& opt_len_in(self.question_type, 1, 20)
        &&& opt_len_in(self.content, 1, 1000)
        &&& (self.options matches Some(o) ==> all_within(o@, 500))
        &&& opt_len_in(self.answer, 1, 500)
        &&& opt_len_in(self.analysis, 0, 2000)
    }

    pub fn validate(&self) -> (r: Result<(), AppError>)
        ensures
            r is Ok <==> self.valid(),
            r matches Err(e) ==> e is BadRequest,
    {
        check_opt_len(&self.question_type, 1, 20, "question_type")?;
        check_opt_len(&self.content, 1, 1000, "content")?;
        match &self.options {
            Some(o) => check_rule(validate_optional_options(o.as_slice()), "options")?,
            None => {},
        }
        check_opt_len(&self.answer, 1, 500, "answer")?;
        check_opt_len(&self.analysis, 0, 2000, "analysis")
    }
}

/// A new community post.
#[derive(Debug, Clone, PartialEq, Eq)]
pub struct CreatePostRequest {
    pub title: String,
    pub content: String,
}

impl CreatePostRequest {
    pub open spec fn valid(&self) -> bool {
        len_in(self.title@, 1, 100) && len_in(self.content@, 1, 10000)
    }

    pub fn validate(&self) -> (r: Result<(), AppError>)
        ensures
            r is Ok <==> self.valid(),
            r matches Err(e) ==> e is BadRequest,
    {
        check_len(self.title.as_str(), 1, 100, "title")?;
        check_len(self.content.as_str(), 1, 10000, "content")
    }
}

/// A new comment, perhaps a reply.
#[derive(Debug, Clone, PartialEq, Eq)]
pub struct CreateCommentRequest {
    pub content: String,
    pub parent_id: Option<i64>,
}

impl CreateCommentRequest {
    pub open spec fn valid(&self) -> bool {
        len_in(self.content@, 1, 1000)
    }

    pub fn validate(&self) -> (r: Result<(), AppError>)
        ensures
            r is Ok <==> self.valid(),
            r matches Err(e) ==> e is BadRequest,
    {
        check_len(self.content.as_str(), 1, 1000, "content")
    }
}

} // verus!
