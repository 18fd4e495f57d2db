//! Logging in: checking a password against the stored hash and issuing a
//! login token. An unknown user and a wrong password give the same error.
use vstd::prelude::*;
use crate::error::AppError;
use crate::hash::{argon2_accepts, phc_parses, verify_password};
use crate::jwt::{issue_login_token, login_token_for, unix_now};

verus! {

/// What login needs of a stored user.
#[derive(Debug, Clone, PartialEq, Eq)]
pub struct Credentials {
    pub id: i64,
    pub role: String,
    /// The Argon2 PHC string.
    pub password_hash: String,
}

pub open spec fn is_bad_credentials(e: AppError) -> bool {
    e matches AppError::AuthError(m) && m@ == "Invalid username or password"@
}

/// Logs a user in at `now`, issuing a token that lives `ttl` seconds.
pub fn authenticate(
    stored: Option<&Credentials>,
    password: &str,
    secret: &str,
    now: u64,
    ttl: u64,
) -> (r: Result<String, AppError>)
    ensures
        stored is None ==> (r matches Err(e) && is_bad_credentials(e)),
        stored is Some ==> ({
            let c = *stored->Some_0;
            &&& !phc_parses(c.password_hash@) ==> (r matches Err(AppError::InternalServerError(_)))
            &&& phc_parses(c.password_hash@) && !argon2_accepts(password@, c.password_hash@) ==> (
            r matches Err(e) && is_bad_credentials(e))
            &&& phc_parses(c.password_hash@) && argon2_accepts(password@, c.password_hash@)
                && now + ttl <= u64::MAX ==> r is Ok && login_token_for(
                c.id as int,
                c.role@,
                secret@,
                now as nat,
                ttl as nat,
                r->Ok_0@,
            )
            &&& phc_parses(c.password_hash@) && argon2_accepts(password@, c.password_hash@)
                && now + ttl > u64::MAX ==> (r matches Err(AppError::InternalServerError(_)))
        }),
{
    let user = match stored {
        Some(u) => u,
        None => {
            return Err(AppError::AuthError(String::from_str("Invalid username or password")));
        },
    };
    if !verify_password(password, user.password_hash.as_str())? {
        return Err(AppError::AuthError(String::from_str("Invalid username or password")));
    }
    issue_login_token(user.id, user.role.as_str(), secret, now, ttl)
}

/// Logs a user in at the current time.
pub fn authenticate_now(stored: Option<&Credentials>, password: &str, secret: &str, ttl: u64) -> (r:
    Result<String, AppError>)
    ensures
        stored is None ==> (r matches Err(e) && is_bad_credentials(e)),
        r matches Ok(t) ==> stored is Some && argon2_accepts(
            password@,
            stored->Some_0.password_hash@,
        ) && exists|now: nat| #[trigger]
            login_token_for(
                stored->Some_0.id as int,
                stored->Some_0.role@,
                secret@,
                now,
                ttl as nat,
                t@,
            ),
{
    if stored.is_none() {
        return authenticate(stored, password, secret, 0, ttl);
    }
    match unix_now() {
        Some(now) => authenticate(stored, password, secret, now, ttl),
        None => Err(AppError::InternalServerError(String::from_str("system clock before 1970"))),
    }
}

} // verus!
