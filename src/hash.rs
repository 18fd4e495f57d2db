//! Password hashing: salted Argon2 in the PHC string format.
use vstd::prelude::*;
use argon2::password_hash::{PasswordHasher, PasswordVerifier};
use crate::error::AppError;
use vstd::utf8::encode_utf8;

verus! {

/// The PHC string that Argon2 (default parameters) gives for a password and a salt.
pub uninterp spec fn argon2_phc(password: Seq<char>, salt: Seq<char>) -> Seq<char>;

/// Whether Argon2's hasher accepts a salt text: B64 characters that decode
/// to between 8 and 64 bytes.
pub uninterp spec fn argon2_salt_ok(salt: Seq<char>) -> bool;

/// The longest password Argon2 takes, in bytes.
pub open spec fn password_fits(password: Seq<char>) -> bool {
    encode_utf8(password).len() <= 0xFFFF_FFFF
}

/// Whether a text is a well-formed PHC hash string.
pub uninterp spec fn phc_parses(hash: Seq<char>) -> bool;

/// Whether Argon2 accepts a password against a well-formed PHC hash string.
pub uninterp spec fn argon2_accepts(password: Seq<char>, hash: Seq<char>) -> bool;

/// Relies on `SaltString::generate` with `OsRng`: a fresh random salt of 16
/// bytes, B64-encoded in 22 characters, which Argon2 accepts.
#[verifier::external_body]
fn fresh_salt() -> (r: String)
    ensures
        argon2_salt_ok(r@),
{
    argon2::password_hash::SaltString::generate(&mut argon2::password_hash::rand_core::OsRng)
        .as_str()
        .to_owned()
}

/// Relies on `SaltString::from_b64` and `Argon2::hash_password` (default
/// parameters): the PHC string of the password under the salt. It fails only
/// for a salt the hasher refuses or a password over `MAX_PWD_LEN` bytes. The
/// PHC string holds the salt text verbatim, so different salts give
/// different strings.
#[verifier::external_body]
fn argon2_hash_with(password: &str, salt: &str) -> (r: Option<String>)
    ensures
        r matches Some(h) ==> h@ == argon2_phc(password@, salt@),
        argon2_salt_ok(salt@) && password_fits(password@) ==> r is Some,
        r matches Some(h) ==> forall|other: Seq<char>|
            #![trigger argon2_phc(password@, other)]
            argon2_salt_ok(other) && other != salt@ ==> argon2_phc(password@, other) != h@,
{
    let salt = argon2::password_hash::SaltString::from_b64(salt).ok()?;
    let hash = argon2::Argon2::default().hash_password(password.as_bytes(), &salt).ok()?;
    Some(hash.to_string())
}

/// Relies on `PasswordHash::new`: whether the text parses as a PHC string.
#[verifier::external_body]
fn phc_well_formed(hash: &str) -> (r: bool)
    ensures
        r == phc_parses(hash@),
{
    argon2::password_hash::PasswordHash::new(hash).is_ok()
}

/// Relies on `Argon2::verify_password`: whether the password matches the
/// parsed PHC string, with the parameters and salt that the string holds.
#[verifier::external_body]
fn argon2_verify(password: &str, hash: &str) -> (r: bool)
    requires
        phc_parses(hash@),
    ensures
        r == argon2_accepts(password@, hash@),
{
    match argon2::password_hash::PasswordHash::new(hash) {
        Ok(parsed) => argon2::Argon2::default().verify_password(password.as_bytes(), &parsed).is_ok(),
        Err(_) => false,
    }
}

/// Hashes a password under a given salt: succeeds for a salt Argon2 accepts
/// and a password it can take; the digest names its salt, so another salt
/// gives another digest.
pub fn hash_password_with_salt(password: &str, salt: &str) -> (r: Result<String, AppError>)
    ensures
        r matches Ok(h) ==> h@ == argon2_phc(password@, salt@),
        argon2_salt_ok(salt@) && password_fits(password@) ==> r is Ok,
        r matches Ok(h) ==> forall|other: Seq<char>|
            #![trigger argon2_phc(password@, other)]
            argon2_salt_ok(other) && other != salt@ ==> argon2_phc(password@, other) != h@,
        r matches Err(e) ==> e is InternalServerError,
{
    match argon2_hash_with(password, salt) {
        Some(h) => Ok(h),
        None => Err(AppError::InternalServerError(String::from_str("password hashing failed"))),
    }
}

/// Hashes a password with a freshly generated random salt, so two hashes of
/// one password differ.
pub fn hash_password(password: &str) -> (r: Result<String, AppError>)
    ensures
        password_fits(password@) ==> r is Ok,
        r matches Ok(h) ==> exists|salt: Seq<char>|
            #![trigger argon2_phc(password@, salt)]
            argon2_salt_ok(salt) && h@ == argon2_phc(password@, salt) && forall|other: Seq<char>|
                #![trigger argon2_phc(password@, other)]
                argon2_salt_ok(other) && other != salt ==> argon2_phc(password@, other) != h@,
        r matches Err(e) ==> e is InternalServerError,
{
    let salt = fresh_salt();
    hash_password_with_salt(password, salt.as_str())
}

/// Checks a password against a stored hash: `Ok(false)` for a wrong password,
/// an internal error for a stored hash that does not parse.
pub fn verify_password(password: &str, password_hash: &str) -> (r: Result<bool, AppError>)
    ensures
        phc_parses(password_hash@) ==> r == Ok::<bool, AppError>(
            argon2_accepts(password@, password_hash@),
        ),
        !phc_parses(password_hash@) ==> r matches Err(AppError::InternalServerError(_)),
{
    if !phc_well_formed(password_hash) {
        return Err(AppError::InternalServerError(String::from_str("stored password hash is malformed")));
    }
    Ok(argon2_verify(password, password_hash))
}

} // verus!
