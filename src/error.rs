use vstd::prelude::*;

verus! {

/// The error kinds that the service reports to its callers.
#[derive(Debug, Clone, PartialEq, Eq)]
pub enum AppError {
    /// 500: the detail is for the server log only.
    InternalServerError(String),
    /// 400: a client mistake, reported with an actionable message.
    BadRequest(String),
    /// 401: identity could not be established.
    AuthError(String),
    /// 404
    NotFound(String),
    /// 409: for example a duplicate username.
    Conflict(String),
}

impl AppError {
    pub open spec fn spec_status_code(&self) -> u16 {
        match self {
            AppError::InternalServerError(_) => 500,
            AppError::BadRequest(_) => 400,
            AppError::AuthError(_) => 401,
            AppError::NotFound(_) => 404,
            AppError::Conflict(_) => 409,
        }
    }

    /// The message the client sees: the detail of an internal error stays
    /// in the server log.
    pub fn public_message(&self) -> (r: String)
        ensures
            self is InternalServerError ==> r@ == "Internal Server Error"@,
            self matches AppError::BadRequest(m) ==> r@ == m@,
            self matches AppError::AuthError(m) ==> r@ == m@,
            self matches AppError::NotFound(m) ==> r@ == m@,
            self matches AppError::Conflict(m) ==> r@ == m@,
    {
        match self {
            AppError::InternalServerError(_) => String::from_str("Internal Server Error"),
            AppError::BadRequest(m) => m.clone(),
            AppError::AuthError(m) => m.clone(),
            AppError::NotFound(m) => m.clone(),
            AppError::Conflict(m) => m.clone(),
        }
    }

    /// The HTTP status that this error is answered with.
    pub fn status_code(&self) -> (r: u16)
        ensures
            r == self.spec_status_code(),
    {
        match self {
            AppError::InternalServerError(_) => 500,
            AppError::BadRequest(_) => 400,
            AppError::AuthError(_) => 401,
            AppError::NotFound(_) => 404,
            AppError::Conflict(_) => 409,
        }
    }
}

} // verus!
