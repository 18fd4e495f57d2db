//! Service configuration and the exam's fixed parameters.
use vstd::prelude::*;
use vstd::utf8::encode_utf8;
use crate::jwt::{all_digits, digits_u64};
use crate::payload::digits_value;

verus! {

/// How many questions an exam draws.
pub const EXAM_QUESTION_COUNT: i64 = 20;

/// The lowest passing score, in percent; a score equal to it passes.
pub const PASSING_SCORE_PERCENTAGE: usize = 60;

/// How long an exam token stays valid, in seconds.
pub const EXAM_TOKEN_TTL_SECONDS: u64 = 900;

/// Service configuration, read once at start and handed to each component.
#[derive(Debug, Clone, PartialEq, Eq)]
pub struct Config {
    pub database_url: String,
    /// The one secret that signs login and exam tokens.
    pub jwt_secret: String,
    pub rust_log: String,
    /// Login token lifetime, in seconds.
    pub jwt_expiration: u64,
    pub admin_username: Option<String>,
    pub admin_password: Option<String>,
}

/// A setting that is missing or malformed.
#[derive(Debug, Clone, Copy, PartialEq, Eq, Structural)]
pub enum ConfigError {
    MissingDatabaseUrl,
    MissingJwtSecret,
    InvalidJwtExpiration,
}

/// What `str::parse::<u64>` accepts: an optional `+` and at least one digit.
pub open spec fn parsed_u64(s: Seq<char>) -> Option<u64> {
    let b = encode_utf8(s);
    let digits = if b.len() > 0 && b[0] == 43 {
        b.drop_first()
    } else {
        b
    };
    if all_digits(digits) && digits_value(digits) <= u64::MAX {
        Some(digits_value(digits) as u64)
    } else {
        None
    }
}

/// Parses a decimal `u64` as `str::parse` does.
pub fn parse_u64(s: &str) -> (r: Option<u64>)
    ensures
        r == parsed_u64(s@),
{
    let b = s.as_bytes();
    let from: usize = if b.len() > 0 && b[0] == 43 {
        1
    } else {
        0
    };
    assert(b@.skip(1) =~= b@.drop_first());
    assert(b@.skip(0) =~= b@);
    digits_u64(b, from)
}

pub open spec fn default_log() -> Seq<char> {
    seq!['i', 'n', 'f', 'o']
}

impl Config {
    /// Builds the configuration from the raw settings: the database URL and
    /// the secret are required, the log filter defaults to `info`, the token
    /// lifetime to 3600 seconds and must otherwise be a number.
    pub fn from_vars(
        database_url: Option<String>,
        jwt_secret: Option<String>,
        rust_log: Option<String>,
        jwt_expiration: Option<String>,
        admin_username: Option<String>,
        admin_password: Option<String>,
    ) -> (r: Result<Config, ConfigError>)
        ensures
            database_url is None ==> r == Err::<Config, ConfigError>(
                ConfigError::MissingDatabaseUrl,
            ),
            database_url is Some && jwt_secret is None ==> r == Err::<Config, ConfigError>(
                ConfigError::MissingJwtSecret,
            ),
            database_url is Some && jwt_secret is Some && (jwt_expiration matches Some(e)
                && parsed_u64(e@) is None) ==> r == Err::<Config, ConfigError>(
                ConfigError::InvalidJwtExpiration,
            ),
            r matches Ok(c) ==> {
                &&& database_url == Some(c.database_url)
                &&& jwt_secret == Some(c.jwt_secret)
                &&& c.rust_log@ == match rust_log {
                    Some(l) => l@,
                    None => default_log(),
                }
                &&& c.jwt_expiration == match jwt_expiration {
                    Some(e) => parsed_u64(e@)->Some_0,
                    None => 3600,
                }
                &&& c.admin_username == admin_username
                &&& c.admin_password == admin_password
            },
            database_url is Some && jwt_secret is Some && (jwt_expiration matches Some(e)
                ==> parsed_u64(e@) is Some) ==> r is Ok,
    {
        let database_url = match database_url {
            Some(v) => v,
            None => {
                return Err(ConfigError::MissingDatabaseUrl);
            },
        };
        let jwt_secret = match jwt_secret {
            Some(v) => v,
            None => {
                return Err(ConfigError::MissingJwtSecret);
            },
        };
        let rust_log = match rust_log {
            Some(v) => v,
            None => {
                proof {
                    reveal_strlit("info");
                }
                let l = String::from_str("info");
                assert(l@ =~= default_log());
                l
            },
        };
        let jwt_expiration = match jwt_expiration {
            Some(v) => match parse_u64(v.as_str()) {
                Some(n) => n,
                None => {
                    return Err(ConfigError::InvalidJwtExpiration);
                },
            },
            None => 3600,
        };
        Ok(Config { database_url, jwt_secret, rust_log, jwt_expiration, admin_username, admin_password })
    }

    /// Whether an administrator account is to be seeded at start.
    pub fn seeds_admin(&self) -> (r: bool)
        ensures
            r == (self.admin_username is Some && self.admin_password is Some),
    {
        self.admin_username.is_some() && self.admin_password.is_some()
    }
}

} // verus!
