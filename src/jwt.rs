//! Signing and verifying login and exam tokens, and resolving the principal
//! of a request from its `Authorization` header.
use vstd::prelude::*;
use vstd::utf8::*;
use crate::claims::{
    decode_claims, decode_exam_claims, encode_claims, encode_exam_claims, exam_payload,
    lemma_exam_payload_inj, lemma_login_payload_inj, login_payload, Claims, ClaimsModel,
    ExamClaims, ExamModel,
};
use crate::error::AppError;
use crate::payload::{decimal_int, digits_value, is_digit, lemma_digits_value_take_mono, write_int};
use crate::token::{lemma_sealed_opens, opens_to, seal, sealed_form, text_from_utf8, token_text, unseal};

verus! {

broadcast use {encode_utf8_decode_utf8, is_ascii_chars_encode_utf8};

/// The signing key for a secret: its UTF-8 bytes.
pub open spec fn key_of(secret: Seq<char>) -> Seq<u8> {
    encode_utf8(secret)
}

/// `token` is the login token that `sign_claims` issues for `m` under `secret`.
pub open spec fn issued_login(m: ClaimsModel, secret: Seq<char>, token: Seq<char>) -> bool {
    &&& token == token_text(login_payload(m), key_of(secret))
    &&& sealed_form(login_payload(m), key_of(secret))
}

/// `token` is the exam token that `sign_exam_claims` issues for `m` under `secret`.
pub open spec fn issued_exam(m: ExamModel, secret: Seq<char>, token: Seq<char>) -> bool {
    &&& token == token_text(exam_payload(m), key_of(secret))
    &&& sealed_form(exam_payload(m), key_of(secret))
}

/// The login claims that a token carries under `secret`, if it verifies at
/// `now`: a well-formed token of some claims' payload, not yet expired.
pub open spec fn login_verdict(token: Seq<char>, secret: Seq<char>, now: nat) -> Option<ClaimsModel> {
    if exists|m: ClaimsModel| m.exp <= u64::MAX && #[trigger] opens_to(token, key_of(secret), login_payload(m)) {
        let m = choose|m: ClaimsModel| m.exp <= u64::MAX && #[trigger] opens_to(token, key_of(secret), login_payload(m));
        if now < m.exp {
            Some(m)
        } else {
            None
        }
    } else {
        None
    }
}

/// The exam claims that a token carries under `secret`, if it verifies at `now`.
pub open spec fn exam_verdict(token: Seq<char>, secret: Seq<char>, now: nat) -> Option<ExamModel> {
    if exists|m: ExamModel| m.exp <= u64::MAX && #[trigger] opens_to(token, key_of(secret), exam_payload(m)) {
        let m = choose|m: ExamModel| m.exp <= u64::MAX && #[trigger] opens_to(token, key_of(secret), exam_payload(m));
        if now < m.exp {
            Some(m)
        } else {
            None
        }
    } else {
        None
    }
}

pub open spec fn is_invalid_token(e: AppError) -> bool {
    e matches AppError::AuthError(msg) && msg@ == "Invalid token"@
}

pub open spec fn is_invalid_exam_token(e: AppError) -> bool {
    e matches AppError::BadRequest(msg) && msg@ == "invalid or expired exam token"@
}

/// Signs login claims.
pub fn sign_claims(claims: &Claims, secret: &str) -> (r: String)
    ensures
        issued_login(claims@, secret@, r@),
{
    let payload = encode_claims(claims);
    seal(payload.as_slice(), secret.as_bytes())
}

/// Signs exam claims.
pub fn sign_exam_claims(claims: &ExamClaims, secret: &str) -> (r: String)
    ensures
        issued_exam(claims@, secret@, r@),
{
    let payload = encode_exam_claims(claims);
    seal(payload.as_slice(), secret.as_bytes())
}

/// Verifies a login token at time `now`. Every failure (shape, signature,
/// payload, expiry) is the same `AuthError`.
pub fn verify_claims(token: &str, secret: &str, now: u64) -> (r: Result<Claims, AppError>)
    ensures
        match r {
            Ok(c) => login_verdict(token@, secret@, now as nat) == Some(c@),
            Err(e) => login_verdict(token@, secret@, now as nat) is None && is_invalid_token(e),
        },
        r matches Ok(c) ==> token@ == token_text(login_payload(c@), key_of(secret@)) && c.exp
            > now,
        forall|m: ClaimsModel|
            #![trigger issued_login(m, secret@, token@)]
            issued_login(m, secret@, token@) && now < m.exp <= u64::MAX ==> r is Ok && r->Ok_0@
                == m,
        forall|m: ClaimsModel|
            #![trigger issued_login(m, secret@, token@)]
            issued_login(m, secret@, token@) && m.exp <= now ==> r is Err,
{
    let ghost key = key_of(secret@);
    let opened = unseal(token, secret.as_bytes());
    let decoded = match &opened {
        Some(p) => decode_claims(p.as_slice()),
        None => None,
    };
    proof {
        assert forall|m: ClaimsModel|
            m.exp <= u64::MAX && #[trigger] opens_to(token@, key, login_payload(m)) implies
            decoded is Some && decoded->Some_0@ == m by {
            assert(opened->Some_0@ == login_payload(m));
        }
        assert forall|m: ClaimsModel|
            #![trigger issued_login(m, secret@, token@)]
            issued_login(m, secret@, token@) implies opens_to(token@, key, login_payload(m)) by {
            lemma_sealed_opens(login_payload(m), key);
        }
        if decoded is Some {
            let c = decoded->Some_0;
            assert(opens_to(token@, key, login_payload(c@)));
            let m = choose|m: ClaimsModel| m.exp <= u64::MAX && #[trigger] opens_to(token@, key, login_payload(m));
            assert(opened->Some_0@ == login_payload(m));
            lemma_login_payload_inj(c@, m);
        }
    }
    match decoded {
        Some(c) => {
            if c.exp > now {
                return Ok(c);
            }
        },
        None => {},
    }
    Err(AppError::AuthError(String::from_str("Invalid token")))
}

/// Verifies an exam token at time `now`; every failure is the same `BadRequest`.
pub fn verify_exam_claims(token: &str, secret: &str, now: u64) -> (r: Result<
    ExamClaims,
    AppError,
>)
    ensures
        match r {
            Ok(c) => exam_verdict(token@, secret@, now as nat) == Some(c@),
            Err(e) => exam_verdict(token@, secret@, now as nat) is None && is_invalid_exam_token(e),
        },
        r matches Ok(c) ==> token@ == token_text(exam_payload(c@), key_of(secret@)) && c.exp
            > now,
        forall|m: ExamModel|
            #![trigger issued_exam(m, secret@, token@)]
            issued_exam(m, secret@, token@) && now < m.exp <= u64::MAX ==> r is Ok && r->Ok_0@
                == m,
        forall|m: ExamModel|
            #![trigger issued_exam(m, secret@, token@)]
            issued_exam(m, secret@, token@) && m.exp <= now ==> r is Err,
{
    let ghost key = key_of(secret@);
    let opened = unseal(token, secret.as_bytes());
    let decoded = match &opened {
        Some(p) => decode_exam_claims(p.as_slice()),
        None => None,
    };
    proof {
        assert forall|m: ExamModel|
            m.exp <= u64::MAX && #[trigger] opens_to(token@, key, exam_payload(m)) implies
            decoded is Some && decoded->Some_0@ == m by {
            assert(opened->Some_0@ == exam_payload(m));
        }
        assert forall|m: ExamModel|
            #![trigger issued_exam(m, secret@, token@)]
            issued_exam(m, secret@, token@) implies opens_to(token@, key, exam_payload(m)) by {
            lemma_sealed_opens(exam_payload(m), key);
        }
        if decoded is Some {
            let c = decoded->Some_0;
            assert(opens_to(token@, key, exam_payload(c@)));
            let m = choose|m: ExamModel| m.exp <= u64::MAX && #[trigger] opens_to(token@, key, exam_payload(m));
            assert(opened->Some_0@ == exam_payload(m));
            lemma_exam_payload_inj(c@, m);
        }
    }
    match decoded {
        Some(c) => {
            if c.exp > now {
                return Ok(c);
            }
        },
        None => {},
    }
    Err(AppError::BadRequest(String::from_str("invalid or expired exam token")))
}

/// Relies on std's `SystemTime::now`, read as whole seconds since the Unix
/// epoch; `None` where the clock reads earlier than the epoch.
#[verifier::external_body]
pub(crate) fn unix_now() -> (r: Option<u64>) {
    std::time::SystemTime::now().duration_since(std::time::UNIX_EPOCH).ok().map(|d| d.as_secs())
}

/// The characters of a decimal integer.
pub open spec fn id_text(v: int) -> Seq<char> {
    decimal_int(v).map_values(|b: u8| b as char)
}

/// `v` written in decimal.
pub fn int_text(v: i64) -> (r: String)
    ensures
        r@ == id_text(v as int),
{
    let mut bytes: Vec<u8> = Vec::new();
    write_int(&mut bytes, v);
    let ghost cs = id_text(v as int);
    proof {
        crate::payload::lemma_decimal_digits((if v < 0 { -v } else { v as int }) as nat);
        assert(bytes@ == decimal_int(v as int));
        assert forall|i: int| 0 <= i < cs.len() implies '\0' <= #[trigger] cs[i] <= '\u{7f}' by {
            assert(cs[i] == bytes@[i] as char);
            assert(bytes@[i] == 45 || is_digit(bytes@[i]));
        }
        assert(is_ascii_chars(cs));
        assert(encode_utf8(cs) =~= bytes@);
    }
    match text_from_utf8(bytes) {
        Some(s) => {
            proof {
                assert(decode_utf8(encode_utf8(s@)) == decode_utf8(encode_utf8(cs)));
            }
            s
        },
        None => String::new(),
    }
}

/// `token` is the login token for user `id` with `role`, issued at `at` to
/// expire `ttl` seconds later.
pub open spec fn login_token_for(
    id: int,
    role: Seq<char>,
    secret: Seq<char>,
    at: nat,
    ttl: nat,
    token: Seq<char>,
) -> bool {
    issued_login(ClaimsModel { sub: id_text(id), role, exp: at + ttl }, secret, token)
}

/// The login claims for user `id` with `role`, signed at `now` to expire
/// `ttl` seconds later; an internal error where that time does not fit.
pub fn issue_login_token(id: i64, role: &str, secret: &str, now: u64, ttl: u64) -> (r: Result<
    String,
    AppError,
>)
    ensures
        now + ttl <= u64::MAX ==> r is Ok && login_token_for(
            id as int,
            role@,
            secret@,
            now as nat,
            ttl as nat,
            r->Ok_0@,
        ),
        now + ttl > u64::MAX ==> r matches Err(AppError::InternalServerError(_)),
{
    let exp = match now.checked_add(ttl) {
        Some(e) => e,
        None => {
            return Err(AppError::InternalServerError(String::from_str("token expiry overflows")));
        },
    };
    let claims = Claims { sub: int_text(id), role: role.to_owned(), exp };
    Ok(sign_claims(&claims, secret))
}

/// Signs a login token for a user, expiring `expiration_seconds` from now.
pub fn sign_jwt(id: i64, _username: &str, role: &str, secret: &str, expiration_seconds: u64) -> (r:
    Result<String, AppError>)
    ensures
        r matches Ok(t) ==> exists|now: nat|
            now + expiration_seconds <= u64::MAX && #[trigger] login_token_for(
                id as int,
                role@,
                secret@,
                now,
                expiration_seconds as nat,
                t@,
            ),
{
    match unix_now() {
        Some(now) => issue_login_token(id, role, secret, now, expiration_seconds),
        None => Err(AppError::InternalServerError(String::from_str("system clock before 1970"))),
    }
}

/// Verifies a login token against the current time.
pub fn verify_jwt(token: &str, secret: &str) -> (r: Result<Claims, AppError>)
    ensures
        r matches Ok(c) ==> exists|now: nat| #[trigger]
            login_verdict(token@, secret@, now) == Some(c@),
        r matches Ok(c) ==> token@ == token_text(login_payload(c@), key_of(secret@)),
        r matches Err(e) ==> is_invalid_token(e),
{
    match unix_now() {
        Some(now) => verify_claims(token, secret, now),
        None => Err(AppError::AuthError(String::from_str("Invalid token"))),
    }
}

/// `Bearer ` with its one trailing space.
pub open spec fn bearer_prefix() -> Seq<char> {
    seq!['B', 'e', 'a', 'r', 'e', 'r', ' ']
}

/// The token of an `Authorization` header value: what follows the
/// case-sensitive `Bearer ` prefix.
pub open spec fn bearer_token(header: Seq<char>) -> Option<Seq<char>> {
    if header.len() >= 7 && header.take(7) == bearer_prefix() {
        Some(header.skip(7))
    } else {
        None
    }
}

pub open spec fn header_token(header: Option<&str>) -> Option<Seq<char>> {
    match header {
        Some(h) => bearer_token(h@),
        None => None,
    }
}

pub fn bearer_token_of(header: &str) -> (r: Option<&str>)
    ensures
        r is Some == bearer_token(header@) is Some,
        r matches Some(t) ==> bearer_token(header@) == Some(t@),
{
    let n = header.unicode_len();
    if n < 7 {
        return None;
    }
    if header.get_char(0) != 'B' || header.get_char(1) != 'e' || header.get_char(2) != 'a'
        || header.get_char(3) != 'r' || header.get_char(4) != 'e' || header.get_char(5) != 'r'
        || header.get_char(6) != ' ' {
        proof {
            if header@.take(7) == bearer_prefix() {
                assert(header@.take(7)[0] == 'B');
                assert(header@.take(7)[1] == 'e');
                assert(header@.take(7)[2] == 'a');
                assert(header@.take(7)[3] == 'r');
                assert(header@.take(7)[4] == 'e');
                assert(header@.take(7)[5] == 'r');
                assert(header@.take(7)[6] == ' ');
            }
        }
        return None;
    }
    assert(header@.take(7) =~= bearer_prefix());
    Some(header.substring_char(7, n))
}

/// The principal that a request's header resolves to at `now`.
pub open spec fn header_verdict(header: Option<&str>, secret: Seq<char>, now: nat) -> Option<
    ClaimsModel,
> {
    match header_token(header) {
        Some(t) => login_verdict(t, secret, now),
        None => None,
    }
}

pub open spec fn claims_view(c: Option<Claims>) -> Option<ClaimsModel> {
    match c {
        Some(c) => Some(c@),
        None => None,
    }
}

/// The login claims of a request at time `now`: `None` without a header,
/// without the `Bearer ` prefix, or where the token does not verify.
pub fn claims_from_header(header: Option<&str>, secret: &str, now: u64) -> (r: Option<Claims>)
    ensures
        claims_view(r) == header_verdict(header, secret@, now as nat),
        header_token(header) is None ==> r is None,
        r matches Some(c) ==> header_token(header) == Some(token_text(
            login_payload(c@),
            key_of(secret@),
        )) && c.exp > now,
        forall|m: ClaimsModel|
            #![trigger issued_login(m, secret@, header_token(header)->Some_0)]
            header_token(header) is Some && issued_login(m, secret@, header_token(header)->Some_0)
                && now < m.exp <= u64::MAX ==> r is Some && r->Some_0@ == m,
{
    match header {
        Some(h) => match bearer_token_of(h) {
            Some(t) => match verify_claims(t, secret, now) {
                Ok(c) => Some(c),
                Err(_) => None,
            },
            None => None,
        },
        None => None,
    }
}

/// The login claims of a request, verified against the current time.
pub fn extract_claims_from_header(header: Option<&str>, secret: &str) -> (r: Option<Claims>)
    ensures
        header_token(header) is None ==> r is None,
        r is Some ==> exists|now: nat| #[trigger]
            header_verdict(header, secret@, now) == claims_view(r),
        r matches Some(c) ==> header_token(header) == Some(token_text(
            login_payload(c@),
            key_of(secret@),
        )),
{
    match unix_now() {
        Some(now) => claims_from_header(header, secret, now),
        None => None,
    }
}

/// What `str::parse::<i64>` accepts: an optional sign and at least one digit.
pub open spec fn all_digits(b: Seq<u8>) -> bool {
    b.len() > 0 && forall|i: int| 0 <= i < b.len() ==> is_digit(#[trigger] b[i])
}

pub open spec fn int_text_value(b: Seq<u8>) -> Option<int> {
    if b.len() > 0 && b[0] == 45 && all_digits(b.drop_first()) {
        Some(-(digits_value(b.drop_first()) as int))
    } else if b.len() > 0 && b[0] == 43 && all_digits(b.drop_first()) {
        Some(digits_value(b.drop_first()) as int)
    } else if all_digits(b) {
        Some(digits_value(b) as int)
    } else {
        None
    }
}

pub open spec fn parsed_i64(s: Seq<char>) -> Option<i64> {
    match int_text_value(encode_utf8(s)) {
        Some(v) => if i64::MIN <= v <= i64::MAX {
            Some(v as i64)
        } else {
            None
        },
        None => None,
    }
}

/// The magnitude of a run of digits, `None` where there is none or it exceeds `u64`.
pub(crate) fn digits_u64(b: &[u8], from: usize) -> (r: Option<u64>)
    requires
        from <= b.len(),
    ensures
        all_digits(b@.skip(from as int)) && digits_value(b@.skip(from as int)) <= u64::MAX ==> r
            == Some(digits_value(b@.skip(from as int)) as u64),
        r matches Some(v) ==> all_digits(b@.skip(from as int)) && v == digits_value(
            b@.skip(from as int),
        ),
{
    let ghost d = b@.skip(from as int);
    if from == b.len() {
        return None;
    }
    let mut acc: u64 = 0;
    let mut i: usize = from;
    assert(d.take(0) =~= Seq::<u8>::empty());
    while i < b.len()
        invariant
            from <= i <= b.len(),
            d == b@.skip(from as int),
            forall|t: int| 0 <= t < i - from ==> is_digit(#[trigger] d[t]),
            acc == digits_value(d.take(i - from)),
        decreases b.len() - i,
    {
        let c = b[i];
        assert(d[i - from] == c);
        if c < 48 || c > 57 {
            return None;
        }
        let ghost k = i - from;
        proof {
            lemma_digits_value_take_mono(d, k + 1);
            assert(d.take(k + 1).drop_last() =~= d.take(k));
            assert(d[k] == c);
        }
        let digit = (c - 48) as u64;
        match acc.checked_mul(10) {
            Some(t) => match t.checked_add(digit) {
                Some(v) => {
                    acc = v;
                },
                None => {
                    return None;
                },
            },
            None => {
                return None;
            },
        }
        i = i + 1;
    }
    assert(d.take(d.len() as int) =~= d);
    Some(acc)
}

/// Parses a decimal `i64` as `str::parse` does.
pub fn parse_i64(s: &str) -> (r: Option<i64>)
    ensures
        r == parsed_i64(s@),
{
    let b = s.as_bytes();
    let ghost bs = b@;
    if b.len() > 0 && (b[0] == 45 || b[0] == 43) {
        assert(bs.skip(1) =~= bs.drop_first());
        let negative = b[0] == 45;
        match digits_u64(b, 1) {
            Some(m) => {
                if negative {
                    if m <= 9223372036854775807u64 {
                        Some(-(m as i64))
                    } else if m == 9223372036854775808u64 {
                        Some(i64::MIN)
                    } else {
                        None
                    }
                } else if m <= 9223372036854775807u64 {
                    Some(m as i64)
                } else {
                    None
                }
            },
            None => None,
        }
    } else {
        assert(bs.skip(0) =~= bs);
        proof {
            if bs.len() > 0 && all_digits(bs) {
                assert(is_digit(bs[0]));
            }
        }
        match digits_u64(b, 0) {
            Some(m) => {
                if m <= 9223372036854775807u64 {
                    Some(m as i64)
                } else {
                    None
                }
            },
            None => None,
        }
    }
}

/// The user id of login claims, 0 where the subject is no decimal `i64`.
pub fn user_id_of(claims: &Claims) -> (r: i64)
    ensures
        r == match parsed_i64(claims.sub@) {
            Some(v) => v,
            None => 0,
        },
{
    match parse_i64(claims.sub.as_str()) {
        Some(v) => v,
        None => 0,
    }
}

} // verus!
