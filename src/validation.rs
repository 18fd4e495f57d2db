//! Request bodies and the rules they are checked against. A length bound
//! counts characters; a size limit on a URL, an option or a JSON text counts
//! UTF-8 bytes.
use vstd::prelude::*;
use vstd::utf8::encode_utf8;

verus! {

/// Whether `url::Url::parse` accepts a text.
pub uninterp spec fn url_accepted(s: Seq<char>) -> bool;

/// Relies on `url::Url::parse`: whether the text is an absolute URL.
#[verifier::external_body]
fn url_parses(s: &str) -> (r: bool)
    ensures
        r == url_accepted(s@),
{
    url::Url::parse(s).is_ok()
}

/// Why a custom field rule failed.
#[derive(Debug, Clone, Copy, PartialEq, Eq, Structural)]
pub enum FieldError {
    OptionsCannotBeEmpty,
    OptionTooLong,
    UrlTooLong,
    InvalidUrl,
    InvalidContributionType,
    PayloadTooLarge,
}

impl FieldError {
    /// The rule's code, as reported to the client.
    pub fn code(&self) -> (r: &'static str) {
        match self {
            FieldError::OptionsCannotBeEmpty => "options_cannot_be_empty",
            FieldError::OptionTooLong => "option_too_long",
            FieldError::UrlTooLong => "url_too_long",
            FieldError::InvalidUrl => "invalid_url",
            FieldError::InvalidContributionType => "invalid_contribution_type",
            FieldError::PayloadTooLarge => "payload_too_large",
        }
    }
}

pub open spec fn byte_len(s: Seq<char>) -> nat {
    encode_utf8(s).len()
}

pub open spec fn all_within(items: Seq<String>, max: nat) -> bool {
    forall|i: int| 0 <= i < items.len() ==> byte_len(#[trigger] items[i]@) <= max
}

/// The first index whose text is longer than `max` bytes, if any.
fn first_too_long(items: &[String], max: usize) -> (r: Option<usize>)
    ensures
        r is None <==> all_within(items@, max as nat),
        r matches Some(i) ==> i < items@.len() && byte_len(items@[i as int]@) > max,
{
    let mut i: usize = 0;
    while i < items.len()
        invariant
            i <= items.len(),
            forall|j: int| 0 <= j < i ==> byte_len(#[trigger] items@[j]@) <= max,
        decreases items.len() - i,
    {
        if items[i].as_str().as_bytes().len() > max {
            return Some(i);
        }
        i = i + 1;
    }
    None
}

/// Options of a question: at least one, none over 500 bytes.
pub fn validate_options(options: &[String]) -> (r: Result<(), FieldError>)
    ensures
        options@.len() == 0 ==> r == Err::<(), FieldError>(FieldError::OptionsCannotBeEmpty),
        options@.len() > 0 ==> (r is Ok <==> all_within(options@, 500)),
        options@.len() > 0 && r is Err ==> r == Err::<(), FieldError>(FieldError::OptionTooLong),
{
    if options.len() == 0 {
        return Err(FieldError::OptionsCannotBeEmpty);
    }
    match first_too_long(options, 500) {
        Some(_) => Err(FieldError::OptionTooLong),
        None => Ok(()),
    }
}

/// Options given in an update: none over 500 bytes.
pub fn validate_optional_options(options: &[String]) -> (r: Result<(), FieldError>)
    ensures
        r is Ok <==> all_within(options@, 500),
        r is Err ==> r == Err::<(), FieldError>(FieldError::OptionTooLong),
{
    match first_too_long(options, 500) {
        Some(_) => Err(FieldError::OptionTooLong),
        None => Ok(()),
    }
}

/// Carousel URLs given in an update: none over 500 bytes.
pub fn validate_optional_carousel_urls(urls: &[String]) -> (r: Result<(), FieldError>)
    ensures
        r is Ok <==> all_within(urls@, 500),
        r is Err ==> r == Err::<(), FieldError>(FieldError::UrlTooLong),
{
    match first_too_long(urls, 500) {
        Some(_) => Err(FieldError::UrlTooLong),
        None => Ok(()),
    }
}

/// A cover image URL must parse as a URL.
pub fn validate_url_string(url: &str) -> (r: Result<(), FieldError>)
    ensures
        r is Ok <==> url_accepted(url@),
        r is Err ==> r == Err::<(), FieldError>(FieldError::InvalidUrl),
{
    if !url_parses(url) {
        return Err(FieldError::InvalidUrl);
    }
    Ok(())
}

pub open spec fn carousel_ok(urls: Seq<String>) -> bool {
    forall|i: int| 0 <= i < urls.len() ==> byte_len(#[trigger] urls[i]@) <= 500 && url_accepted(
        urls[i]@,
    )
}

/// Carousel URLs: each at most 500 bytes and a URL; checked in order.
pub fn validate_carousel_urls(urls: &[String]) -> (r: Result<(), FieldError>)
    ensures
        r is Ok <==> carousel_ok(urls@),
        r matches Err(e) ==> e == FieldError::UrlTooLong || e == FieldError::InvalidUrl,
{
    let mut i: usize = 0;
    while i < urls.len()
        invariant
            i <= urls.len(),
            forall|j: int| 0 <= j < i ==> byte_len(#[trigger] urls@[j]@) <= 500 && url_accepted(
                urls@[j]@,
            ),
        decreases urls.len() - i,
    {
        if urls[i].as_str().as_bytes().len() > 500 {
            return Err(FieldError::UrlTooLong);
        }
        if !url_parses(urls[i].as_str()) {
            return Err(FieldError::InvalidUrl);
        }
        i = i + 1;
    }
    Ok(())
}

pub open spec fn architecture_kind() -> Seq<char> {
    seq!['a', 'r', 'c', 'h', 'i', 't', 'e', 'c', 't', 'u', 'r', 'e']
}

pub open spec fn question_kind() -> Seq<char> {
    seq!['q', 'u', 'e', 's', 't', 'i', 'o', 'n']
}

/// Whether two texts are equal.
pub fn same_text(a: &str, b: &str) -> (r: bool)
    ensures
        r == (a@ == b@),
{
    let n = a.unicode_len();
    if n != b.unicode_len() {
        return false;
    }
    let mut i: usize = 0;
    while i < n
        invariant
            n == a@.len() == b@.len(),
            i <= n,
            forall|j: int| 0 <= j < i ==> a@[j] == b@[j],
        decreases n - i,
    {
        if a.get_char(i) != b.get_char(i) {
            return false;
        }
        i = i + 1;
    }
    assert(a@ =~= b@);
    true
}

/// A contribution is an `architecture` or a `question`.
pub fn validate_contribution_type(c_type: &str) -> (r: Result<(), FieldError>)
    ensures
        r is Ok <==> (c_type@ == architecture_kind() || c_type@ == question_kind()),
        r is Err ==> r == Err::<(), FieldError>(FieldError::InvalidContributionType),
{
    proof {
        reveal_strlit("architecture");
        reveal_strlit("question");
        assert("architecture"@ =~= architecture_kind());
        assert("question"@ =~= question_kind());
    }
    if !same_text(c_type, "architecture") && !same_text(c_type, "question") {
        return Err(FieldError::InvalidContributionType);
    }
    Ok(())
}

/// A contribution's data, as compact JSON text, is at most 50000 bytes.
pub fn validate_data_size(json_text: &str) -> (r: Result<(), FieldError>)
    ensures
        r is Ok <==> byte_len(json_text@) <= 50000,
        r is Err ==> r == Err::<(), FieldError>(FieldError::PayloadTooLarge),
{
    if json_text.as_bytes().len() > 50000 {
        return Err(FieldError::PayloadTooLarge);
    }
    Ok(())
}

} // verus!
