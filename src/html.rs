//! Sanitising user-supplied HTML.
use vstd::prelude::*;

verus! {

/// What ammonia's default whitelist keeps of an HTML text.
pub uninterp spec fn sanitized(html: Seq<char>) -> Seq<char>;

/// Relies on `ammonia::clean`: keeps safe tags and attributes and drops
/// scripts, dangerous tags and event attributes, by its default whitelist.
#[verifier::external_body]
pub fn clean_html(input: &str) -> (r: String)
    ensures
        r@ == sanitized(input@),
{
    ammonia::clean(input)
}

} // verus!
