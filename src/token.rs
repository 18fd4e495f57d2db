//! The three-segment signed token: `header.payload.signature`, each segment
//! base64url without padding, the signature an HMAC-SHA256 over the first two
//! segments and the dot between them.
use vstd::prelude::*;
use vstd::utf8::*;
use base64::Engine;
use crate::payload::bytes_same;

verus! {

/// The unpadded base64url text of some bytes.
pub uninterp spec fn b64url(b: Seq<u8>) -> Seq<char>;

/// The HMAC-SHA256 of `message` under `key`, as unpadded base64url text.
pub uninterp spec fn hs256(key: Seq<u8>, message: Seq<u8>) -> Seq<char>;

pub open spec fn is_b64url_char(c: char) -> bool {
    ('A' <= c <= 'Z') || ('a' <= c <= 'z') || ('0' <= c <= '9') || c == '-' || c == '_'
}

pub open spec fn is_b64url_text(s: Seq<char>) -> bool {
    forall|i: int| 0 <= i < s.len() ==> is_b64url_char(#[trigger] s[i])
}

/// Relies on base64's `URL_SAFE_NO_PAD` engine (the one jsonwebtoken uses):
/// `encode` writes the URL-safe alphabet and no padding.
#[verifier::external_body]
fn b64url_encode(b: &[u8]) -> (r: String)
    ensures
        r@ == b64url(b@),
        is_b64url_text(r@),
{
    base64::engine::general_purpose::URL_SAFE_NO_PAD.encode(b)
}

/// Relies on base64's `URL_SAFE_NO_PAD` engine: decoding rejects padding and
/// non-zero trailing bits, so it accepts exactly the texts that `encode`
/// writes, and gives back the bytes they were written from.
#[verifier::external_body]
fn b64url_decode(s: &str) -> (r: Option<Vec<u8>>)
    ensures
        r matches Some(b) ==> b64url(b@) == s@,
        forall|b: Seq<u8>| #[trigger] b64url(b) == s@ ==> r is Some && r->Some_0@ == b,
{
    base64::engine::general_purpose::URL_SAFE_NO_PAD.decode(s).ok()
}

/// Relies on `jsonwebtoken::crypto::sign` with HS256: the HMAC-SHA256 of the
/// message, base64url-encoded without padding; for HS256 it never fails.
#[verifier::external_body]
fn hs256_sign(key: &[u8], message: &[u8]) -> (r: String)
    ensures
        r@ == hs256(key@, message@),
        is_b64url_text(r@),
{
    let key = jsonwebtoken::EncodingKey::from_secret(key);
    jsonwebtoken::crypto::sign(message, &key, jsonwebtoken::Algorithm::HS256).unwrap_or_default()
}

/// Relies on `jsonwebtoken::crypto::verify` with HS256: it signs the message
/// again and compares the two signatures in constant time.
#[verifier::external_body]
fn hs256_matches(signature: &str, key: &[u8], message: &[u8]) -> (r: bool)
    ensures
        r == (signature@ == hs256(key@, message@)),
{
    let key = jsonwebtoken::DecodingKey::from_secret(key);
    jsonwebtoken::crypto::verify(signature, message, &key, jsonwebtoken::Algorithm::HS256)
        .unwrap_or(false)
}

/// Relies on `String::from_utf8`: it accepts every UTF-8 encoding of a
/// character sequence and keeps the bytes as they are.
#[verifier::external_body]
pub(crate) fn text_from_utf8(b: Vec<u8>) -> (r: Option<String>)
    ensures
        r matches Some(s) ==> encode_utf8(s@) == b@,
        forall|cs: Seq<char>| #[trigger] encode_utf8(cs) == b@ ==> r is Some,
{
    String::from_utf8(b).ok()
}

/// `{"typ":"JWT","alg":"HS256"}`
pub open spec fn header_json() -> Seq<u8> {
    seq![
        123u8, 34, 116, 121, 112, 34, 58, 34, 74, 87, 84, 34, 44, 34, 97, 108, 103, 34, 58, 34,
        72, 83, 50, 53, 54, 34, 125,
    ]
}

fn header_bytes() -> (r: Vec<u8>)
    ensures
        r@ == header_json(),
{
    let r = vec![
        123u8, 34, 116, 121, 112, 34, 58, 34, 74, 87, 84, 34, 44, 34, 97, 108, 103, 34, 58, 34,
        72, 83, 50, 53, 54, 34, 125,
    ];
    assert(r@ =~= header_json());
    r
}

/// The text that is signed: header segment, dot, payload segment.
pub open spec fn signing_input(payload: Seq<u8>) -> Seq<char> {
    b64url(header_json()) + seq!['.'] + b64url(payload)
}

/// The token that carries `payload` signed with `key`.
pub open spec fn token_text(payload: Seq<u8>, key: Seq<u8>) -> Seq<char> {
    signing_input(payload) + seq!['.'] + hs256(key, encode_utf8(signing_input(payload)))
}

/// What the outside calls promise of the segments of a token that `seal`
/// wrote: each is base64url text.
pub open spec fn sealed_form(payload: Seq<u8>, key: Seq<u8>) -> bool {
    &&& is_b64url_text(b64url(header_json()))
    &&& is_b64url_text(b64url(payload))
    &&& is_b64url_text(hs256(key, encode_utf8(signing_input(payload))))
}

pub open spec fn dot_free(s: Seq<char>) -> bool {
    forall|i: int| 0 <= i < s.len() ==> s[i] != '.'
}

/// `token` is the text that carries `payload` signed with `key`, and each of
/// its segments is free of dots, so the text splits back into them.
pub open spec fn opens_to(token: Seq<char>, key: Seq<u8>, payload: Seq<u8>) -> bool {
    &&& token == token_text(payload, key)
    &&& is_ascii_chars(token)
    &&& dot_free(b64url(header_json()))
    &&& dot_free(b64url(payload))
    &&& dot_free(hs256(key, encode_utf8(signing_input(payload))))
}

/// A token that `seal` writes opens to its payload.
pub proof fn lemma_sealed_opens(payload: Seq<u8>, key: Seq<u8>)
    requires
        sealed_form(payload, key),
    ensures
        opens_to(token_text(payload, key), key, payload),
{
    broadcast use is_ascii_chars_concat;

    lemma_b64url_text_facts(b64url(header_json()));
    lemma_b64url_text_facts(b64url(payload));
    lemma_b64url_text_facts(hs256(key, encode_utf8(signing_input(payload))));
    assert(is_ascii_chars(seq!['.']));
}

proof fn lemma_b64url_text_facts(s: Seq<char>)
    requires
        is_b64url_text(s),
    ensures
        dot_free(s),
        is_ascii_chars(s),
{
    assert forall|i: int| 0 <= i < s.len() implies s[i] != '.' && '\0' <= s[i] <= '\u{7f}' by {
        assert(is_b64url_char(s[i]));
    }
}

/// Signs `payload` with `key`.
pub fn seal(payload: &[u8], key: &[u8]) -> (r: String)
    ensures
        r@ == token_text(payload@, key@),
        sealed_form(payload@, key@),
{
    let header = header_bytes();
    let mut t = b64url_encode(header.as_slice());
    let body = b64url_encode(payload);
    proof {
        reveal_strlit(".");
    }
    t.append(".");
    t.append(body.as_str());
    assert(t@ == signing_input(payload@));
    let signature = hs256_sign(key, t.as_str().as_bytes());
    t.append(".");
    t.append(signature.as_str());
    t
}

/// The position of the first `.` at or after `from`, or the length.
fn find_dot(s: &str, from: usize) -> (r: usize)
    requires
        from <= s@.len(),
    ensures
        from <= r <= s@.len(),
        forall|i: int| from <= i < r ==> s@[i] != '.',
        r < s@.len() ==> s@[r as int] == '.',
{
    let n = s.unicode_len();
    let mut i = from;
    while i < n
        invariant
            n == s@.len(),
            from <= i <= n,
            forall|j: int| from <= j < i ==> s@[j] != '.',
        decreases n - i,
    {
        if s.get_char(i) == '.' {
            return i;
        }
        i = i + 1;
    }
    i
}

/// The payload of a token signed with `key`; `None` for any other text.
pub fn unseal(token: &str, key: &[u8]) -> (r: Option<Vec<u8>>)
    ensures
        r matches Some(p) ==> opens_to(token@, key@, p@),
        forall|p: Seq<u8>| #[trigger] opens_to(token@, key@, p) ==> r is Some && r->Some_0@ == p,
{
    if !token.is_ascii() {
        return None;
    }
    let n = token.unicode_len();
    let d1 = find_dot(token, 0);
    let d2 = if d1 < n {
        find_dot(token, d1 + 1)
    } else {
        n
    };
    let d3 = if d2 < n {
        find_dot(token, d2 + 1)
    } else {
        n
    };
    assert forall|p: Seq<u8>| #[trigger] opens_to(token@, key@, p) implies d1 == b64url(
            header_json(),
        ).len() && d2 == b64url(header_json()).len() + 1 + b64url(p).len() && d3 == n by {
        let h = b64url(header_json());
        let b = b64url(p);
        let s = hs256(key@, encode_utf8(signing_input(p)));
        let t = token@;
        assert(t =~= h + seq!['.'] + b + seq!['.'] + s);
        if d1 < h.len() {
            assert(t[d1 as int] == h[d1 as int]);
        }
        if d1 > h.len() {
            assert(t[h.len() as int] == '.');
        }
        if d2 < h.len() + 1 + b.len() {
            assert(t[d2 as int] == b[d2 - h.len() - 1]);
        }
        if d2 > h.len() + 1 + b.len() {
            assert(t[(h.len() + 1 + b.len()) as int] == '.');
        }
        if d3 < n {
            assert(t[d3 as int] == s[d3 - h.len() - b.len() - 2]);
        }
    }
    if d1 == n || d2 == n || d3 != n {
        return None;
    }
    let head = token.substring_ascii(0, d1);
    let body = token.substring_ascii(d1 + 1, d2);
    let signed = token.substring_ascii(0, d2);
    let signature = token.substring_ascii(d2 + 1, n);
    let ghost split = |p: Seq<u8>|
        {
            let h = b64url(header_json());
            let b = b64url(p);
            &&& head@ == h
            &&& body@ == b
            &&& signed@ == signing_input(p)
            &&& signature@ == hs256(key@, encode_utf8(signing_input(p)))
        };
    assert forall|p: Seq<u8>| #[trigger] opens_to(token@, key@, p) implies split(p) by {
        let h = b64url(header_json());
        let b = b64url(p);
        let s = hs256(key@, encode_utf8(signing_input(p)));
        let t = token@;
        assert(t =~= h + seq!['.'] + b + seq!['.'] + s);
        assert(head@ =~= h);
        assert(body@ =~= b);
        assert(signed@ =~= signing_input(p));
        assert(signature@ =~= s);
    }
    match b64url_decode(head) {
        Some(hb) => {
            let expected = header_bytes();
            if !bytes_same(hb.as_slice(), expected.as_slice()) {
                return None;
            }
        },
        None => {
            return None;
        },
    }
    let payload = match b64url_decode(body) {
        Some(b) => b,
        None => {
            return None;
        },
    };
    if !hs256_matches(signature, key, signed.as_bytes()) {
        return None;
    }
    proof {
        let t = token@;
        assert(t =~= head@ + seq!['.'] + body@ + seq!['.'] + signature@);
        assert(signed@ =~= head@ + seq!['.'] + body@);
        assert forall|i: int| 0 <= i < head@.len() implies head@[i] != '.' by {
            assert(head@[i] == t[i]);
        }
        assert forall|i: int| 0 <= i < body@.len() implies body@[i] != '.' by {
            assert(body@[i] == t[d1 + 1 + i]);
        }
        assert forall|i: int| 0 <= i < signature@.len() implies signature@[i] != '.' by {
            assert(signature@[i] == t[d2 + 1 + i]);
        }
    }
    Some(payload)
}

} // verus!
