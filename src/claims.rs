//! Login and exam claim sets and their payload bytes.
use vstd::prelude::*;
use vstd::utf8::*;
use crate::payload::{
    decimal, decimal_at, decimal_int, escape_bytes, int_items, lemma_decimal_digits,
    lemma_decimal_int_inj, read_int_list, CLOSE_BRACKET, OPEN_BRACKET, expect_at, lemma_decimal_inj, lemma_quoted_inj, QUOTE, int_list, key_text, prefix_at, push_all, quoted, read_quoted,
    read_u64, bytes_same, write_decimal, write_int_list, write_key, write_quoted, CLOSE_BRACE, COMMA,
    OPEN_BRACE,
};
use crate::token::text_from_utf8;

verus! {

broadcast use {encode_utf8_decode_utf8, encode_utf8_valid_utf8};

/// The claims of a login token.
#[derive(Debug, Clone, PartialEq, Eq)]
pub struct Claims {
    /// The user id, in decimal.
    pub sub: String,
    /// `user` or `admin`.
    pub role: String,
    /// Expiry, in seconds since the Unix epoch.
    pub exp: u64,
}

pub ghost struct ClaimsModel {
    pub sub: Seq<char>,
    pub role: Seq<char>,
    pub exp: nat,
}

impl View for Claims {
    type V = ClaimsModel;

    open spec fn view(&self) -> ClaimsModel {
        ClaimsModel { sub: self.sub@, role: self.role@, exp: self.exp as nat }
    }
}

/// The claims of an exam token: the questions assigned, in order.
#[derive(Debug, Clone, PartialEq, Eq)]
pub struct ExamClaims {
    pub question_ids: Vec<i64>,
    pub exp: u64,
}

pub ghost struct ExamModel {
    pub question_ids: Seq<i64>,
    pub exp: nat,
}

impl View for ExamClaims {
    type V = ExamModel;

    open spec fn view(&self) -> ExamModel {
        ExamModel { question_ids: self.question_ids@, exp: self.exp as nat }
    }
}

pub open spec fn key_sub() -> Seq<u8> {
    seq![115u8, 117, 98]
}

pub open spec fn key_role() -> Seq<u8> {
    seq![114u8, 111, 108, 101]
}

pub open spec fn key_exp() -> Seq<u8> {
    seq![101u8, 120, 112]
}

pub open spec fn key_qids() -> Seq<u8> {
    seq![113u8, 105, 100, 115]
}

/// `{"sub":"…","role":"…","exp":…}`
pub open spec fn login_payload(m: ClaimsModel) -> Seq<u8> {
    seq![OPEN_BRACE] + (key_text(key_sub()) + (quoted(encode_utf8(m.sub)) + (seq![COMMA] + (
    key_text(key_role()) + (quoted(encode_utf8(m.role)) + (seq![COMMA] + (key_text(key_exp())
        + (decimal(m.exp) + seq![CLOSE_BRACE]))))))))
}

/// `{"qids":[…],"exp":…}`
pub open spec fn exam_payload(m: ExamModel) -> Seq<u8> {
    seq![OPEN_BRACE] + (key_text(key_qids()) + (int_list(m.question_ids) + (seq![COMMA] + (
    key_text(key_exp()) + (decimal(m.exp) + seq![CLOSE_BRACE])))))
}

fn key_text_bytes(key: &[u8]) -> (r: Vec<u8>)
    ensures
        r@ == key_text(key@),
{
    let mut r: Vec<u8> = Vec::new();
    write_key(&mut r, key);
    assert(r@ =~= key_text(key@));
    r
}

fn sub_key() -> (r: Vec<u8>)
    ensures
        r@ == key_text(key_sub()),
{
    let k = vec![115u8, 117, 98];
    assert(k@ =~= key_sub());
    key_text_bytes(k.as_slice())
}

fn role_key() -> (r: Vec<u8>)
    ensures
        r@ == key_text(key_role()),
{
    let k = vec![114u8, 111, 108, 101];
    assert(k@ =~= key_role());
    key_text_bytes(k.as_slice())
}

fn exp_key() -> (r: Vec<u8>)
    ensures
        r@ == key_text(key_exp()),
{
    let k = vec![101u8, 120, 112];
    assert(k@ =~= key_exp());
    key_text_bytes(k.as_slice())
}

fn qids_key() -> (r: Vec<u8>)
    ensures
        r@ == key_text(key_qids()),
{
    let k = vec![113u8, 105, 100, 115];
    assert(k@ =~= key_qids());
    key_text_bytes(k.as_slice())
}

pub fn encode_claims(c: &Claims) -> (r: Vec<u8>)
    ensures
        r@ == login_payload(c@),
{
    let mut out: Vec<u8> = Vec::new();
    out.push(OPEN_BRACE);
    push_all(&mut out, sub_key().as_slice());
    write_quoted(&mut out, c.sub.as_str().as_bytes());
    out.push(COMMA);
    push_all(&mut out, role_key().as_slice());
    write_quoted(&mut out, c.role.as_str().as_bytes());
    out.push(COMMA);
    push_all(&mut out, exp_key().as_slice());
    write_decimal(&mut out, c.exp);
    out.push(CLOSE_BRACE);
    assert(out@ =~= login_payload(c@));
    out
}

pub fn encode_exam_claims(c: &ExamClaims) -> (r: Vec<u8>)
    ensures
        r@ == exam_payload(c@),
{
    let mut out: Vec<u8> = Vec::new();
    out.push(OPEN_BRACE);
    push_all(&mut out, qids_key().as_slice());
    write_int_list(&mut out, c.question_ids.as_slice());
    out.push(COMMA);
    push_all(&mut out, exp_key().as_slice());
    write_decimal(&mut out, c.exp);
    out.push(CLOSE_BRACE);
    assert(out@ =~= exam_payload(c@));
    out
}

proof fn lemma_prefix_split(p: Seq<u8>, pos: int, a: Seq<u8>, b: Seq<u8>)
    requires
        prefix_at(p, pos, a + b),
    ensures
        prefix_at(p, pos, a),
        prefix_at(p, pos + a.len(), b),
{
    let w = p.subrange(pos, pos + (a + b).len());
    assert(w == a + b);
    assert(p.subrange(pos, pos + a.len()) =~= w.subrange(0, a.len() as int));
    assert(w.subrange(0, a.len() as int) =~= a);
    assert(p.subrange(pos + a.len(), pos + a.len() + b.len()) =~= w.subrange(
        a.len() as int,
        w.len() as int,
    ));
    assert(w.subrange(a.len() as int, w.len() as int) =~= b);
}

proof fn lemma_byte_at(p: Seq<u8>, pos: int, b: u8, rest: Seq<u8>)
    requires
        prefix_at(p, pos, seq![b] + rest),
    ensures
        pos < p.len(),
        p[pos] == b,
        prefix_at(p, pos + 1, rest),
{
    lemma_prefix_split(p, pos, seq![b], rest);
    assert(p.subrange(pos, pos + 1)[0] == b);
}

proof fn lemma_decimal_then_close(p: Seq<u8>, pos: int, n: nat)
    requires
        prefix_at(p, pos, decimal(n) + seq![CLOSE_BRACE]),
    ensures
        decimal_at(p, pos, n),
        p[pos + decimal(n).len()] == CLOSE_BRACE,
        pos + decimal(n).len() + 1 <= p.len(),
{
    lemma_prefix_split(p, pos, decimal(n), seq![CLOSE_BRACE]);
    lemma_byte_at(p, pos + decimal(n).len(), CLOSE_BRACE, Seq::empty());
    assert(seq![CLOSE_BRACE] + Seq::<u8>::empty() =~= seq![CLOSE_BRACE]);
}

proof fn lemma_drop_common(a: Seq<u8>, x: Seq<u8>, y: Seq<u8>)
    requires
        a + x == a + y,
    ensures
        x == y,
{
    assert(x =~= (a + x).subrange(a.len() as int, (a + x).len() as int));
    assert(y =~= (a + y).subrange(a.len() as int, (a + y).len() as int));
}

proof fn lemma_quoted_then(x: Seq<u8>, y: Seq<u8>, t1: Seq<u8>, t2: Seq<u8>)
    requires
        quoted(x) + t1 == quoted(y) + t2,
    ensures
        x == y,
        t1 == t2,
{
    let l1 = escape_bytes(x) + seq![QUOTE] + t1;
    let l2 = escape_bytes(y) + seq![QUOTE] + t2;
    assert(quoted(x) + t1 =~= seq![QUOTE] + l1);
    assert(quoted(y) + t2 =~= seq![QUOTE] + l2);
    lemma_drop_common(seq![QUOTE], l1, l2);
    lemma_quoted_inj(x, y, t1, t2);
}

/// Different login claims have different payloads.
pub proof fn lemma_login_payload_inj(m1: ClaimsModel, m2: ClaimsModel)
    requires
        login_payload(m1) == login_payload(m2),
    ensures
        m1 == m2,
{
    let head = seq![OPEN_BRACE] + key_text(key_sub());
    let rest = |m: ClaimsModel|
        seq![COMMA] + (key_text(key_role()) + (quoted(encode_utf8(m.role)) + (seq![COMMA] + (
        key_text(key_exp()) + (decimal(m.exp) + seq![CLOSE_BRACE])))));
    assert(login_payload(m1) =~= head + (quoted(encode_utf8(m1.sub)) + rest(m1)));
    assert(login_payload(m2) =~= head + (quoted(encode_utf8(m2.sub)) + rest(m2)));
    lemma_drop_common(head, quoted(encode_utf8(m1.sub)) + rest(m1), quoted(encode_utf8(m2.sub))
        + rest(m2));
    lemma_quoted_then(encode_utf8(m1.sub), encode_utf8(m2.sub), rest(m1), rest(m2));
    let mid = seq![COMMA] + key_text(key_role());
    let tail = |m: ClaimsModel|
        seq![COMMA] + (key_text(key_exp()) + (decimal(m.exp) + seq![CLOSE_BRACE]));
    assert(rest(m1) =~= mid + (quoted(encode_utf8(m1.role)) + tail(m1)));
    assert(rest(m2) =~= mid + (quoted(encode_utf8(m2.role)) + tail(m2)));
    lemma_drop_common(mid, quoted(encode_utf8(m1.role)) + tail(m1), quoted(encode_utf8(m2.role))
        + tail(m2));
    lemma_quoted_then(encode_utf8(m1.role), encode_utf8(m2.role), tail(m1), tail(m2));
    let last = seq![COMMA] + key_text(key_exp());
    assert(tail(m1) =~= last + (decimal(m1.exp) + seq![CLOSE_BRACE]));
    assert(tail(m2) =~= last + (decimal(m2.exp) + seq![CLOSE_BRACE]));
    lemma_drop_common(last, decimal(m1.exp) + seq![CLOSE_BRACE], decimal(m2.exp) + seq![
        CLOSE_BRACE,
    ]);
    lemma_decimal_inj(m1.exp, m2.exp, seq![CLOSE_BRACE], seq![CLOSE_BRACE]);
    assert(decode_utf8(encode_utf8(m1.sub)) == decode_utf8(encode_utf8(m2.sub)));
    assert(decode_utf8(encode_utf8(m1.role)) == decode_utf8(encode_utf8(m2.role)));
}

/// The login claims whose payload is exactly `p`, if there are any.
#[verifier::rlimit(80)]
pub fn decode_claims(p: &[u8]) -> (r: Option<Claims>)
    ensures
        r matches Some(c) ==> login_payload(c@) == p@,
        forall|m: ClaimsModel|
            #![trigger login_payload(m)]
            login_payload(m) == p@ && m.exp <= u64::MAX ==> r is Some && r->Some_0@ == m,
{
    let ghost exists_m = exists|m: ClaimsModel| #[trigger]
        login_payload(m) == p@ && m.exp <= u64::MAX;
    let ghost m = choose|m: ClaimsModel| #[trigger] login_payload(m) == p@ && m.exp <= u64::MAX;
    let ghost sb = encode_utf8(m.sub);
    let ghost rb = encode_utf8(m.role);
    let ghost t0 = key_text(key_sub()) + (quoted(sb) + (seq![COMMA] + (key_text(key_role()) + (
    quoted(rb) + (seq![COMMA] + (key_text(key_exp()) + (decimal(m.exp) + seq![CLOSE_BRACE])))))));
    let ghost t1 = quoted(sb) + (seq![COMMA] + (key_text(key_role()) + (quoted(rb) + (seq![COMMA]
        + (key_text(key_exp()) + (decimal(m.exp) + seq![CLOSE_BRACE]))))));
    let ghost t2 = seq![COMMA] + (key_text(key_role()) + (quoted(rb) + (seq![COMMA] + (key_text(
        key_exp(),
    ) + (decimal(m.exp) + seq![CLOSE_BRACE])))));
    let ghost t3 = key_text(key_role()) + (quoted(rb) + (seq![COMMA] + (key_text(key_exp()) + (
    decimal(m.exp) + seq![CLOSE_BRACE]))));
    let ghost t4 = quoted(rb) + (seq![COMMA] + (key_text(key_exp()) + (decimal(m.exp) + seq![
        CLOSE_BRACE,
    ])));
    let ghost t5 = seq![COMMA] + (key_text(key_exp()) + (decimal(m.exp) + seq![CLOSE_BRACE]));
    let ghost t6 = key_text(key_exp()) + (decimal(m.exp) + seq![CLOSE_BRACE]);
    let ghost t7 = decimal(m.exp) + seq![CLOSE_BRACE];
    proof {
        if exists_m {
            assert(p@.subrange(0, p@.len() as int) =~= p@);
            assert(prefix_at(p@, 0, seq![OPEN_BRACE] + t0));
            lemma_byte_at(p@, 0, OPEN_BRACE, t0);
            lemma_prefix_split(p@, 1, key_text(key_sub()), t1);
        }
    }
    if p.len() == 0 || p[0] != OPEN_BRACE {
        return None;
    }
    let k_sub = sub_key();
    if !expect_at(p, 1, k_sub.as_slice()) {
        return None;
    }
    let pos = 1 + k_sub.len();
    proof {
        if exists_m {
            lemma_prefix_split(p@, pos as int, quoted(sb), t2);
        }
    }
    let (sub_bytes, pos) = match read_quoted(p, pos, Ghost(sb)) {
        Some(x) => x,
        None => {
            return None;
        },
    };
    proof {
        if exists_m {
            lemma_byte_at(p@, pos as int, COMMA, t3);
        }
    }
    if pos >= p.len() || p[pos] != COMMA {
        return None;
    }
    let k_role = role_key();
    proof {
        if exists_m {
            lemma_prefix_split(p@, pos + 1, key_text(key_role()), t4);
        }
    }
    if !expect_at(p, pos + 1, k_role.as_slice()) {
        return None;
    }
    let pos = pos + 1 + k_role.len();
    proof {
        if exists_m {
            lemma_prefix_split(p@, pos as int, quoted(rb), t5);
        }
    }
    let (role_bytes, pos) = match read_quoted(p, pos, Ghost(rb)) {
        Some(x) => x,
        None => {
            return None;
        },
    };
    proof {
        if exists_m {
            lemma_byte_at(p@, pos as int, COMMA, t6);
        }
    }
    if pos >= p.len() || p[pos] != COMMA {
        return None;
    }
    let k_exp = exp_key();
    proof {
        if exists_m {
            lemma_prefix_split(p@, pos + 1, key_text(key_exp()), t7);
        }
    }
    if !expect_at(p, pos + 1, k_exp.as_slice()) {
        return None;
    }
    let pos = pos + 1 + k_exp.len();
    proof {
        if exists_m {
            lemma_decimal_then_close(p@, pos as int, m.exp);
        }
    }
    let (exp, pos) = match read_u64(p, pos, Ghost(m.exp)) {
        Some(x) => x,
        None => {
            return None;
        },
    };
    if pos >= p.len() || p[pos] != CLOSE_BRACE {
        return None;
    }
    let sub = match text_from_utf8(sub_bytes) {
        Some(s) => s,
        None => {
            return None;
        },
    };
    let role = match text_from_utf8(role_bytes) {
        Some(s) => s,
        None => {
            return None;
        },
    };
    let claims = Claims { sub, role, exp };
    let again = encode_claims(&claims);
    if !bytes_same(again.as_slice(), p) {
        return None;
    }
    proof {
        if exists_m {
            assert(decode_utf8(encode_utf8(claims.sub@)) == decode_utf8(encode_utf8(m.sub)));
            assert(decode_utf8(encode_utf8(claims.role@)) == decode_utf8(encode_utf8(m.role)));
            assert(claims@ =~= m);
        }
        assert forall|m2: ClaimsModel|
            #![trigger login_payload(m2)]
            login_payload(m2) == p@ && m2.exp <= u64::MAX implies claims@ == m2 by {
            lemma_login_payload_inj(claims@, m2);
        }
    }
    Some(claims)
}

proof fn lemma_int_items_inj(s1: Seq<i64>, s2: Seq<i64>, t1: Seq<u8>, t2: Seq<u8>)
    requires
        int_items(s1) + (seq![CLOSE_BRACKET] + t1) == int_items(s2) + (seq![CLOSE_BRACKET] + t2),
    ensures
        s1 == s2,
        t1 == t2,
    decreases s1.len(),
{
    let l = int_items(s1) + (seq![CLOSE_BRACKET] + t1);
    if s1.len() > 0 {
        lemma_decimal_digits((if s1[0] < 0 { -s1[0] } else { s1[0] as int }) as nat);
    }
    if s2.len() > 0 {
        lemma_decimal_digits((if s2[0] < 0 { -s2[0] } else { s2[0] as int }) as nat);
    }
    if s1.len() == 0 && s2.len() == 0 {
        lemma_drop_common(seq![CLOSE_BRACKET], t1, t2);
    } else if s1.len() == 0 {
        assert(l[0] == CLOSE_BRACKET);
        assert((int_items(s2) + (seq![CLOSE_BRACKET] + t2))[0] == decimal_int(s2[0] as int)[0]);
    } else if s2.len() == 0 {
        assert(l[0] == decimal_int(s1[0] as int)[0]);
        assert((int_items(s2) + (seq![CLOSE_BRACKET] + t2))[0] == CLOSE_BRACKET);
    } else {
        let r1 = if s1.len() == 1 {
            seq![CLOSE_BRACKET] + t1
        } else {
            seq![COMMA] + (int_items(s1.drop_first()) + (seq![CLOSE_BRACKET] + t1))
        };
        let r2 = if s2.len() == 1 {
            seq![CLOSE_BRACKET] + t2
        } else {
            seq![COMMA] + (int_items(s2.drop_first()) + (seq![CLOSE_BRACKET] + t2))
        };
        assert(l =~= decimal_int(s1[0] as int) + r1);
        assert(int_items(s2) + (seq![CLOSE_BRACKET] + t2) =~= decimal_int(s2[0] as int) + r2);
        lemma_decimal_int_inj(s1[0] as int, s2[0] as int, r1, r2);
        if s1.len() == 1 && s2.len() == 1 {
            lemma_drop_common(seq![CLOSE_BRACKET], t1, t2);
            assert(s1 =~= s2);
        } else if s1.len() == 1 {
            assert(r1[0] == CLOSE_BRACKET);
            assert(r2[0] == COMMA);
        } else if s2.len() == 1 {
            assert(r1[0] == COMMA);
            assert(r2[0] == CLOSE_BRACKET);
        } else {
            lemma_drop_common(
                seq![COMMA],
                int_items(s1.drop_first()) + (seq![CLOSE_BRACKET] + t1),
                int_items(s2.drop_first()) + (seq![CLOSE_BRACKET] + t2),
            );
            lemma_int_items_inj(s1.drop_first(), s2.drop_first(), t1, t2);
            assert(s1 =~= seq![s1[0]] + s1.drop_first());
            assert(s2 =~= seq![s2[0]] + s2.drop_first());
        }
    }
}

/// Different exam claims have different payloads.
pub proof fn lemma_exam_payload_inj(m1: ExamModel, m2: ExamModel)
    requires
        exam_payload(m1) == exam_payload(m2),
    ensures
        m1 == m2,
{
    let head = seq![OPEN_BRACE] + key_text(key_qids()) + seq![OPEN_BRACKET];
    let tail = |m: ExamModel|
        seq![COMMA] + (key_text(key_exp()) + (decimal(m.exp) + seq![CLOSE_BRACE]));
    assert(exam_payload(m1) =~= head + (int_items(m1.question_ids) + (seq![CLOSE_BRACKET] + tail(
        m1,
    ))));
    assert(exam_payload(m2) =~= head + (int_items(m2.question_ids) + (seq![CLOSE_BRACKET] + tail(
        m2,
    ))));
    lemma_drop_common(
        head,
        int_items(m1.question_ids) + (seq![CLOSE_BRACKET] + tail(m1)),
        int_items(m2.question_ids) + (seq![CLOSE_BRACKET] + tail(m2)),
    );
    lemma_int_items_inj(m1.question_ids, m2.question_ids, tail(m1), tail(m2));
    let last = seq![COMMA] + key_text(key_exp());
    assert(tail(m1) =~= last + (decimal(m1.exp) + seq![CLOSE_BRACE]));
    assert(tail(m2) =~= last + (decimal(m2.exp) + seq![CLOSE_BRACE]));
    lemma_drop_common(last, decimal(m1.exp) + seq![CLOSE_BRACE], decimal(m2.exp) + seq![
        CLOSE_BRACE,
    ]);
    lemma_decimal_inj(m1.exp, m2.exp, seq![CLOSE_BRACE], seq![CLOSE_BRACE]);
}

/// The exam claims whose payload is exactly `p`, if there are any.
#[verifier::rlimit(80)]
pub fn decode_exam_claims(p: &[u8]) -> (r: Option<ExamClaims>)
    ensures
        r matches Some(c) ==> exam_payload(c@) == p@,
        forall|m: ExamModel|
            #![trigger exam_payload(m)]
            exam_payload(m) == p@ && m.exp <= u64::MAX ==> r is Some && r->Some_0@ == m,
{
    let ghost exists_m = exists|m: ExamModel| #[trigger]
        exam_payload(m) == p@ && m.exp <= u64::MAX;
    let ghost m = choose|m: ExamModel| #[trigger] exam_payload(m) == p@ && m.exp <= u64::MAX;
    let ghost t0 = key_text(key_qids()) + (int_list(m.question_ids) + (seq![COMMA] + (key_text(
        key_exp(),
    ) + (decimal(m.exp) + seq![CLOSE_BRACE]))));
    let ghost t1 = int_list(m.question_ids) + (seq![COMMA] + (key_text(key_exp()) + (decimal(m.exp)
        + seq![CLOSE_BRACE])));
    let ghost t2 = seq![COMMA] + (key_text(key_exp()) + (decimal(m.exp) + seq![CLOSE_BRACE]));
    let ghost t3 = key_text(key_exp()) + (decimal(m.exp) + seq![CLOSE_BRACE]);
    let ghost t4 = decimal(m.exp) + seq![CLOSE_BRACE];
    proof {
        if exists_m {
            assert(p@.subrange(0, p@.len() as int) =~= p@);
            assert(prefix_at(p@, 0, seq![OPEN_BRACE] + t0));
            lemma_byte_at(p@, 0, OPEN_BRACE, t0);
            lemma_prefix_split(p@, 1, key_text(key_qids()), t1);
        }
    }
    if p.len() == 0 || p[0] != OPEN_BRACE {
        return None;
    }
    let k_qids = qids_key();
    if !expect_at(p, 1, k_qids.as_slice()) {
        return None;
    }
    let pos = 1 + k_qids.len();
    proof {
        if exists_m {
            lemma_prefix_split(p@, pos as int, int_list(m.question_ids), t2);
        }
    }
    let (ids, pos) = match read_int_list(p, pos, Ghost(m.question_ids)) {
        Some(x) => x,
        None => {
            return None;
        },
    };
    proof {
        if exists_m {
            lemma_byte_at(p@, pos as int, COMMA, t3);
        }
    }
    if pos >= p.len() || p[pos] != COMMA {
        return None;
    }
    let k_exp = exp_key();
    proof {
        if exists_m {
            lemma_prefix_split(p@, pos + 1, key_text(key_exp()), t4);
        }
    }
    if !expect_at(p, pos + 1, k_exp.as_slice()) {
        return None;
    }
    let pos = pos + 1 + k_exp.len();
    proof {
        if exists_m {
            lemma_decimal_then_close(p@, pos as int, m.exp);
        }
    }
    let (exp, pos) = match read_u64(p, pos, Ghost(m.exp)) {
        Some(x) => x,
        None => {
            return None;
        },
    };
    if pos >= p.len() || p[pos] != CLOSE_BRACE {
        return None;
    }
    let claims = ExamClaims { question_ids: ids, exp };
    let again = encode_exam_claims(&claims);
    if !bytes_same(again.as_slice(), p) {
        return None;
    }
    proof {
        if exists_m {
            assert(claims@ =~= m);
        }
        assert forall|m2: ExamModel|
            #![trigger exam_payload(m2)]
            exam_payload(m2) == p@ && m2.exp <= u64::MAX implies claims@ == m2 by {
            lemma_exam_payload_inj(claims@, m2);
        }
    }
    Some(claims)
}

} // verus!
