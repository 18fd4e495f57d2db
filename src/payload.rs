//! The byte layout of a claim payload: a flat JSON object written in one
//! canonical form (no whitespace, fixed key order, minimal escapes).
use vstd::prelude::*;

verus! {

pub const QUOTE: u8 = 34;
pub const BACKSLASH: u8 = 92;
pub const COMMA: u8 = 44;
pub const COLON: u8 = 58;
pub const MINUS: u8 = 45;
pub const OPEN_BRACE: u8 = 123;
pub const CLOSE_BRACE: u8 = 125;
pub const OPEN_BRACKET: u8 = 91;
pub const CLOSE_BRACKET: u8 = 93;

pub open spec fn is_digit(b: u8) -> bool {
    48 <= b <= 57
}

pub open spec fn hex_digit(v: u8) -> u8 {
    if v < 10 {
        (48 + v) as u8
    } else {
        (87 + v) as u8
    }
}

/// How one byte of a string value is written between the quotes.
pub open spec fn escape_byte(b: u8) -> Seq<u8> {
    if b == QUOTE {
        seq![BACKSLASH, QUOTE]
    } else if b == BACKSLASH {
        seq![BACKSLASH, BACKSLASH]
    } else if b < 32 {
        seq![BACKSLASH, 117u8, 48u8, 48u8, hex_digit(b / 16), hex_digit(b % 16)]
    } else {
        seq![b]
    }
}

pub open spec fn escape_bytes(s: Seq<u8>) -> Seq<u8>
    decreases s.len(),
{
    if s.len() == 0 {
        Seq::empty()
    } else {
        escape_byte(s[0]) + escape_bytes(s.drop_first())
    }
}

/// A string value: its bytes, escaped, between double quotes.
pub open spec fn quoted(s: Seq<u8>) -> Seq<u8> {
    seq![QUOTE] + escape_bytes(s) + seq![QUOTE]
}

pub open spec fn digit_byte(d: nat) -> u8 {
    (48 + d) as u8
}

/// The decimal digits of `n`, most significant first, without leading zeros.
pub open spec fn decimal(n: nat) -> Seq<u8>
    decreases n,
{
    if n < 10 {
        seq![digit_byte(n)]
    } else {
        decimal(n / 10).push(digit_byte(n % 10))
    }
}

pub open spec fn decimal_int(v: int) -> Seq<u8> {
    if v < 0 {
        seq![MINUS] + decimal((-v) as nat)
    } else {
        decimal(v as nat)
    }
}

/// The integers of `s` in decimal, separated by commas.
pub open spec fn int_items(s: Seq<i64>) -> Seq<u8>
    decreases s.len(),
{
    if s.len() == 0 {
        Seq::empty()
    } else if s.len() == 1 {
        decimal_int(s[0] as int)
    } else {
        decimal_int(s[0] as int) + seq![COMMA] + int_items(s.drop_first())
    }
}

pub open spec fn int_list(s: Seq<i64>) -> Seq<u8> {
    seq![OPEN_BRACKET] + int_items(s) + seq![CLOSE_BRACKET]
}

/// `"key":`
pub open spec fn key_text(key: Seq<u8>) -> Seq<u8> {
    seq![QUOTE] + key + seq![QUOTE, COLON]
}

// ---------------------------------------------------------------- lemmas

proof fn lemma_hex_digit_inj(a: u8, b: u8)
    requires
        a < 16,
        b < 16,
        hex_digit(a) == hex_digit(b),
    ensures
        a == b,
{
}

proof fn lemma_escape_byte_shape(b: u8)
    ensures
        escape_byte(b).len() >= 1,
        escape_byte(b)[0] != QUOTE,
        escape_byte(b)[0] == BACKSLASH <==> (b == QUOTE || b == BACKSLASH || b < 32),
        escape_byte(b)[0] == BACKSLASH ==> escape_byte(b).len() >= 2,
        escape_byte(b)[0] != BACKSLASH ==> escape_byte(b) == seq![b],
{
}

pub proof fn lemma_escape_concat(a: Seq<u8>, b: Seq<u8>)
    ensures
        escape_bytes(a + b) == escape_bytes(a) + escape_bytes(b),
    decreases a.len(),
{
    if a.len() == 0 {
        assert(a + b =~= b);
    } else {
        assert((a + b).drop_first() =~= a.drop_first() + b);
        lemma_escape_concat(a.drop_first(), b);
        assert(escape_bytes(a + b) =~= escape_byte(a[0]) + (escape_bytes(a.drop_first())
            + escape_bytes(b)));
    }
}

/// A quoted string is recognised by where its closing quote stands.
#[verifier::spinoff_prover]
#[verifier::rlimit(60)]
pub proof fn lemma_quoted_inj(x: Seq<u8>, y: Seq<u8>, t1: Seq<u8>, t2: Seq<u8>)
    requires
        escape_bytes(x) + seq![QUOTE] + t1 == escape_bytes(y) + seq![QUOTE] + t2,
    ensures
        x == y,
        t1 == t2,
    decreases x.len(),
{
    let l = escape_bytes(x) + seq![QUOTE] + t1;
    if x.len() == 0 {
        if y.len() > 0 {
            lemma_escape_byte_shape(y[0]);
            assert(l[0] == QUOTE);
            assert((escape_bytes(y) + seq![QUOTE] + t2)[0] == escape_byte(y[0])[0]);
        }
        assert(escape_bytes(y) =~= Seq::<u8>::empty());
        assert(t1 =~= l.subrange(1, l.len() as int));
        assert(t2 =~= l.subrange(1, l.len() as int));
    } else {
        lemma_escape_byte_shape(x[0]);
        if y.len() == 0 {
            assert(l[0] == escape_byte(x[0])[0]);
            assert((escape_bytes(y) + seq![QUOTE] + t2)[0] == QUOTE);
        } else {
            lemma_escape_byte_shape(y[0]);
            let ex = escape_byte(x[0]);
            let ey = escape_byte(y[0]);
            let rx = escape_bytes(x.drop_first()) + seq![QUOTE] + t1;
            let ry = escape_bytes(y.drop_first()) + seq![QUOTE] + t2;
            assert(l =~= ex + rx);
            assert(escape_bytes(y) + seq![QUOTE] + t2 =~= ey + ry);
            assert((ex + rx)[0] == ex[0]);
            assert((ey + ry)[0] == ey[0]);
            assert(ex.len() == ey.len() && ex == ey) by {
                if ex[0] == BACKSLASH {
                    assert((ex + rx)[1] == ex[1]);
                    assert((ey + ry)[1] == ey[1]);
                    if ex.len() == 6 {
                        assert((ex + rx)[4] == ex[4]);
                        assert((ey + ry)[4] == ey[4]);
                        assert((ex + rx)[5] == ex[5]);
                        assert((ey + ry)[5] == ey[5]);
                    }
                }
            }
            assert(x[0] == y[0]) by {
                if x[0] < 32 && y[0] < 32 {
                    lemma_hex_digit_inj(x[0] / 16, y[0] / 16);
                    lemma_hex_digit_inj(x[0] % 16, y[0] % 16);
                }
            }
            assert(rx =~= (ex + rx).subrange(ex.len() as int, (ex + rx).len() as int));
            assert(ry =~= (ey + ry).subrange(ey.len() as int, (ey + ry).len() as int));
            lemma_quoted_inj(x.drop_first(), y.drop_first(), t1, t2);
            assert(x =~= seq![x[0]] + x.drop_first());
            assert(y =~= seq![y[0]] + y.drop_first());
        }
    }
}

pub proof fn lemma_decimal_digits(n: nat)
    ensures
        decimal(n).len() >= 1,
        forall|i: int| 0 <= i < decimal(n).len() ==> is_digit(#[trigger] decimal(n)[i]),
    decreases n,
{
    if n >= 10 {
        lemma_decimal_digits(n / 10);
    }
}

pub open spec fn digits_value(s: Seq<u8>) -> nat
    decreases s.len(),
{
    if s.len() == 0 {
        0
    } else {
        digits_value(s.drop_last()) * 10 + (s.last() - 48) as nat
    }
}

pub proof fn lemma_decimal_value(n: nat)
    ensures
        digits_value(decimal(n)) == n,
    decreases n,
{
    if n >= 10 {
        lemma_decimal_value(n / 10);
        assert(decimal(n).drop_last() =~= decimal(n / 10));
        assert(decimal(n).last() == digit_byte(n % 10));
        assert(digit_byte(n % 10) - 48 == n % 10);
        assert((n / 10) * 10 + n % 10 == n) by (nonlinear_arith);
        assert(digits_value(decimal(n)) == digits_value(decimal(n / 10)) * 10 + n % 10);
    } else {
        assert(decimal(n).drop_last() =~= Seq::<u8>::empty());
        assert(decimal(n).last() == digit_byte(n));
        assert(digit_byte(n) - 48 == n);
        assert(digits_value(decimal(n)) == digits_value(Seq::<u8>::empty()) * 10 + n);
    }
}

/// A decimal is recognised by where its first non-digit follows.
pub proof fn lemma_decimal_inj(n: nat, m: nat, t1: Seq<u8>, t2: Seq<u8>)
    requires
        decimal(n) + t1 == decimal(m) + t2,
        t1.len() > 0,
        !is_digit(t1[0]),
        t2.len() > 0,
        !is_digit(t2[0]),
    ensures
        n == m,
        t1 == t2,
{
    lemma_decimal_digits(n);
    lemma_decimal_digits(m);
    let a = decimal(n);
    let b = decimal(m);
    let l = a + t1;
    if a.len() < b.len() {
        assert(l[a.len() as int] == t1[0]);
        assert((b + t2)[a.len() as int] == b[a.len() as int]);
    }
    if b.len() < a.len() {
        assert(l[b.len() as int] == a[b.len() as int]);
        assert((b + t2)[b.len() as int] == t2[0]);
    }
    assert(a =~= l.subrange(0, a.len() as int));
    assert(b =~= (b + t2).subrange(0, b.len() as int));
    lemma_decimal_value(n);
    lemma_decimal_value(m);
    assert(t1 =~= l.subrange(a.len() as int, l.len() as int));
    assert(t2 =~= (b + t2).subrange(b.len() as int, l.len() as int));
}

pub proof fn lemma_decimal_int_inj(v: int, w: int, t1: Seq<u8>, t2: Seq<u8>)
    requires
        decimal_int(v) + t1 == decimal_int(w) + t2,
        t1.len() > 0,
        !is_digit(t1[0]),
        t1[0] != MINUS,
        t2.len() > 0,
        !is_digit(t2[0]),
        t2[0] != MINUS,
    ensures
        v == w,
        t1 == t2,
{
    let l = decimal_int(v) + t1;
    lemma_decimal_digits((if v < 0 { -v } else { v }) as nat);
    lemma_decimal_digits((if w < 0 { -w } else { w }) as nat);
    assert(l[0] == decimal_int(v)[0]);
    assert((decimal_int(w) + t2)[0] == decimal_int(w)[0]);
    if v < 0 && w < 0 {
        let nv = decimal((-v) as nat);
        let nw = decimal((-w) as nat);
        assert(l.drop_first() =~= nv + t1);
        assert((decimal_int(w) + t2).drop_first() =~= nw + t2);
        lemma_decimal_inj((-v) as nat, (-w) as nat, t1, t2);
    } else if v >= 0 && w >= 0 {
        lemma_decimal_inj(v as nat, w as nat, t1, t2);
    }
}


pub open spec fn prefix_at(p: Seq<u8>, pos: int, q: Seq<u8>) -> bool {
    0 <= pos && pos + q.len() <= p.len() && p.subrange(pos, pos + q.len()) == q
}

pub proof fn lemma_escape_split(x: Seq<u8>, k: int)
    requires
        0 <= k < x.len(),
    ensures
        escape_bytes(x) == escape_bytes(x.take(k)) + escape_byte(x[k]) + escape_bytes(
            x.skip(k + 1),
        ),
{
    lemma_escape_concat(x.take(k), x.skip(k));
    assert(x =~= x.take(k) + x.skip(k));
    assert(x.skip(k).drop_first() =~= x.skip(k + 1));
}

proof fn lemma_escape_take_le(x: Seq<u8>, k: int)
    requires
        0 <= k <= x.len(),
    ensures
        escape_bytes(x.take(k)).len() <= escape_bytes(x).len(),
{
    lemma_escape_concat(x.take(k), x.skip(k));
    assert(x =~= x.take(k) + x.skip(k));
}

proof fn lemma_escape_take_next(x: Seq<u8>, k: int)
    requires
        0 <= k < x.len(),
    ensures
        escape_bytes(x.take(k + 1)) == escape_bytes(x.take(k)) + escape_byte(x[k]),
{
    lemma_escape_concat(x.take(k), seq![x[k]]);
    assert(x.take(k + 1) =~= x.take(k) + seq![x[k]]);
    assert(seq![x[k]].drop_first() =~= Seq::<u8>::empty());
    assert(escape_byte(x[k]) + escape_bytes(Seq::<u8>::empty()) =~= escape_byte(x[k]));
}

pub proof fn lemma_digits_value_take_mono(s: Seq<u8>, k: int)
    requires
        0 <= k <= s.len(),
    ensures
        digits_value(s.take(k)) <= digits_value(s),
    decreases s.len() - k,
{
    if k < s.len() {
        lemma_digits_value_take_mono(s, k + 1);
        assert(s.take(k + 1).drop_last() =~= s.take(k));
    } else {
        assert(s.take(k) =~= s);
    }
}

pub proof fn lemma_int_items_snoc(s: Seq<i64>, x: i64)
    ensures
        int_items(s.push(x)) == if s.len() == 0 {
            decimal_int(x as int)
        } else {
            int_items(s) + seq![COMMA] + decimal_int(x as int)
        },
    decreases s.len(),
{
    if s.len() == 1 {
        assert(s.push(x).drop_first() =~= seq![x]);
        assert(int_items(seq![x]) == decimal_int(x as int));
        assert(int_items(s) == decimal_int(s[0] as int));
    } else if s.len() >= 2 {
        lemma_int_items_snoc(s.drop_first(), x);
        assert(s.push(x).drop_first() =~= s.drop_first().push(x));
        assert(int_items(s) == decimal_int(s[0] as int) + seq![COMMA] + int_items(s.drop_first()));
        assert(int_items(s.push(x)) == decimal_int(s[0] as int) + seq![COMMA] + int_items(
            s.drop_first().push(x),
        ));
        assert(int_items(s.push(x)) =~= int_items(s) + seq![COMMA] + decimal_int(x as int));
    }
}

pub proof fn lemma_int_items_split(s: Seq<i64>, k: int)
    requires
        0 < k < s.len(),
    ensures
        int_items(s) == int_items(s.take(k)) + seq![COMMA] + int_items(s.skip(k)),
    decreases k,
{
    if k == 1 {
        assert(s.take(1) =~= seq![s[0]]);
        assert(s.skip(1) =~= s.drop_first());
    } else {
        lemma_int_items_split(s.drop_first(), k - 1);
        assert(s.take(k).drop_first() =~= s.drop_first().take(k - 1));
        assert(s.drop_first().skip(k - 1) =~= s.skip(k));
    }
}

pub proof fn lemma_int_items_head(s: Seq<i64>)
    requires
        s.len() > 0,
    ensures
        s.len() == 1 ==> int_items(s) == decimal_int(s[0] as int),
        s.len() > 1 ==> int_items(s) == decimal_int(s[0] as int) + seq![COMMA] + int_items(
            s.drop_first(),
        ),
{
}

// ---------------------------------------------------------------- writers

pub fn push_all(out: &mut Vec<u8>, s: &[u8])
    ensures
        final(out)@ == old(out)@ + s@,
{
    let ghost start = out@;
    let mut i: usize = 0;
    while i < s.len()
        invariant
            i <= s.len(),
            out@ == start + s@.take(i as int),
        decreases s.len() - i,
    {
        out.push(s[i]);
        i = i + 1;
        assert(out@ =~= start + s@.take(i as int));
    }
    assert(s@.take(i as int) =~= s@);
}

fn hex_char(v: u8) -> (r: u8)
    requires
        v < 16,
    ensures
        r == hex_digit(v),
{
    if v < 10 {
        48 + v
    } else {
        87 + v
    }
}

pub fn write_quoted(out: &mut Vec<u8>, s: &[u8])
    ensures
        final(out)@ == old(out)@ + quoted(s@),
{
    let ghost start = out@;
    out.push(QUOTE);
    let mut i: usize = 0;
    while i < s.len()
        invariant
            i <= s.len(),
            out@ == start + seq![QUOTE] + escape_bytes(s@.take(i as int)),
        decreases s.len() - i,
    {
        let b = s[i];
        proof {
            lemma_escape_take_next(s@, i as int);
        }
        if b == QUOTE || b == BACKSLASH {
            out.push(BACKSLASH);
            out.push(b);
        } else if b < 32 {
            out.push(BACKSLASH);
            out.push(117);
            out.push(48);
            out.push(48);
            out.push(hex_char(b / 16));
            out.push(hex_char(b % 16));
        } else {
            out.push(b);
        }
        i = i + 1;
        assert(out@ =~= start + seq![QUOTE] + escape_bytes(s@.take(i as int)));
    }
    out.push(QUOTE);
    assert(s@.take(i as int) =~= s@);
    assert(out@ =~= start + quoted(s@));
}

pub fn write_decimal(out: &mut Vec<u8>, n: u64)
    ensures
        final(out)@ == old(out)@ + decimal(n as nat),
    decreases n,
{
    if n >= 10 {
        write_decimal(out, n / 10);
    }
    out.push(48 + (n % 10) as u8);
    assert(out@ =~= old(out)@ + decimal(n as nat));
}

pub fn write_int(out: &mut Vec<u8>, v: i64)
    ensures
        final(out)@ == old(out)@ + decimal_int(v as int),
{
    if v < 0 {
        out.push(MINUS);
        let magnitude: u64 = if v == i64::MIN {
            9223372036854775808u64
        } else {
            (-v) as u64
        };
        write_decimal(out, magnitude);
        assert(out@ =~= old(out)@ + decimal_int(v as int));
    } else {
        write_decimal(out, v as u64);
    }
}

pub fn write_int_list(out: &mut Vec<u8>, s: &[i64])
    ensures
        final(out)@ == old(out)@ + int_list(s@),
{
    let ghost start = out@;
    out.push(OPEN_BRACKET);
    let mut i: usize = 0;
    while i < s.len()
        invariant
            i <= s.len(),
            out@ == start + seq![OPEN_BRACKET] + int_items(s@.take(i as int)),
        decreases s.len() - i,
    {
        proof {
            lemma_int_items_snoc(s@.take(i as int), s@[i as int]);
            assert(s@.take(i as int).push(s@[i as int]) =~= s@.take(i + 1));
        }
        if i > 0 {
            out.push(COMMA);
        }
        write_int(out, s[i]);
        i = i + 1;
        assert(out@ =~= start + seq![OPEN_BRACKET] + int_items(s@.take(i as int)));
    }
    out.push(CLOSE_BRACKET);
    assert(s@.take(i as int) =~= s@);
    assert(out@ =~= start + int_list(s@));
}

/// Writes `"key":`.
pub fn write_key(out: &mut Vec<u8>, key: &[u8])
    ensures
        final(out)@ == old(out)@ + key_text(key@),
{
    out.push(QUOTE);
    push_all(out, key);
    out.push(QUOTE);
    out.push(COLON);
    assert(out@ =~= old(out)@ + key_text(key@));
}

/// Whether two byte strings are equal.
pub fn bytes_same(a: &[u8], b: &[u8]) -> (r: bool)
    ensures
        r == (a@ == b@),
{
    if a.len() != b.len() {
        return false;
    }
    let mut i: usize = 0;
    while i < a.len()
        invariant
            a.len() == b.len(),
            i <= a.len(),
            forall|j: int| 0 <= j < i ==> a@[j] == b@[j],
        decreases a.len() - i,
    {
        if a[i] != b[i] {
            return false;
        }
        i = i + 1;
    }
    assert(a@ =~= b@);
    true
}

// ---------------------------------------------------------------- readers
//
// Each reader is told, as a ghost value, what the bytes at `pos` are
// expected to encode; where they do, it returns that value and the
// position after it.

/// Whether `lit` stands in `p` at `pos`.
pub fn expect_at(p: &[u8], pos: usize, lit: &[u8]) -> (r: bool)
    ensures
        r == prefix_at(p@, pos as int, lit@),
{
    if pos > p.len() || lit.len() > p.len() - pos {
        return false;
    }
    let mut j: usize = 0;
    while j < lit.len()
        invariant
            j <= lit.len(),
            pos + lit.len() <= p.len(),
            forall|t: int| 0 <= t < j ==> p@[pos + t] == lit@[t],
        decreases lit.len() - j,
    {
        if p[pos + j] != lit[j] {
            assert(p@.subrange(pos as int, pos + lit@.len())[j as int] != lit@[j as int]);
            return false;
        }
        j = j + 1;
    }
    assert(p@.subrange(pos as int, pos + lit@.len()) =~= lit@);
    true
}

fn hex_value(b: u8) -> (r: Option<u8>)
    ensures
        r matches Some(v) ==> v < 16,
        forall|v: u8| v < 16 && b == #[trigger] hex_digit(v) ==> r == Some(v),
{
    if 48 <= b && b <= 57 {
        Some(b - 48)
    } else if 97 <= b && b <= 102 {
        Some(b - 87)
    } else {
        None
    }
}

pub fn read_quoted(p: &[u8], pos: usize, Ghost(x): Ghost<Seq<u8>>) -> (r: Option<(Vec<u8>, usize)>)
    ensures
        prefix_at(p@, pos as int, quoted(x)) ==> r is Some && r->Some_0.0@ == x && r->Some_0.1
            == pos + quoted(x).len(),
{
    let ghost h = prefix_at(p@, pos as int, quoted(x));
    proof {
        if h {
            let q = quoted(x);
            assert(p@.subrange(pos as int, pos + q.len())[0] == q[0]);
            lemma_escape_take_le(x, 0);
        }
    }
    if pos >= p.len() || p[pos] != QUOTE {
        return None;
    }
    let mut out: Vec<u8> = Vec::new();
    let mut i: usize = pos + 1;
    proof {
        assert(x.take(0) =~= Seq::<u8>::empty());
    }
    while i < p.len()
        invariant
            pos < i <= p.len(),
            h == prefix_at(p@, pos as int, quoted(x)),
            h ==> out@.len() <= x.len() && out@ == x.take(out@.len() as int) && i == pos + 1
                + escape_bytes(x.take(out@.len() as int)).len(),
            h ==> i < p.len(),
        decreases p.len() - i,
    {
        let ghost k = out@.len() as int;
        let ghost e = if k < x.len() { escape_byte(x[k]) } else { Seq::<u8>::empty() };
        proof {
            if h {
                let q = quoted(x);
                assert(p@.subrange(pos as int, pos + q.len()) == q);
                if k < x.len() {
                    lemma_escape_split(x, k);
                    lemma_escape_take_next(x, k);
                    lemma_escape_take_le(x, k + 1);
                    lemma_escape_byte_shape(x[k]);
                    let off = 1 + escape_bytes(x.take(k)).len();
                    assert(q =~= seq![QUOTE] + escape_bytes(x.take(k)) + e + escape_bytes(
                        x.skip(k + 1),
                    ) + seq![QUOTE]);
                    assert forall|t: int| 0 <= t < e.len() implies p@[i + t] == e[t] by {
                        assert(q[off + t] == e[t]);
                        assert(p@.subrange(pos as int, pos + q.len())[off + t] == q[off + t]);
                    }
                } else {
                    assert(x.take(k) =~= x);
                    assert(q[q.len() - 1] == QUOTE);
                    assert(p@.subrange(pos as int, pos + q.len())[q.len() - 1] == QUOTE);
                }
            }
        }
        assert(h && k < x.len() ==> (forall|t: int| 0 <= t < e.len() ==> p@[i + t] == e[t]));
        assert(h && k < x.len() ==> p@[i as int] == e[0] && (e.len() >= 2 ==> p@[i + 1] == e[1]));
        assert(h && k < x.len() && e[0] == BACKSLASH ==> e.len() >= 2);
        assert(h && k < x.len() ==> i + e.len() < p.len() && e[0] != QUOTE && (e[0] == BACKSLASH
            <==> (x[k] == QUOTE || x[k] == BACKSLASH || x[k] < 32)));
        assert(h && k >= x.len() ==> p@[i as int] == QUOTE && x.take(k) == x);
        let b = p[i];
        if b == QUOTE {
            assert(h ==> k >= x.len());
            assert(h ==> out@ == x);
            assert(h ==> i + 1 == pos + quoted(x).len());
            return Some((out, i + 1));
        } else if b == BACKSLASH {
            assert(h ==> k < x.len());
            assert(h ==> e[0] == BACKSLASH);
            assert(h ==> i + 1 < p.len());
            if i + 1 >= p.len() {
                return None;
            }
            let c = p[i + 1];
            if c == QUOTE || c == BACKSLASH {
                out.push(c);
                i = i + 2;
            } else if c == 117 {
                if p.len() - i <= 5 || p[i + 2] != 48 || p[i + 3] != 48 {
                    return None;
                }
                let hi = hex_value(p[i + 4]);
                let lo = hex_value(p[i + 5]);
                match (hi, lo) {
                    (Some(a), Some(z)) => {
                        proof {
                            if h {
                                let xb = x[k];
                                assert((xb / 16) * 16 + xb % 16 == xb) by (nonlinear_arith);
                            }
                        }
                        if a >= 2 {
                            return None;
                        }
                        out.push(a * 16 + z);
                        i = i + 6;
                    },
                    _ => {
                        return None;
                    },
                }
            } else {
                return None;
            }
        } else {
            out.push(b);
            i = i + 1;
        }
        proof {
            if h {
                assert(out@ =~= x.take(k + 1));
                lemma_escape_take_next(x, k);
                lemma_escape_take_le(x, k + 1);
                lemma_escape_split(x, k);
            }
        }
    }
    None
}

/// Where `decimal(n)` stands at `pos` and a byte that is no digit follows it.
pub open spec fn decimal_at(p: Seq<u8>, pos: int, n: nat) -> bool {
    prefix_at(p, pos, decimal(n)) && pos + decimal(n).len() < p.len() && !is_digit(
        p[pos + decimal(n).len()],
    )
}

pub fn read_u64(p: &[u8], pos: usize, Ghost(n): Ghost<nat>) -> (r: Option<(u64, usize)>)
    ensures
        decimal_at(p@, pos as int, n) && n <= u64::MAX ==> r == Some((n as u64, (pos
            + decimal(n).len()) as usize)),
        r matches Some((_, e)) ==> pos < e <= p.len(),
{
    if pos > p.len() {
        return None;
    }
    let ghost h = decimal_at(p@, pos as int, n) && n <= u64::MAX;
    let ghost d = decimal(n);
    proof {
        lemma_decimal_digits(n);
        lemma_decimal_value(n);
        if h {
            assert forall|t: int| 0 <= t < d.len() implies p@[pos + t] == d[t] by {
                assert(p@.subrange(pos as int, pos + d.len())[t] == d[t]);
            }
        }
    }
    let mut acc: u64 = 0;
    let mut i: usize = pos;
    proof {
        assert(d.take(0) =~= Seq::<u8>::empty());
    }
    while i < p.len() && 48 <= p[i] && p[i] <= 57
        invariant
            pos <= i <= p.len(),
            h == (decimal_at(p@, pos as int, n) && n <= u64::MAX),
            d == decimal(n),
            digits_value(d) == n,
            forall|t: int| 0 <= t < d.len() ==> is_digit(#[trigger] d[t]),
            h ==> forall|t: int| 0 <= t < d.len() ==> p@[pos + t] == #[trigger] d[t],
            h ==> i - pos <= d.len() && acc == digits_value(d.take(i - pos)),
        decreases p.len() - i,
    {
        let ghost k = i - pos;
        proof {
            if h {
                if k == d.len() {
                    assert(p@[pos + d.len()] == p@[i as int]);
                }
                assert(k < d.len());
                lemma_digits_value_take_mono(d, k + 1);
                assert(d.take(k + 1).drop_last() =~= d.take(k));
                assert(p@[pos + k] == d[k]);
            }
        }
        let digit = (p[i] - 48) as u64;
        match acc.checked_mul(10) {
            Some(t) => match t.checked_add(digit) {
                Some(v) => {
                    acc = v;
                },
                None => {
                    return None;
                },
            },
            None => {
                return None;
            },
        }
        i = i + 1;
    }
    if i == pos {
        proof {
            if h {
                assert(p@[pos + 0] == d[0]);
            }
        }
        return None;
    }
    proof {
        if h {
            if i - pos < d.len() {
                assert(p@[pos + (i - pos)] == d[i - pos]);
            }
            assert(d.take(d.len() as int) =~= d);
        }
    }
    Some((acc, i))
}

/// Where `decimal_int(v)` stands at `pos` and a byte that is no digit follows it.
pub open spec fn decimal_int_at(p: Seq<u8>, pos: int, v: int) -> bool {
    prefix_at(p, pos, decimal_int(v)) && pos + decimal_int(v).len() < p.len() && !is_digit(
        p[pos + decimal_int(v).len()],
    )
}

pub fn read_i64(p: &[u8], pos: usize, Ghost(v): Ghost<i64>) -> (r: Option<(i64, usize)>)
    ensures
        decimal_int_at(p@, pos as int, v as int) ==> r == Some((v, (pos + decimal_int(
            v as int,
        ).len()) as usize)),
        r matches Some((_, e)) ==> pos < e <= p.len(),
{
    let ghost h = decimal_int_at(p@, pos as int, v as int);
    if pos < p.len() && p[pos] == MINUS {
        let ghost m: nat = if v < 0 { (-v) as nat } else { 0 };
        proof {
            if h {
                lemma_decimal_digits(v as nat);
                if v >= 0 {
                    assert(p@.subrange(pos as int, pos + decimal_int(v as int).len())[0]
                        == decimal(v as nat)[0]);
                    assert(is_digit(decimal(v as nat)[0]));
                    assert(false);
                }
                let q = decimal_int(v as int);
                assert(q =~= seq![MINUS] + decimal(m));
                assert(p@.subrange(pos + 1, pos + 1 + decimal(m).len()) =~= p@.subrange(
                    pos as int,
                    pos + q.len(),
                ).drop_first());
                assert(q.len() == 1 + decimal(m).len());
                assert(q.drop_first() =~= decimal(m));
                assert(decimal_at(p@, pos + 1, m));
            }
        }
        match read_u64(p, pos + 1, Ghost(m)) {
            Some((mag, e)) => {
                if mag <= 9223372036854775807u64 {
                    Some((-(mag as i64), e))
                } else if mag == 9223372036854775808u64 {
                    Some((i64::MIN, e))
                } else {
                    None
                }
            },
            None => None,
        }
    } else {
        proof {
            if h && v < 0 {
                assert(p@.subrange(pos as int, pos + decimal_int(v as int).len())[0] == MINUS);
            }
        }
        match read_u64(p, pos, Ghost(if v >= 0 { v as nat } else { 0 })) {
            Some((mag, e)) => {
                if mag <= 9223372036854775807u64 {
                    Some((mag as i64, e))
                } else {
                    None
                }
            },
            None => None,
        }
    }
}

/// Where `int_list(s)` stands at `pos`.
pub fn read_int_list(p: &[u8], pos: usize, Ghost(s): Ghost<Seq<i64>>) -> (r: Option<
    (Vec<i64>, usize),
>)
    ensures
        prefix_at(p@, pos as int, int_list(s)) ==> r is Some && r->Some_0.0@ == s
            && r->Some_0.1 == pos + int_list(s).len(),
{
    let ghost h = prefix_at(p@, pos as int, int_list(s));
    let ghost q = int_list(s);
    proof {
        if h {
            assert forall|t: int| 0 <= t < q.len() implies p@[pos + t] == #[trigger] q[t] by {
                assert(p@.subrange(pos as int, pos + q.len())[t] == q[t]);
            }
        }
    }
    if pos >= p.len() || p[pos] != OPEN_BRACKET {
        proof {
            if h {
                assert(q[0] == OPEN_BRACKET);
            }
        }
        return None;
    }
    let mut out: Vec<i64> = Vec::new();
    if pos + 1 < p.len() && p[pos + 1] == CLOSE_BRACKET {
        proof {
            if h && s.len() > 0 {
                lemma_int_items_head(s);
                lemma_decimal_digits((if s[0] < 0 { -s[0] } else { s[0] as int }) as nat);
                assert(q[1] == int_items(s)[0]);
                assert(int_items(s)[0] == decimal_int(s[0] as int)[0]);
            }
            if h {
                assert(s =~= Seq::<i64>::empty());
            }
        }
        return Some((out, pos + 2));
    }
    let mut i: usize = pos + 1;
    proof {
        if h && s.len() == 0 {
            assert(q[1] == CLOSE_BRACKET);
        }
        assert(s.take(0) =~= Seq::<i64>::empty());
    }
    loop
        invariant
            pos < i <= p.len(),
            h == prefix_at(p@, pos as int, int_list(s)),
            q == int_list(s),
            h ==> forall|t: int| 0 <= t < q.len() ==> p@[pos + t] == #[trigger] q[t],
            h ==> out@.len() < s.len() && out@ == s.take(out@.len() as int) && i == pos + 1 + (
            if out@.len() == 0 {
                0
            } else {
                int_items(s.take(out@.len() as int)).len() + 1
            }),
        decreases p.len() - i,
    {
        let ghost k = out@.len() as int;
        let ghost after = pos + 1 + int_items(s.take(k + 1)).len();
        proof {
            if h {
                let item = decimal_int(s[k] as int);
                lemma_int_items_snoc(s.take(k), s[k]);
                assert(s.take(k).push(s[k]) =~= s.take(k + 1));
                if k + 1 < s.len() {
                    lemma_int_items_split(s, k + 1);
                    assert(q =~= seq![OPEN_BRACKET] + int_items(s.take(k + 1)) + seq![COMMA]
                        + int_items(s.skip(k + 1)) + seq![CLOSE_BRACKET]);
                    assert(q[after - pos] == COMMA);
                } else {
                    assert(s.take(k + 1) =~= s);
                    assert(q[after - pos] == CLOSE_BRACKET);
                }
                assert(int_items(s.take(k + 1)) =~= if k == 0 {
                    item
                } else {
                    int_items(s.take(k)) + seq![COMMA] + item
                });
                assert forall|t: int| 0 <= t < item.len() implies p@[i + t] == item[t] by {
                    assert(q[i - pos + t] == item[t]);
                }
                assert(p@.subrange(i as int, i + item.len()) =~= item);
                assert(p@[after] == q[after - pos]);
                assert(after == i + item.len());
            }
        }
        let read = read_i64(p, i, Ghost(if k < s.len() { s[k] } else { 0 }));
        match read {
            Some((v, e)) => {
                out.push(v);
                if e >= p.len() {
                    return None;
                }
                if p[e] == CLOSE_BRACKET {
                    proof {
                        if h {
                            assert(out@ =~= s.take(k + 1));
                            assert(s.take(k + 1) =~= s);
                            assert(q.len() == int_items(s).len() + 2);
                        }
                    }
                    return Some((out, e + 1));
                } else if p[e] == COMMA {
                    i = e + 1;
                    proof {
                        if h {
                            assert(out@ =~= s.take(k + 1));
                        }
                    }
                } else {
                    return None;
                }
            },
            None => {
                return None;
            },
        }
    }
}

} // verus!
