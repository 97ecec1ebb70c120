use vstd::prelude::*;

use crate::text::{decimal, digits_value, is_digit, lemma_decimal, push_decimal};

verus! {

// ---------------------------------------------------------------------------
// JSON string bodies
// ---------------------------------------------------------------------------

pub const QUOTE: u8 = 34;

pub const BACKSLASH: u8 = 92;

/// Lower-case hexadecimal digit of `v < 16`.
pub open spec fn hex_digit(v: u8) -> u8 {
    if v < 10 {
        (48 + v) as u8
    } else {
        (87 + v) as u8
    }
}

/// Value of a lower-case hexadecimal digit.
pub open spec fn hex_value(c: u8) -> Option<u8> {
    if 48 <= c <= 57 {
        Some((c - 48) as u8)
    } else if 97 <= c <= 102 {
        Some((c - 87) as u8)
    } else {
        None
    }
}

/// How one byte stands inside a JSON string: quote and backslash are
/// escaped, control bytes become `\u00XX`, every other byte (including
/// the bytes of multi-byte UTF-8 sequences) stands as it is.
pub open spec fn escape_byte(b: u8) -> Seq<u8> {
    if b == QUOTE || b == BACKSLASH {
        seq![BACKSLASH, b]
    } else if b < 32 {
        seq![BACKSLASH, 117u8, 48u8, 48u8, (48 + b / 16) as u8, hex_digit(b % 16)]
    } else {
        seq![b]
    }
}

/// The JSON string body of `s`.
pub open spec fn escaped(s: Seq<u8>) -> Seq<u8>
    decreases s.len(),
{
    if s.len() == 0 {
        seq![]
    } else {
        escape_byte(s[0]) + escaped(s.skip(1))
    }
}

/// Reads a JSON string body up to its closing quote: the bytes it stands
/// for and the number of body bytes read. Only the escapes that `escaped`
/// writes are accepted.
pub open spec fn unescaped(s: Seq<u8>) -> Option<(Seq<u8>, nat)>
    decreases s.len(),
{
    if s.len() == 0 {
        None
    } else if s[0] == QUOTE {
        Some((seq![], 0))
    } else if s[0] == BACKSLASH {
        if s.len() >= 2 && (s[1] == QUOTE || s[1] == BACKSLASH) {
            match unescaped(s.skip(2)) {
                Some((r, k)) => Some((seq![s[1]] + r, k + 2)),
                None => None,
            }
        } else if s.len() >= 6 && s[1] == 117 && s[2] == 48 && s[3] == 48 && (s[4] == 48 || s[4]
            == 49) && hex_value(s[5]) is Some {
            match unescaped(s.skip(6)) {
                Some((r, k)) => Some(
                    (seq![((s[4] - 48) * 16 + hex_value(s[5])->0) as u8] + r, k + 6),
                ),
                None => None,
            }
        } else {
            None
        }
    } else if s[0] < 32 {
        None
    } else {
        match unescaped(s.skip(1)) {
            Some((r, k)) => Some((seq![s[0]] + r, k + 1)),
            None => None,
        }
    }
}

pub proof fn lemma_escaped_append(a: Seq<u8>, b: Seq<u8>)
    ensures
        escaped(a + b) == escaped(a) + escaped(b),
    decreases a.len(),
{
    if a.len() == 0 {
        assert(a + b =~= b);
        assert(escaped(a) =~= Seq::<u8>::empty());
        assert(escaped(b) =~= escaped(a) + escaped(b));
    } else {
        lemma_escaped_append(a.skip(1), b);
        assert((a + b).skip(1) =~= a.skip(1) + b);
        assert((a + b)[0] == a[0]);
        assert(escaped(a + b) =~= escape_byte(a[0]) + escaped(a.skip(1) + b));
    }
}

/// Reading back a written string body gives the bytes written.
pub proof fn lemma_unescape_escaped(x: Seq<u8>, rest: Seq<u8>)
    ensures
        unescaped(escaped(x) + seq![QUOTE] + rest) == Some((x, escaped(x).len())),
    decreases x.len(),
{
    let t = escaped(x) + seq![QUOTE] + rest;
    if x.len() == 0 {
        assert(escaped(x) =~= Seq::<u8>::empty());
        assert(t[0] == QUOTE);
        assert(x =~= Seq::<u8>::empty());
    } else {
        let b = x[0];
        let e = escape_byte(b);
        let tail = escaped(x.skip(1)) + seq![QUOTE] + rest;
        lemma_unescape_escaped(x.skip(1), rest);
        assert(t =~= e + tail);
        assert(t.skip(e.len() as int) =~= tail);
        assert(x =~= seq![b] + x.skip(1));
        if b == QUOTE || b == BACKSLASH {
            assert(t[0] == BACKSLASH && t[1] == b);
        } else if b < 32 {
            assert(t[0] == BACKSLASH);
            assert(t[1] == 117 && t[2] == 48 && t[3] == 48);
            assert(t[4] == (48 + b / 16) as u8);
            assert(t[5] == hex_digit(b % 16));
            assert(hex_value(hex_digit(b % 16)) == Some((b % 16) as u8));
            assert(((t[4] - 48) * 16 + (b % 16)) as u8 == b);
        } else {
            assert(t[0] == b);
        }
    }
}

/// Appends the JSON string body of `s` to `out`.
pub fn push_escaped(s: &[u8], out: &mut Vec<u8>)
    ensures
        final(out)@ == old(out)@ + escaped(s@),
{
    let n = s.len();
    let mut i: usize = 0;
    assert(s@.take(0) =~= Seq::<u8>::empty());
    assert(escaped(Seq::<u8>::empty()) =~= Seq::<u8>::empty());
    assert(out@ =~= old(out)@ + escaped(s@.take(0)));
    while i < n
        invariant
            n == s@.len(),
            i <= n,
            out@ == old(out)@ + escaped(s@.take(i as int)),
        decreases n - i,
    {
        let b = s[i];
        proof {
            lemma_escaped_append(s@.take(i as int), seq![b]);
            assert(s@.take(i + 1) =~= s@.take(i as int) + seq![b]);
            assert(seq![b].skip(1) =~= Seq::<u8>::empty());
            assert(escaped(Seq::<u8>::empty()) =~= Seq::<u8>::empty());
            assert(seq![b][0] == b);
            assert(escaped(seq![b]) =~= escape_byte(b) + escaped(seq![b].skip(1)));
            assert(escaped(seq![b]) =~= escape_byte(b));
        }
        if b == QUOTE || b == BACKSLASH {
            out.push(BACKSLASH);
            out.push(b);
        } else if b < 32 {
            out.push(BACKSLASH);
            out.push(117);
            out.push(48);
            out.push(48);
            out.push(48 + b / 16);
            let low = b % 16;
            if low < 10 {
                out.push(48 + low);
            } else {
                out.push(87 + low);
            }
        } else {
            out.push(b);
        }
        assert(out@ =~= old(out)@ + escaped(s@.take(i + 1)));
        i = i + 1;
    }
    assert(s@.take(n as int) =~= s@);
}

fn hex_value_exec(c: u8) -> (r: Option<u8>)
    ensures
        r == hex_value(c),
{
    if 48 <= c && c <= 57 {
        Some(c - 48)
    } else if 97 <= c && c <= 102 {
        Some(c - 87)
    } else {
        None
    }
}

/// Reads the JSON string body that starts at `start`: the bytes it stands
/// for and the index of its closing quote.
pub fn read_escaped(p: &[u8], start: usize) -> (r: Option<(Vec<u8>, usize)>)
    requires
        start <= p@.len(),
    ensures
        match unescaped(p@.skip(start as int)) {
            Some((x, k)) => r matches Some((v, e)) && v@ == x && e == start + k,
            None => r is None,
        },
{
    let n = p.len();
    let mut out: Vec<u8> = Vec::new();
    let mut i: usize = start;
    while i < n
        invariant
            n == p@.len(),
            start <= i <= n,
            unescaped(p@.skip(start as int)) == match unescaped(p@.skip(i as int)) {
                Some((x, k)) => Some((out@ + x, (k + (i - start)) as nat)),
                None => None::<(Seq<u8>, nat)>,
            },
        decreases n - i,
    {
        let ghost s = p@.skip(i as int);
        let b = p[i];
        assert(s[0] == b);
        if b == QUOTE {
            assert(out@ + seq![] =~= out@);
            return Some((out, i));
        } else if b == BACKSLASH {
            if n - i > 1 && (p[i + 1] == QUOTE || p[i + 1] == BACKSLASH) {
                let c = p[i + 1];
                assert(s.skip(2) =~= p@.skip(i + 2));
                proof {
                    match unescaped(s.skip(2)) {
                        Some((x, k)) => {
                            assert(out@ + (seq![c] + x) =~= out@.push(c) + x);
                        },
                        None => {},
                    }
                }
                out.push(c);
                i = i + 2;
            } else if n - i > 5 && p[i + 1] == 117 && p[i + 2] == 48 && p[i + 3] == 48 && (p[i
                + 4] == 48 || p[i + 4] == 49) && hex_value_exec(p[i + 5]).is_some() {
                let high = p[i + 4] - 48;
                let low = match hex_value_exec(p[i + 5]) {
                    Some(v) => v,
                    None => 0,
                };
                let c: u8 = high * 16 + low;
                assert(s.skip(6) =~= p@.skip(i + 6));
                proof {
                    match unescaped(s.skip(6)) {
                        Some((x, k)) => {
                            assert(out@ + (seq![c] + x) =~= out@.push(c) + x);
                        },
                        None => {},
                    }
                }
                out.push(c);
                i = i + 6;
            } else {
                return None;
            }
        } else if b < 32 {
            return None;
        } else {
            assert(s.skip(1) =~= p@.skip(i + 1));
            proof {
                match unescaped(s.skip(1)) {
                    Some((x, k)) => {
                        assert(out@ + (seq![b] + x) =~= out@.push(b) + x);
                    },
                    None => {},
                }
            }
            out.push(b);
            i = i + 1;
        }
    }
    assert(p@.skip(n as int).len() == 0);
    None
}

// ---------------------------------------------------------------------------
// JSON numbers
// ---------------------------------------------------------------------------

/// Length of the run of digits at the start of `s`.
pub open spec fn digit_run(s: Seq<u8>) -> nat
    decreases s.len(),
{
    if s.len() > 0 && is_digit(s[0]) {
        1 + digit_run(s.skip(1))
    } else {
        0
    }
}

/// The number written at the start of `s` and the length of its numeral;
/// `None` where no digit stands there or the value exceeds `u64`.
pub open spec fn number_at(s: Seq<u8>) -> Option<(u64, nat)> {
    let n = digit_run(s);
    if n == 0 || digits_value(s.take(n as int)) > u64::MAX {
        None
    } else {
        Some((digits_value(s.take(n as int)) as u64, n))
    }
}

proof fn lemma_digit_run_prefix(a: Seq<u8>, t: Seq<u8>)
    requires
        forall|i: int| 0 <= i < a.len() ==> is_digit(#[trigger] a[i]),
    ensures
        digit_run(a + t) == a.len() + digit_run(t),
    decreases a.len(),
{
    if a.len() == 0 {
        assert(a + t =~= t);
    } else {
        assert((a + t).skip(1) =~= a.skip(1) + t);
        assert((a + t)[0] == a[0]);
        lemma_digit_run_prefix(a.skip(1), t);
    }
}

proof fn lemma_digit_run_bound(s: Seq<u8>)
    ensures
        digit_run(s) <= s.len(),
        forall|i: int| 0 <= i < digit_run(s) ==> is_digit(#[trigger] s[i]),
    decreases s.len(),
{
    if s.len() > 0 && is_digit(s[0]) {
        lemma_digit_run_bound(s.skip(1));
        assert forall|i: int| 0 <= i < digit_run(s) implies is_digit(#[trigger] s[i]) by {
            if i > 0 {
                assert(s[i] == s.skip(1)[i - 1]);
            }
        }
    }
}

pub proof fn lemma_digits_value_mono(s: Seq<u8>, j: int, k: int)
    requires
        0 <= j <= k <= s.len(),
        forall|i: int| 0 <= i < k ==> is_digit(#[trigger] s[i]),
    ensures
        digits_value(s.take(j)) <= digits_value(s.take(k)),
    decreases k - j,
{
    if j < k {
        lemma_digits_value_mono(s, j, k - 1);
        assert(s.take(k).drop_last() =~= s.take(k - 1));
        assert(is_digit(s[k - 1]));
    }
}

/// Reading back a written numeral gives the number written.
pub proof fn lemma_number_at_decimal(v: u64, t: Seq<u8>)
    requires
        t.len() > 0,
        !is_digit(t[0]),
    ensures
        number_at(decimal(v as nat) + t) == Some((v, decimal(v as nat).len())),
{
    let d = decimal(v as nat);
    lemma_decimal(v as nat);
    lemma_digit_run_prefix(d, t);
    assert(digit_run(t) == 0);
    assert((d + t).take(d.len() as int) =~= d);
}

/// Reads the number written at `start`: its value and the index after it.
pub fn read_number(p: &[u8], start: usize) -> (r: Option<(u64, usize)>)
    requires
        start <= p@.len(),
    ensures
        match number_at(p@.skip(start as int)) {
            Some((v, k)) => r matches Some((x, e)) && x == v && e == start + k,
            None => r is None,
        },
{
    let n = p.len();
    let ghost s = p@.skip(start as int);
    let mut i: usize = start;
    let mut acc: u64 = 0;
    assert(s.take(0) =~= Seq::<u8>::empty());
    assert(p@.skip(start as int) =~= s);
    while i < n && 48 <= p[i] && p[i] <= 57
        invariant
            n == p@.len(),
            start <= i <= n,
            s == p@.skip(start as int),
            forall|k: int| 0 <= k < i - start ==> is_digit(#[trigger] s[k]),
            acc == digits_value(s.take(i - start)),
            digit_run(s) == (i - start) + digit_run(p@.skip(i as int)),
        decreases n - i,
    {
        let d = (p[i] - 48) as u64;
        proof {
            assert(p@.skip(i as int).skip(1) =~= p@.skip(i + 1));
            assert(p@.skip(i as int)[0] == p[i as int]);
            assert(s.take(i + 1 - start).drop_last() =~= s.take(i - start));
            assert(s[i - start] == p[i as int]);
            assert(digits_value(s.take(i + 1 - start)) == acc * 10 + d);
        }
        let next = match acc.checked_mul(10) {
            Some(m) => m.checked_add(d),
            None => None,
        };
        match next {
            Some(v) => {
                acc = v;
            },
            None => {
                proof {
                    lemma_digit_run_bound(s);
                    lemma_digits_value_mono(s, i + 1 - start, digit_run(s) as int);
                }
                return None;
            },
        }
        i = i + 1;
    }
    proof {
        if i < n {
            assert(p@.skip(i as int)[0] == p[i as int]);
        }
        assert(digit_run(p@.skip(i as int)) == 0);
    }
    if i == start {
        return None;
    }
    Some((acc, i))
}

// ---------------------------------------------------------------------------
// The claims object
// ---------------------------------------------------------------------------

/// `{"sub":"`
pub open spec fn sub_open() -> Seq<u8> {
    seq![123u8, 34, 115, 117, 98, 34, 58, 34]
}

/// `","exp":` (the first byte closes the subject string)
pub open spec fn exp_open() -> Seq<u8> {
    seq![34u8, 44, 34, 101, 120, 112, 34, 58]
}

/// `,"iat":`
pub open spec fn iat_open() -> Seq<u8> {
    seq![44u8, 34, 105, 97, 116, 34, 58]
}

pub const CLOSE_BRACE: u8 = 125;

/// The token payload: `{"sub":"<subject>","exp":<expires>,"iat":<issued>}`.
pub open spec fn rendered(sub: Seq<u8>, iat: u64, exp: u64) -> Seq<u8> {
    sub_open() + escaped(sub) + exp_open() + decimal(exp as nat) + iat_open() + decimal(
        iat as nat,
    ) + seq![CLOSE_BRACE]
}

/// Whether `lit` stands in `p` at index `i`.
pub open spec fn stands_at(p: Seq<u8>, i: int, lit: Seq<u8>) -> bool {
    0 <= i && i + lit.len() <= p.len() && p.subrange(i, i + lit.len()) == lit
}

/// Reads a payload in the form that `rendered` writes: subject bytes,
/// issue time and expiry. Anything else is refused.
pub open spec fn parsed(p: Seq<u8>) -> Option<(Seq<u8>, u64, u64)> {
    if !stands_at(p, 0, sub_open()) {
        None
    } else {
        match unescaped(p.skip(8)) {
            None => None,
            Some((sub, k)) => {
                let a: int = 8 + k as int;
                if !stands_at(p, a, exp_open()) {
                    None
                } else {
                    match number_at(p.skip(a + 8)) {
                        None => None,
                        Some((exp, m)) => {
                            let b: int = a + 8 + m;
                            if !stands_at(p, b, iat_open()) {
                                None
                            } else {
                                match number_at(p.skip(b + 7)) {
                                    None => None,
                                    Some((iat, m2)) => {
                                        let c: int = b + 7 + m2;
                                        if p.len() == c + 1 && p[c] == CLOSE_BRACE {
                                            Some((sub, iat, exp))
                                        } else {
                                            None
                                        }
                                    },
                                }
                            }
                        },
                    }
                }
            },
        }
    }
}

/// Reading back a written payload gives the claims written.
pub proof fn lemma_parsed_rendered(sub: Seq<u8>, iat: u64, exp: u64)
    ensures
        parsed(rendered(sub, iat, exp)) == Some((sub, iat, exp)),
{
    let e = escaped(sub);
    let di = decimal(exp as nat);
    let de = decimal(iat as nat);
    let p = rendered(sub, iat, exp);
    let rest1 = exp_open().skip(1) + di + iat_open() + de + seq![CLOSE_BRACE];
    assert(p.subrange(0, 8) =~= sub_open());
    assert(p.skip(8) =~= e + seq![QUOTE] + rest1);
    lemma_unescape_escaped(sub, rest1);
    let a: int = 8 + e.len() as int;
    assert(p.subrange(a, a + 8) =~= exp_open());
    let t1 = iat_open() + de + seq![CLOSE_BRACE];
    assert(p.skip(a + 8) =~= di + t1);
    lemma_number_at_decimal(exp, t1);
    let b: int = a + 8 + di.len();
    assert(p.subrange(b, b + 7) =~= iat_open());
    let t2 = seq![CLOSE_BRACE];
    assert(p.skip(b + 7) =~= de + t2);
    lemma_number_at_decimal(iat, t2);
    let c: int = b + 7 + de.len();
    assert(p.len() == c + 1);
    assert(p[c] == CLOSE_BRACE);
}

fn sub_open_bytes() -> (r: Vec<u8>)
    ensures
        r@ == sub_open(),
{
    let r = vec![123u8, 34, 115, 117, 98, 34, 58, 34];
    assert(r@ =~= sub_open());
    r
}

fn exp_open_bytes() -> (r: Vec<u8>)
    ensures
        r@ == exp_open(),
{
    let r = vec![34u8, 44, 34, 101, 120, 112, 34, 58];
    assert(r@ =~= exp_open());
    r
}

fn iat_open_bytes() -> (r: Vec<u8>)
    ensures
        r@ == iat_open(),
{
    let r = vec![44u8, 34, 105, 97, 116, 34, 58];
    assert(r@ =~= iat_open());
    r
}

/// Writes the payload of a token with subject bytes `sub`.
pub fn render_claims(sub: &[u8], iat: u64, exp: u64) -> (r: Vec<u8>)
    ensures
        r@ == rendered(sub@, iat, exp),
{
    let mut out = sub_open_bytes();
    push_escaped(sub, &mut out);
    let exp_lit = exp_open_bytes();
    out.extend_from_slice(exp_lit.as_slice());
    push_decimal(exp, &mut out);
    let iat_lit = iat_open_bytes();
    out.extend_from_slice(iat_lit.as_slice());
    push_decimal(iat, &mut out);
    out.push(CLOSE_BRACE);
    assert(out@ =~= rendered(sub@, iat, exp));
    out
}

/// Whether `lit` stands in `p` at index `i`.
pub fn bytes_at(p: &[u8], i: usize, lit: &[u8]) -> (r: bool)
    ensures
        r == stands_at(p@, i as int, lit@),
{
    if i > p.len() || lit.len() > p.len() - i {
        return false;
    }
    let n = p.len();
    let mut k: usize = 0;
    while k < lit.len()
        invariant
            n == p@.len(),
            i + lit@.len() <= p@.len(),
            k <= lit@.len(),
            forall|j: int| 0 <= j < k ==> p@[i + j] == lit@[j],
        decreases lit@.len() - k,
    {
        assert(i + k < p@.len());
        if p[i + k] != lit[k] {
            assert(p@.subrange(i as int, i + lit@.len())[k as int] != lit@[k as int]);
            return false;
        }
        k = k + 1;
    }
    assert(p@.subrange(i as int, i + lit@.len()) =~= lit@);
    true
}

/// Reads a payload written by `render_claims`; refuses anything else.
pub fn parse_claims(p: &[u8]) -> (r: Option<(Vec<u8>, u64, u64)>)
    ensures
        match parsed(p@) {
            Some((s, i, e)) => r matches Some((v, a, b)) && v@ == s && a == i && b == e,
            None => r is None,
        },
{
    let n = p.len();
    let sub_lit = sub_open_bytes();
    if !bytes_at(p, 0, sub_lit.as_slice()) {
        return None;
    }
    assert(sub_open().len() == 8);
    let (sub, a) = match read_escaped(p, 8) {
        Some(x) => x,
        None => return None,
    };
    let exp_lit = exp_open_bytes();
    if !bytes_at(p, a, exp_lit.as_slice()) {
        return None;
    }
    assert(exp_open().len() == 8);
    let (exp, b) = match read_number(p, a + 8) {
        Some(x) => x,
        None => return None,
    };
    let iat_lit = iat_open_bytes();
    if !bytes_at(p, b, iat_lit.as_slice()) {
        return None;
    }
    assert(iat_open().len() == 7);
    let (iat, c) = match read_number(p, b + 7) {
        Some(x) => x,
        None => return None,
    };
    if c < n && n - c == 1 && p[c] == CLOSE_BRACE {
        Some((sub, iat, exp))
    } else {
        None
    }
}

} // verus!
