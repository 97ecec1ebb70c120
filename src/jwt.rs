use jsonwebtoken::crypto;
use jsonwebtoken::{Algorithm, DecodingKey, EncodingKey};
use vstd::prelude::*;
use vstd::utf8::*;

use crate::claims::{lemma_parsed_rendered, parse_claims, parsed, render_claims, rendered};
use crate::encoding::{
    url_safe_char, base64_url, decode_url_text, dot_free, encode_url, lemma_url_safe_dot_free, url_decoded,
    url_safe_text,
};
use crate::errors::custom_errors::CustomError;
use crate::keys::Config;
use crate::text::{is_white_space, leading_white, str_eq, string_from_utf8, trailing_white, trimmed};

verus! {

broadcast use {encode_utf8_valid_utf8, encode_utf8_decode_utf8};

/// The HS256 signature of `message` under `key`, in unpadded URL-safe base64.
pub uninterp spec fn hs256_signature(message: Seq<u8>, key: Seq<u8>) -> Seq<char>;

#[verifier::external_type_specification]
#[verifier::external_body]
pub struct ExJwtError(jsonwebtoken::errors::Error);

/// Relies on `jsonwebtoken::crypto::sign` with HS256: HMAC-SHA256 of the
/// message in unpadded URL-safe base64 (alphabet `A-Z a-z 0-9 - _`); for
/// HS256 it always returns `Ok`.
#[verifier::external_body]
fn hs256_sign(message: &[u8], key: &[u8]) -> (r: Result<String, jsonwebtoken::errors::Error>)
    ensures
        r is Ok,
        r matches Ok(s) ==> s@ == hs256_signature(message@, key@) && url_safe_text(s@),
{
    crypto::sign(message, &EncodingKey::from_secret(key), Algorithm::HS256)
}

/// Relies on `jsonwebtoken::crypto::verify` with HS256: it signs the message
/// again and compares the two signatures in constant time; for HS256 it
/// always returns `Ok`.
#[verifier::external_body]
fn hs256_verify(signature: &str, message: &[u8], key: &[u8]) -> (r: bool)
    ensures
        r == (signature@ == hs256_signature(message@, key@)),
{
    match crypto::verify(signature, message, &DecodingKey::from_secret(key), Algorithm::HS256) {
        Ok(valid) => valid,
        Err(_) => false,
    }
}

/// Relies on `chrono::Utc::now().timestamp()`: the current Unix time in
/// seconds, as the system clock gives it; `Utc::now` panics rather than
/// return a time before 1970, so it is never negative.
#[verifier::external_body]
pub(crate) fn unix_now() -> (r: i64)
    ensures
        r >= 0,
{
    chrono::Utc::now().timestamp()
}

/// The identity a token asserts and its validity window `[iat, exp)`.
pub struct Claims {
    /// Subject: the user identifier.
    pub sub: String,
    /// Expiry, in Unix seconds.
    pub exp: u64,
    /// Issue time, in Unix seconds.
    pub iat: u64,
}

/// The JOSE header of every token this library issues:
/// `{"typ":"JWT","alg":"HS256"}`.
pub open spec fn header_json() -> Seq<u8> {
    seq![
        123u8, 34, 116, 121, 112, 34, 58, 34, 74, 87, 84, 34, 44, 34, 97, 108, 103, 34, 58, 34,
        72, 83, 50, 53, 54, 34, 125,
    ]
}

/// The header segment: the URL-safe base64 of `header_json()`.
pub open spec fn header_segment() -> Seq<char> {
    base64_url(header_json())
}

/// Writes the header segment.
fn header_segment_text() -> (r: String)
    ensures
        r@ == header_segment(),
        url_safe_text(r@),
{
    let json = vec![
        123u8, 34, 116, 121, 112, 34, 58, 34, 74, 87, 84, 34, 44, 34, 97, 108, 103, 34, 58, 34,
        72, 83, 50, 53, 54, 34, 125,
    ];
    assert(json@ =~= header_json());
    encode_url(json.as_slice())
}

/// `t` is header, payload and signature joined by two dots, none of the
/// three holding a dot.
pub open spec fn is_token_split(t: Seq<char>, h: Seq<char>, p: Seq<char>, s: Seq<char>) -> bool {
    dot_free(h) && dot_free(p) && dot_free(s) && t == h + seq!['.'] + p + seq!['.'] + s
}

/// The three segments of a compact token, if it has exactly three.
pub open spec fn token_parts(t: Seq<char>) -> Option<(Seq<char>, Seq<char>, Seq<char>)> {
    if exists|x: (Seq<char>, Seq<char>, Seq<char>)| is_token_split(t, x.0, x.1, x.2) {
        Some(choose|x: (Seq<char>, Seq<char>, Seq<char>)| is_token_split(t, x.0, x.1, x.2))
    } else {
        None
    }
}

/// The bytes that the signature covers: header, dot, payload.
pub open spec fn signing_input(h: Seq<char>, p: Seq<char>) -> Seq<u8> {
    encode_utf8(h + seq!['.'] + p)
}

/// The claims (subject, issue time, expiry) that `t` carries when its
/// structure, header and signature under `key` are all good; expiry is not
/// looked at here.
pub open spec fn token_claims(t: Seq<char>, key: Seq<u8>) -> Option<(Seq<char>, u64, u64)> {
    match token_parts(t) {
        Some((h, p, s)) => if h == header_segment() && s == hs256_signature(
            signing_input(h, p),
            key,
        ) {
            match url_decoded(p) {
                Some(bytes) => match parsed(bytes) {
                    Some((sub, iat, exp)) => if valid_utf8(sub) {
                        Some((decode_utf8(sub), iat, exp))
                    } else {
                        None
                    },
                    None => None,
                },
                None => None,
            }
        } else {
            None
        },
        None => None,
    }
}

/// What validating `t` at time `now` yields: its claims while `now < exp`.
pub open spec fn token_outcome(t: Seq<char>, key: Seq<u8>, now: u64) -> Option<
    (Seq<char>, u64, u64),
> {
    match token_claims(t, key) {
        Some(c) => if now < c.2 {
            Some(c)
        } else {
            None
        },
        None => None,
    }
}

/// The token issued for `sub` with window `[iat, exp)` under `key`.
pub open spec fn issued_token(sub: Seq<char>, key: Seq<u8>, iat: u64, exp: u64) -> Seq<char> {
    let p = base64_url(rendered(encode_utf8(sub), iat, exp));
    header_segment() + seq!['.'] + p + seq!['.'] + hs256_signature(
        signing_input(header_segment(), p),
        key,
    )
}

proof fn lemma_split_facts(t: Seq<char>, h: Seq<char>, p: Seq<char>, s: Seq<char>)
    requires
        is_token_split(t, h, p, s),
    ensures
        t.len() == h.len() + p.len() + s.len() + 2,
        t[h.len() as int] == '.',
        t[h.len() + 1 + p.len() as int] == '.',
        forall|k: int| 0 <= k < h.len() ==> #[trigger] t[k] != '.',
        forall|k: int| h.len() < k < h.len() + 1 + p.len() ==> #[trigger] t[k] != '.',
        forall|k: int| h.len() + 1 + p.len() < k < t.len() ==> #[trigger] t[k] != '.',
        h == t.subrange(0, h.len() as int),
        p == t.subrange(h.len() + 1 as int, h.len() + 1 + p.len() as int),
        s == t.subrange(h.len() + p.len() + 2 as int, t.len() as int),
{
    assert forall|k: int| 0 <= k < h.len() implies #[trigger] t[k] != '.' by {
        assert(t[k] == h[k]);
    }
    assert forall|k: int| h.len() < k < h.len() + 1 + p.len() implies #[trigger] t[k] != '.' by {
        assert(t[k] == p[k - h.len() - 1]);
    }
    assert forall|k: int| h.len() + 1 + p.len() < k < t.len() implies #[trigger] t[k] != '.' by {
        assert(t[k] == s[k - h.len() - p.len() - 2]);
    }
    assert(h =~= t.subrange(0, h.len() as int));
    assert(p =~= t.subrange(h.len() + 1 as int, h.len() + 1 + p.len() as int));
    assert(s =~= t.subrange(h.len() + p.len() + 2 as int, t.len() as int));
}

/// A compact token splits in at most one way.
pub proof fn lemma_token_split_unique(
    t: Seq<char>,
    h1: Seq<char>,
    body1: Seq<char>,
    s1: Seq<char>,
    h2: Seq<char>,
    body2: Seq<char>,
    s2: Seq<char>,
)
    requires
        is_token_split(t, h1, body1, s1),
        is_token_split(t, h2, body2, s2),
    ensures
        h1 == h2 && body1 == body2 && s1 == s2,
{
    lemma_split_facts(t, h1, body1, s1);
    lemma_split_facts(t, h2, body2, s2);
    assert(h1.len() == h2.len());
    assert(body1.len() == body2.len());
}

/// Splits a compact token into its three segments.
fn split_token(t: &str) -> (r: Option<(String, String, String)>)
    ensures
        match token_parts(t@) {
            Some(x) => r matches Some(y) && y.0@ == x.0 && y.1@ == x.1 && y.2@ == x.2,
            None => r is None,
        },
{
    let n = t.unicode_len();
    let mut i: usize = 0;
    while i < n && t.get_char(i) != '.'
        invariant
            n == t@.len(),
            i <= n,
            forall|k: int| 0 <= k < i ==> #[trigger] t@[k] != '.',
        decreases n - i,
    {
        i = i + 1;
    }
    if i == n {
        proof {
            if token_parts(t@) is Some {
                let x = choose|x: (Seq<char>, Seq<char>, Seq<char>)|
                    is_token_split(t@, x.0, x.1, x.2);
                lemma_split_facts(t@, x.0, x.1, x.2);
            }
        }
        return None;
    }
    let mut j: usize = i + 1;
    while j < n && t.get_char(j) != '.'
        invariant
            n == t@.len(),
            i < j <= n,
            t@[i as int] == '.',
            forall|k: int| 0 <= k < i ==> #[trigger] t@[k] != '.',
            forall|k: int| i < k < j ==> #[trigger] t@[k] != '.',
        decreases n - j,
    {
        j = j + 1;
    }
    if j == n {
        proof {
            if token_parts(t@) is Some {
                let x = choose|x: (Seq<char>, Seq<char>, Seq<char>)|
                    is_token_split(t@, x.0, x.1, x.2);
                lemma_split_facts(t@, x.0, x.1, x.2);
                assert(x.0.len() == i);
            }
        }
        return None;
    }
    let mut k: usize = j + 1;
    while k < n && t.get_char(k) != '.'
        invariant
            n == t@.len(),
            i < j < k <= n,
            t@[i as int] == '.',
            t@[j as int] == '.',
            forall|m: int| 0 <= m < i ==> #[trigger] t@[m] != '.',
            forall|m: int| i < m < j ==> #[trigger] t@[m] != '.',
            forall|m: int| j < m < k ==> #[trigger] t@[m] != '.',
        decreases n - k,
    {
        k = k + 1;
    }
    if k < n {
        proof {
            if token_parts(t@) is Some {
                let x = choose|x: (Seq<char>, Seq<char>, Seq<char>)|
                    is_token_split(t@, x.0, x.1, x.2);
                lemma_split_facts(t@, x.0, x.1, x.2);
                assert(x.0.len() == i);
                assert(x.0.len() + 1 + x.1.len() == j);
            }
        }
        return None;
    }
    let h = t.substring_char(0, i).to_owned();
    let p = t.substring_char(i + 1, j).to_owned();
    let s = t.substring_char(j + 1, n).to_owned();
    proof {
        assert(t@ =~= h@ + seq!['.'] + p@ + seq!['.'] + s@);
        let w = (h@, p@, s@);
        assert(is_token_split(t@, w.0, w.1, w.2));
        let x = choose|x: (Seq<char>, Seq<char>, Seq<char>)| is_token_split(t@, x.0, x.1, x.2);
        lemma_token_split_unique(t@, x.0, x.1, x.2, h@, p@, s@);
    }
    Some((h, p, s))
}

/// An issued token starts with a header character or a dot and ends with a
/// signature character or a dot, so trimming leaves it as it is.
proof fn lemma_no_outer_white(t: Seq<char>)
    requires
        t.len() > 0,
        !is_white_space(t[0]),
        !is_white_space(t.last()),
    ensures
        trimmed(t) == t,
{
    assert(leading_white(t) == 0);
    assert(t.skip(0) =~= t);
    assert(trailing_white(t) == 0);
    assert(t.take(t.len() as int) =~= t);
}

/// A lifetime with which issuing never overflows: the clock reads at most
/// `i64::MAX` seconds.
pub const MAX_LIFETIME: u64 = 0x8000_0000_0000_0000;

/// The key bytes of a signing secret.
pub open spec fn key_of(secret: Seq<char>) -> Seq<u8> {
    encode_utf8(secret)
}

/// Issues a token for `subject`: issued at `now`, expiring at
/// `now + lifetime`, signed with `secret`. Validated at any time in that
/// window, it yields the same subject.
pub fn issue_token(subject: &str, secret: &str, now: u64, lifetime: u64) -> (r: Result<
    String,
    CustomError,
>)
    ensures
        r is Ok <==> now + lifetime <= u64::MAX,
        r matches Ok(t) ==> t@ == issued_token(
            subject@,
            key_of(secret@),
            now,
            (now + lifetime) as u64,
        ),
        r matches Ok(t) ==> token_claims(t@, key_of(secret@)) == Some(
            (subject@, now, (now + lifetime) as u64),
        ),
        r matches Ok(t) ==> forall|later: u64|
            now <= later < now + lifetime ==> token_outcome(t@, key_of(secret@), later) == Some(
                (subject@, now, (now + lifetime) as u64),
            ),
        r matches Ok(t) ==> trimmed(t@) == t@ && t@.len() > 0,
        r matches Err(e) ==> e == CustomError::Unknown,
{
    let exp = match now.checked_add(lifetime) {
        Some(e) => e,
        None => return Err(CustomError::Unknown),
    };
    let sub_bytes = subject.as_bytes();
    let payload = render_claims(sub_bytes, now, exp);
    let p = encode_url(payload.as_slice());
    let head = header_segment_text();
    let ghost hd = head@;
    let signing = head.concat(".").concat(p.as_str());
    let sig = match hs256_sign(signing.as_str().as_bytes(), secret.as_bytes()) {
        Ok(s) => s,
        Err(_) => return Err(CustomError::Unknown),
    };
    let token = signing.concat(".").concat(sig.as_str());
    proof {
        reveal_strlit(".");
        lemma_url_safe_dot_free(hd);
        lemma_url_safe_dot_free(p@);
        lemma_url_safe_dot_free(sig@);
        assert(signing@ =~= hd + seq!['.'] + p@);
        assert(token@ =~= hd + seq!['.'] + p@ + seq!['.'] + sig@);
        let w = (hd, p@, sig@);
        assert(is_token_split(token@, w.0, w.1, w.2));
        if hd.len() > 0 {
            assert(token@[0] == hd[0]);
            assert(url_safe_char(hd[0]));
        } else {
            assert(token@[0] == '.');
        }
        if sig@.len() > 0 {
            assert(token@.last() == sig@.last());
            assert(url_safe_char(sig@[sig@.len() - 1]));
        } else {
            assert(token@.last() == '.');
        }
        let x = choose|x: (Seq<char>, Seq<char>, Seq<char>)| is_token_split(token@, x.0, x.1, x.2);
        lemma_token_split_unique(token@, x.0, x.1, x.2, hd, p@, sig@);
        let b = choose|b: Seq<u8>| base64_url(b) == p@;
        assert(b == payload@);
        lemma_parsed_rendered(sub_bytes@, now, exp);
        lemma_no_outer_white(token@);
    }
    Ok(token)
}

/// Validates a token at time `now` against `secret`. Structure, header,
/// signature and expiry must all be good; every failure is the same
/// `InvalidToken`.
pub fn validate_token(token: &str, secret: &str, now: u64) -> (r: Result<Claims, CustomError>)
    ensures
        match token_outcome(token@, key_of(secret@), now) {
            Some((s, i, e)) => r matches Ok(c) && c.sub@ == s && c.iat == i && c.exp == e,
            None => r matches Err(e) && e == CustomError::InvalidToken,
        },
{
    let (h, p, s) = match split_token(token) {
        Some(x) => x,
        None => return Err(CustomError::InvalidToken),
    };
    let expected_head = header_segment_text();
    if !str_eq(h.as_str(), expected_head.as_str()) {
        return Err(CustomError::InvalidToken);
    }
    let signing = h.concat(".").concat(p.as_str());
    proof {
        reveal_strlit(".");
        assert(signing@ =~= h@ + seq!['.'] + p@);
    }
    if !hs256_verify(s.as_str(), signing.as_str().as_bytes(), secret.as_bytes()) {
        return Err(CustomError::InvalidToken);
    }
    let bytes = match decode_url_text(p.as_str()) {
        Some(b) => b,
        None => return Err(CustomError::InvalidToken),
    };
    let (sub_bytes, iat, exp) = match parse_claims(bytes.as_slice()) {
        Some(x) => x,
        None => return Err(CustomError::InvalidToken),
    };
    let sub = match string_from_utf8(sub_bytes) {
        Some(x) => x,
        None => return Err(CustomError::InvalidToken),
    };
    if now < exp {
        Ok(Claims { sub, exp, iat })
    } else {
        Err(CustomError::InvalidToken)
    }
}

/// A token accepted at `now` has not expired at `now`.
pub proof fn lemma_accepted_token_unexpired(t: Seq<char>, key: Seq<u8>, now: u64)
    ensures
        token_outcome(t, key, now) matches Some(c) ==> now < c.2,
{
}

/// A token validated at or after its expiry is refused, however good its
/// structure and signature.
pub proof fn lemma_expired_token_rejected(t: Seq<char>, key: Seq<u8>, now: u64)
    requires
        token_claims(t, key) matches Some(c) && now >= c.2,
    ensures
        token_outcome(t, key, now) is None,
{
}

/// Issues a token for `user_id` at the current time, with the configured
/// secret and lifetime.
pub fn generate_jwt(user_id: String, config: &Config) -> (r: Result<String, CustomError>)
    ensures
        r matches Ok(t) ==> token_claims(t@, key_of(config.token_secret@)) matches Some(c) && c.0
            == user_id@ && c.2 == c.1 + config.token_lifetime,
        r matches Ok(t) ==> trimmed(t@) == t@ && t@.len() > 0,
        config.token_lifetime <= MAX_LIFETIME ==> r is Ok,
        r matches Err(e) ==> e == CustomError::Unknown,
{
    let now = unix_now();
    issue_token(user_id.as_str(), config.token_secret.as_str(), now as u64, config.token_lifetime)
}

/// Validates a token at the current time against the configured secret.
pub fn validate_jwt(token: &str, config: &Config) -> (r: Result<Claims, CustomError>)
    ensures
        r matches Ok(c) ==> token_claims(token@, key_of(config.token_secret@)) == Some(
            (c.sub@, c.iat, c.exp),
        ),
        token_claims(token@, key_of(config.token_secret@)) is None ==> r is Err,
        r matches Err(e) ==> e == CustomError::InvalidToken,
        exists|now: u64|
            now <= i64::MAX && match #[trigger] token_outcome(
                token@,
                key_of(config.token_secret@),
                now,
            ) {
                Some((s, i, e)) => r matches Ok(c) && c.sub@ == s && c.iat == i && c.exp == e,
                None => r matches Err(e) && e == CustomError::InvalidToken,
            },
{
    let now = unix_now();
    validate_token(token, config.token_secret.as_str(), now as u64)
}

/// The subject of a token that validates at the current time.
pub fn extract_user_id_from_jwt(token: &str, config: &Config) -> (r: Result<String, CustomError>)
    ensures
        r matches Ok(s) ==> token_claims(token@, key_of(config.token_secret@)) matches Some(c)
            && c.0 == s@,
        token_claims(token@, key_of(config.token_secret@)) is None ==> r is Err,
        r matches Err(e) ==> e == CustomError::InvalidToken,
        exists|now: u64|
            now <= i64::MAX && match #[trigger] token_outcome(
                token@,
                key_of(config.token_secret@),
                now,
            ) {
                Some(c) => r matches Ok(s) && s@ == c.0,
                None => r matches Err(e) && e == CustomError::InvalidToken,
            },
{
    let claims = validate_jwt(token, config)?;
    Ok(claims.sub)
}

} // verus!
