use validator::ValidateEmail;
use vstd::prelude::*;
use vstd::utf8::encode_utf8;

use crate::claims::lemma_digits_value_mono;
use crate::errors::custom_errors::CustomError;
use crate::text::{digits_value, is_digit};

verus! {

/// Address the server binds to when none is configured.
pub const FALLBACK_IP: &'static str = "127.0.0.1";

/// Port the server binds to when none, or no valid one, is configured.
pub const FALLBACK_PORT: u16 = 8080;

/// Shortest password a request may carry, in characters.
pub const MIN_PASSWORD_CHARS: usize = 8;

/// Whether `validator` accepts `s` as an email address.
pub uninterp spec fn email_syntax_ok(s: Seq<char>) -> bool;

/// Relies on `validator::ValidateEmail::validate_email` for `&str`: the
/// HTML5-style check on local part and domain; its answer depends on the
/// text alone.
#[verifier::external_body]
fn valid_email(s: &str) -> (r: bool)
    ensures
        r == email_syntax_ok(s@),
{
    s.validate_email()
}

/// `text` without a leading `+`.
pub open spec fn port_digits(text: Seq<u8>) -> Seq<u8> {
    if text.len() > 0 && text[0] == 43 {
        text.skip(1)
    } else {
        text
    }
}

/// Every byte of `d` is an ASCII digit.
pub open spec fn all_digits(d: Seq<u8>) -> bool {
    forall|i: int| 0 <= i < d.len() ==> is_digit(#[trigger] d[i])
}

/// The port number written in `text` as `u16`'s `FromStr` reads it: an
/// optional `+`, then one or more ASCII digits, at most 65535.
pub open spec fn port_number(text: Seq<u8>) -> Option<u16> {
    let d = port_digits(text);
    if d.len() > 0 && all_digits(d) && digits_value(d) <= 65535 {
        Some(digits_value(d) as u16)
    } else {
        None
    }
}

/// Reads a port number; a missing or invalid one falls back to
/// `FALLBACK_PORT`.
pub fn parse_server_port(server_port_string: &str) -> (r: Result<u16, CustomError>)
    ensures
        r == Ok::<u16, CustomError>(
            match port_number(encode_utf8(server_port_string@)) {
                Some(p) => p,
                None => FALLBACK_PORT,
            },
        ),
{
    let bytes = server_port_string.as_bytes();
    let n = bytes.len();
    let start: usize = if n > 0 && bytes[0] == 43 {
        1
    } else {
        0
    };
    let ghost d = bytes@.skip(start as int);
    assert(bytes@.skip(0) =~= bytes@);
    assert(d == port_digits(bytes@));
    if start == n {
        return Ok(FALLBACK_PORT);
    }
    let mut acc: u32 = 0;
    let mut i: usize = start;
    assert(d.take(0) =~= Seq::<u8>::empty());
    while i < n
        invariant
            n == bytes@.len(),
            start <= i <= n,
            d == bytes@.skip(start as int),
            bytes@ == encode_utf8(server_port_string@),
            d == port_digits(bytes@),
            forall|k: int| 0 <= k < i - start ==> is_digit(#[trigger] d[k]),
            acc == digits_value(d.take(i - start)),
            acc <= 65535,
        decreases n - i,
    {
        let b = bytes[i];
        if b < 48 || b > 57 {
            assert(!is_digit(d[i - start]));
            return Ok(FALLBACK_PORT);
        }
        assert(d.take(i + 1 - start).drop_last() =~= d.take(i - start));
        assert(d[i - start] == b);
        assert(digits_value(d.take(i + 1 - start)) == acc * 10 + (b - 48));
        acc = acc * 10 + (b - 48) as u32;
        if acc > 65535 {
            proof {
                let ghost m = d.len() as int;
                assert forall|k: int| 0 <= k < i + 1 - start implies is_digit(#[trigger] d[k]) by {}
                if forall|k: int| 0 <= k < m ==> is_digit(#[trigger] d[k]) {
                    lemma_digits_value_mono(d, i + 1 - start, m);
                    assert(d.take(m) =~= d);
                }
            }
            return Ok(FALLBACK_PORT);
        }
        i = i + 1;
    }
    assert(d.take(n - start) =~= d);
    Ok(acc as u16)
}

/// The configured address, or `FALLBACK_IP` when none is set.
pub fn get_server_ip(configured: Option<String>) -> (r: String)
    ensures
        match configured {
            Some(s) => r@ == s@,
            None => r@ == FALLBACK_IP@,
        },
{
    match configured {
        Some(s) => s,
        None => FALLBACK_IP.to_owned(),
    }
}

/// What is wrong with one field of a request body.
#[derive(Debug, Clone, Copy, PartialEq, Eq, Structural)]
pub enum RequestError {
    FirstnameRequired,
    LastnameRequired,
    UsernameRequired,
    PasswordTooShort,
    EmailInvalid,
}

/// `e` when `bad` holds, nothing otherwise.
pub open spec fn failure_if(bad: bool, e: RequestError) -> Seq<RequestError> {
    if bad {
        seq![e]
    } else {
        seq![]
    }
}

/// Every failing field of a login body, in field order.
pub open spec fn login_failures(email: Seq<char>, password: Seq<char>) -> Seq<RequestError> {
    failure_if(!email_syntax_ok(email), RequestError::EmailInvalid) + failure_if(
        password.len() < MIN_PASSWORD_CHARS,
        RequestError::PasswordTooShort,
    )
}

/// Every failing field of a registration body, in field order.
pub open spec fn register_failures(
    firstname: Seq<char>,
    lastname: Seq<char>,
    username: Seq<char>,
    password: Seq<char>,
    email: Seq<char>,
) -> Seq<RequestError> {
    failure_if(firstname.len() == 0, RequestError::FirstnameRequired) + failure_if(
        lastname.len() == 0,
        RequestError::LastnameRequired,
    ) + failure_if(username.len() == 0, RequestError::UsernameRequired) + failure_if(
        password.len() < MIN_PASSWORD_CHARS,
        RequestError::PasswordTooShort,
    ) + failure_if(!email_syntax_ok(email), RequestError::EmailInvalid)
}

fn push_failure_if(bad: bool, e: RequestError, out: &mut Vec<RequestError>)
    ensures
        final(out)@ == old(out)@ + failure_if(bad, e),
{
    if bad {
        out.push(e);
    }
    assert(final(out)@ =~= old(out)@ + failure_if(bad, e)) by {
        if !bad {
            assert(out@ =~= old(out)@ + Seq::<RequestError>::empty());
        }
    }
}

/// Checks a login body: a valid email and a password of at least
/// `MIN_PASSWORD_CHARS` characters. Every failing field is reported.
pub fn validate_login_request(email: &str, password: &str) -> (r: Result<(), Vec<RequestError>>)
    ensures
        r is Ok <==> login_failures(email@, password@).len() == 0,
        r matches Err(v) ==> v@ == login_failures(email@, password@),
{
    let mut failures: Vec<RequestError> = Vec::new();
    push_failure_if(!valid_email(email), RequestError::EmailInvalid, &mut failures);
    push_failure_if(
        password.unicode_len() < MIN_PASSWORD_CHARS,
        RequestError::PasswordTooShort,
        &mut failures,
    );
    assert(failures@ =~= login_failures(email@, password@));
    if failures.len() == 0 {
        Ok(())
    } else {
        Err(failures)
    }
}

/// Checks a registration body: names and username present, a password of
/// at least `MIN_PASSWORD_CHARS` characters, a valid email. Every failing
/// field is reported.
pub fn validate_register_request(
    firstname: &str,
    lastname: &str,
    username: &str,
    password: &str,
    email: &str,
) -> (r: Result<(), Vec<RequestError>>)
    ensures
        r is Ok <==> register_failures(firstname@, lastname@, username@, password@, email@).len()
            == 0,
        r matches Err(v) ==> v@ == register_failures(
            firstname@,
            lastname@,
            username@,
            password@,
            email@,
        ),
{
    let mut failures: Vec<RequestError> = Vec::new();
    push_failure_if(
        firstname.unicode_len() == 0,
        RequestError::FirstnameRequired,
        &mut failures,
    );
    push_failure_if(lastname.unicode_len() == 0, RequestError::LastnameRequired, &mut failures);
    push_failure_if(username.unicode_len() == 0, RequestError::UsernameRequired, &mut failures);
    push_failure_if(
        password.unicode_len() < MIN_PASSWORD_CHARS,
        RequestError::PasswordTooShort,
        &mut failures,
    );
    push_failure_if(!valid_email(email), RequestError::EmailInvalid, &mut failures);
    assert(failures@ =~= register_failures(firstname@, lastname@, username@, password@, email@));
    if failures.len() == 0 {
        Ok(())
    } else {
        Err(failures)
    }
}

} // verus!
