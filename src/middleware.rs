use vstd::prelude::*;

use crate::jwt::{key_of, token_outcome, unix_now, validate_token};
use crate::text::{str_eq, trim, trimmed};

verus! {

/// The `Authorization` header of a request, as the transport found it.
pub enum AuthHeader {
    /// No such header.
    Missing,
    /// The header is there but its value is not visible ASCII text.
    Unreadable,
    /// The header's value.
    Present(String),
}

/// Why a request was turned away. All of them answer "unauthorized".
#[derive(Debug, Clone, Copy, PartialEq, Eq, Structural)]
pub enum Rejection {
    MissingHeader,
    InvalidHeaderValue,
    InvalidFormat,
    InvalidToken,
}

/// What happens to one request.
pub enum GateOutcome {
    /// Passed on to the handler, with the authenticated subject attached
    /// when a token was checked.
    Forwarded(Option<String>),
    /// Refused before any handler runs.
    Rejected(Rejection),
}

/// Requests that pass without credentials: the pre-flight method, and the
/// registration, login and health-check routes.
pub open spec fn exempt(method: Seq<char>, path: Seq<char>) -> bool {
    method == "OPTIONS"@ || path == "/register"@ || path == "/login"@ || path == "/ping"@
}

/// The token of a header of the exact form `Bearer <token>` (case-sensitive
/// scheme, one space), trimmed of surrounding white space.
pub open spec fn bearer_token(header: Seq<char>) -> Option<Seq<char>> {
    if header.len() >= 7 && header.take(7) == "Bearer "@ {
        Some(trimmed(header.skip(7)))
    } else {
        None
    }
}

/// The verdict on a request: allow-list first, header shape second,
/// signature and expiry third.
pub open spec fn gate_verdict(
    method: Seq<char>,
    path: Seq<char>,
    header: AuthHeader,
    key: Seq<u8>,
    now: u64,
    r: GateOutcome,
) -> bool {
    if exempt(method, path) {
        r matches GateOutcome::Forwarded(None)
    } else {
        match header {
            AuthHeader::Missing => r == GateOutcome::Rejected(Rejection::MissingHeader),
            AuthHeader::Unreadable => r == GateOutcome::Rejected(Rejection::InvalidHeaderValue),
            AuthHeader::Present(h) => match bearer_token(h@) {
                None => r == GateOutcome::Rejected(Rejection::InvalidFormat),
                Some(t) => match token_outcome(t, key, now) {
                    Some(c) => r matches GateOutcome::Forwarded(Some(s)) && s@ == c.0,
                    None => r == GateOutcome::Rejected(Rejection::InvalidToken),
                },
            },
        }
    }
}

/// A header `Bearer <t>` carries exactly `t` when `t` has no surrounding
/// white space, as every issued token.
pub proof fn lemma_bearer_header_token(t: Seq<char>)
    requires
        trimmed(t) == t,
    ensures
        bearer_token("Bearer "@ + t) == Some(t),
{
    reveal_strlit("Bearer ");
    let h = "Bearer "@ + t;
    assert(h.take(7) =~= "Bearer "@);
    assert(h.skip(7) =~= t);
}

/// A protected request whose header is `Bearer <t>`, for a token `t` that
/// validates, is forwarded with the token's subject attached.
pub proof fn lemma_valid_bearer_forwarded(
    method: Seq<char>,
    path: Seq<char>,
    header: String,
    t: Seq<char>,
    key: Seq<u8>,
    now: u64,
    r: GateOutcome,
)
    requires
        !exempt(method, path),
        trimmed(t) == t,
        token_outcome(t, key, now) is Some,
        header@ == "Bearer "@ + t,
        gate_verdict(method, path, AuthHeader::Present(header), key, now, r),
    ensures
        token_outcome(t, key, now) matches Some(c) ==> (r matches GateOutcome::Forwarded(Some(s))
            && s@ == c.0),
{
    lemma_bearer_header_token(t);
}

/// A protected request without the header is refused; an exempt one, such as
/// the health check, is forwarded without any credentials.
pub proof fn lemma_missing_header(
    method: Seq<char>,
    path: Seq<char>,
    key: Seq<u8>,
    now: u64,
    r: GateOutcome,
)
    requires
        gate_verdict(method, path, AuthHeader::Missing, key, now, r),
    ensures
        exempt(method, path) ==> r matches GateOutcome::Forwarded(None),
        !exempt(method, path) ==> r == GateOutcome::Rejected(Rejection::MissingHeader),
{
}

fn is_exempt(method: &str, path: &str) -> (r: bool)
    ensures
        r == exempt(method@, path@),
{
    str_eq(method, "OPTIONS") || str_eq(path, "/register") || str_eq(path, "/login") || str_eq(
        path,
        "/ping",
    )
}

/// Extracts the token of a `Bearer <token>` header.
pub fn bearer(header: &str) -> (r: Option<String>)
    ensures
        match bearer_token(header@) {
            Some(t) => r matches Some(s) && s@ == t,
            None => r is None,
        },
{
    let n = header.unicode_len();
    if n < 7 {
        return None;
    }
    if !str_eq(header.substring_char(0, 7), "Bearer ") {
        return None;
    }
    let rest = header.substring_char(7, n);
    assert(rest@ =~= header@.skip(7));
    Some(trim(rest))
}

/// The request gate: the one place where authorisation is enforced.
pub struct AuthenticationMiddleware {
    token_secret: String,
}

impl AuthenticationMiddleware {
    pub closed spec fn secret(&self) -> Seq<char> {
        self.token_secret@
    }

    pub fn new(token_secret: String) -> (r: Self)
        ensures
            r.secret() == token_secret@,
    {
        AuthenticationMiddleware { token_secret }
    }

    /// Decides on one request at time `now`.
    pub fn check(&self, method: &str, path: &str, header: AuthHeader, now: u64) -> (r: GateOutcome)
        ensures
            gate_verdict(method@, path@, header, key_of(self.secret()), now, r),
    {
        if is_exempt(method, path) {
            return GateOutcome::Forwarded(None);
        }
        match header {
            AuthHeader::Missing => GateOutcome::Rejected(Rejection::MissingHeader),
            AuthHeader::Unreadable => GateOutcome::Rejected(Rejection::InvalidHeaderValue),
            AuthHeader::Present(h) => match bearer(h.as_str()) {
                None => GateOutcome::Rejected(Rejection::InvalidFormat),
                Some(token) => match validate_token(
                    token.as_str(),
                    self.token_secret.as_str(),
                    now,
                ) {
                    Ok(claims) => GateOutcome::Forwarded(Some(claims.sub)),
                    Err(_) => GateOutcome::Rejected(Rejection::InvalidToken),
                },
            },
        }
    }

    /// Decides on one request at the current time. An exempt request is
    /// forwarded, a request without a well-formed bearer header is refused,
    /// and a forwarded request carries the subject of a token that passed
    /// structure and signature checks.
    pub fn call(&self, method: &str, path: &str, header: AuthHeader) -> (r: GateOutcome)
        ensures
            exists|now: u64| gate_verdict(method@, path@, header, key_of(self.secret()), now, r),
    {
        let now = unix_now();
        self.check(method, path, header, now as u64)
    }
}

/// Makes a gate for each service it wraps, all with the same secret.
pub struct AuthenticationMiddlewareFactory {
    token_secret: String,
}

impl AuthenticationMiddlewareFactory {
    pub closed spec fn secret(&self) -> Seq<char> {
        self.token_secret@
    }

    pub fn new(token_secret: String) -> (r: Self)
        ensures
            r.secret() == token_secret@,
    {
        AuthenticationMiddlewareFactory { token_secret }
    }

    pub fn new_transform(&self) -> (r: AuthenticationMiddleware)
        ensures
            r.secret() == self.secret(),
    {
        AuthenticationMiddleware::new(self.token_secret.clone())
    }
}

} // verus!
