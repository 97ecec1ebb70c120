use blake2::{Blake2s256, Digest};
use vstd::prelude::*;
use vstd::utf8::*;

use crate::errors::custom_errors::CustomError;
use crate::text::{decimal, is_digit, lemma_decimal, lemma_decimal_injective, push_decimal};

verus! {

/// Domain tag of per-user key derivation.
pub const KEY_TAG: u8 = 75;

/// Domain tag of the email lookup index.
pub const EMAIL_TAG: u8 = 69;

/// Separator between the length of the secret and the secret.
pub const FRAME_SEPARATOR: u8 = 58;

/// Token lifetime used when none is configured: one day, in seconds.
pub const DEFAULT_TOKEN_LIFETIME: u64 = 86400;

/// The BLAKE2s-256 digest of `message`.
pub uninterp spec fn blake2s256(message: Seq<u8>) -> Seq<u8>;

/// Relies on `Blake2s256::digest`: a 32-byte digest that depends on the
/// message alone.
#[verifier::external_body]
pub(crate) fn blake2s_digest(message: &[u8]) -> (r: [u8; 32])
    ensures
        r@ == blake2s256(message@),
{
    Blake2s256::digest(message).into()
}

/// The hashed message: a domain tag, the decimal length of the secret, a
/// separator, the secret and the data. The length prefix makes the split
/// between secret and data unambiguous.
pub open spec fn framed(tag: u8, secret: Seq<u8>, data: Seq<u8>) -> Seq<u8> {
    seq![tag] + decimal(secret.len()) + seq![FRAME_SEPARATOR] + secret + data
}

/// Different (tag, secret, data) triples are hashed as different messages.
pub proof fn lemma_framed_injective(
    t1: u8,
    s1: Seq<u8>,
    d1: Seq<u8>,
    t2: u8,
    s2: Seq<u8>,
    d2: Seq<u8>,
)
    requires
        framed(t1, s1, d1) == framed(t2, s2, d2),
    ensures
        t1 == t2,
        s1 == s2,
        d1 == d2,
{
    let f = framed(t1, s1, d1);
    let n1 = decimal(s1.len());
    let n2 = decimal(s2.len());
    lemma_decimal(s1.len());
    lemma_decimal(s2.len());
    assert(f[0] == t1);
    assert(framed(t2, s2, d2)[0] == t2);
    if n1.len() < n2.len() {
        assert(f[1 + n1.len() as int] == FRAME_SEPARATOR);
        assert(framed(t2, s2, d2)[1 + n1.len() as int] == n2[n1.len() as int]);
        assert(is_digit(n2[n1.len() as int]));
    } else if n2.len() < n1.len() {
        assert(framed(t2, s2, d2)[1 + n2.len() as int] == FRAME_SEPARATOR);
        assert(f[1 + n2.len() as int] == n1[n2.len() as int]);
        assert(is_digit(n1[n2.len() as int]));
    }
    assert(n1.len() == n2.len());
    assert(n1 =~= f.subrange(1, 1 + n1.len() as int));
    assert(n2 =~= framed(t2, s2, d2).subrange(1, 1 + n2.len() as int));
    lemma_decimal_injective(s1.len(), s2.len());
    let k: int = 2 + n1.len() as int;
    assert(s1 =~= f.subrange(k, k + s1.len()));
    assert(s2 =~= framed(t2, s2, d2).subrange(k, k + s2.len()));
    assert(d1 =~= f.subrange(k + s1.len(), f.len() as int));
    assert(d2 =~= framed(t2, s2, d2).subrange(k + s2.len(), f.len() as int));
}

/// Builds `framed(tag, secret, data)`.
pub fn frame(tag: u8, secret: &[u8], data: &[u8]) -> (r: Vec<u8>)
    ensures
        r@ == framed(tag, secret@, data@),
{
    let mut out: Vec<u8> = Vec::new();
    out.push(tag);
    push_decimal(secret.len() as u64, &mut out);
    out.push(FRAME_SEPARATOR);
    out.extend_from_slice(secret);
    out.extend_from_slice(data);
    assert(out@ =~= framed(tag, secret@, data@));
    out
}

/// The 256-bit key of `user_id`, rooted in the server secret.
pub open spec fn derived_key(server_secret: Seq<char>, user_id: Seq<char>) -> Seq<u8> {
    blake2s256(framed(KEY_TAG, encode_utf8(server_secret), encode_utf8(user_id)))
}

/// Derives the per-user key: a keyed hash of the user identifier under the
/// server secret. The same inputs always give the same key; it is never stored.
pub fn derive_key(server_secret: &str, user_id: &str) -> (r: [u8; 32])
    ensures
        r@ == derived_key(server_secret@, user_id@),
{
    let message = frame(KEY_TAG, server_secret.as_bytes(), user_id.as_bytes());
    blake2s_digest(message.as_slice())
}

/// Derives the per-user key from a server secret that may be missing.
/// A missing or empty secret is a configuration error.
pub fn generate_key(server_secret: Option<String>, user_id: &str) -> (r: Result<
    [u8; 32],
    CustomError,
>)
    ensures
        match server_secret {
            Some(s) => if s@.len() > 0 {
                r matches Ok(k) && k@ == derived_key(s@, user_id@)
            } else {
                r == Err::<[u8; 32], _>(CustomError::ConfigurationError)
            },
            None => r == Err::<[u8; 32], _>(CustomError::ConfigurationError),
        },
{
    match server_secret {
        Some(s) => {
            if s.as_str().unicode_len() == 0 {
                Err(CustomError::ConfigurationError)
            } else {
                Ok(derive_key(s.as_str(), user_id))
            }
        },
        None => Err(CustomError::ConfigurationError),
    }
}

/// The process-wide secrets and settings, read once at start-up and passed
/// explicitly to every component.
#[derive(Clone)]
pub struct Config {
    /// Root of every per-user field key.
    pub encryption_secret: String,
    /// Static salt of the email lookup index.
    pub email_salt: String,
    /// Symmetric token-signing secret.
    pub token_secret: String,
    /// Token lifetime in seconds.
    pub token_lifetime: u64,
}

impl Config {
    /// Whether every secret is present and the lifetime is positive.
    pub open spec fn wf(&self) -> bool {
        &&& self.encryption_secret@.len() > 0
        &&& self.email_salt@.len() > 0
        &&& self.token_secret@.len() > 0
        &&& self.token_lifetime > 0
    }

    /// Builds the configuration. A missing or empty secret, or a zero
    /// lifetime, is a configuration error.
    pub fn new(
        encryption_secret: Option<String>,
        email_salt: Option<String>,
        token_secret: Option<String>,
        token_lifetime: u64,
    ) -> (r: Result<Config, CustomError>)
        ensures
            r is Ok <==> (encryption_secret matches Some(a) && a@.len() > 0) && (
            email_salt matches Some(b) && b@.len() > 0) && (token_secret matches Some(c) && c@.len()
                > 0) && token_lifetime > 0,
            r matches Ok(c) ==> c.wf() && Some(c.encryption_secret) == encryption_secret && Some(
                c.email_salt,
            ) == email_salt && Some(c.token_secret) == token_secret && c.token_lifetime
                == token_lifetime,
            r matches Err(e) ==> e == CustomError::ConfigurationError,
    {
        let encryption_secret = match encryption_secret {
            Some(s) => s,
            None => return Err(CustomError::ConfigurationError),
        };
        let email_salt = match email_salt {
            Some(s) => s,
            None => return Err(CustomError::ConfigurationError),
        };
        let token_secret = match token_secret {
            Some(s) => s,
            None => return Err(CustomError::ConfigurationError),
        };
        if encryption_secret.as_str().unicode_len() == 0 || email_salt.as_str().unicode_len() == 0
            || token_secret.as_str().unicode_len() == 0 || token_lifetime == 0 {
            return Err(CustomError::ConfigurationError);
        }
        Ok(Config { encryption_secret, email_salt, token_secret, token_lifetime })
    }

    /// The field key of `user_id` under this configuration.
    pub fn user_key(&self, user_id: &str) -> (r: [u8; 32])
        ensures
            r@ == derived_key(self.encryption_secret@, user_id@),
    {
        derive_key(self.encryption_secret.as_str(), user_id)
    }
}

} // verus!
