use chacha20poly1305::aead::{Aead, KeyInit};
use chacha20poly1305::{ChaCha20Poly1305, Key, Nonce};
use rand::RngCore;
use vstd::prelude::*;
use vstd::utf8::*;

use crate::encoding::{
    base64_standard, decode_standard_text, encode_standard, standard_decoded,
};
use crate::errors::custom_errors::CustomError;
use crate::text::string_from_utf8;

verus! {

broadcast use {encode_utf8_valid_utf8, encode_utf8_decode_utf8};

/// Errors of the field cipher.
#[derive(Debug, Clone, Copy, PartialEq, Eq, Structural)]
pub enum EncryptionError {
    EncryptionError,
    DecryptionError,
}

impl EncryptionError {
    /// A short, generic description.
    pub fn message(&self) -> (r: &'static str)
        ensures
            r@ == (match *self {
                EncryptionError::EncryptionError => "Encryption error"@,
                EncryptionError::DecryptionError => "Decryption error"@,
            }),
    {
        match self {
            EncryptionError::EncryptionError => "Encryption error",
            EncryptionError::DecryptionError => "Decryption error",
        }
    }
}

impl From<EncryptionError> for CustomError {
    fn from(e: EncryptionError) -> (r: CustomError) {
        match e {
            EncryptionError::EncryptionError => CustomError::EncryptionError,
            EncryptionError::DecryptionError => CustomError::DecryptionError,
        }
    }
}

impl vstd::std_specs::convert::FromSpecImpl<EncryptionError> for CustomError {
    open spec fn obeys_from_spec() -> bool {
        true
    }

    open spec fn from_spec(e: EncryptionError) -> CustomError {
        match e {
            EncryptionError::EncryptionError => CustomError::EncryptionError,
            EncryptionError::DecryptionError => CustomError::DecryptionError,
        }
    }
}


/// Length of a nonce in bytes.
pub const NONCE_LEN: usize = 12;

/// Length of the authentication tag in bytes.
pub const TAG_LEN: usize = 16;

/// Plaintexts must be shorter than this many bytes (2^32 - 1 blocks of 64).
pub const MAX_PLAINTEXT_LEN: u64 = 274877906880;

/// ChaCha20-Poly1305 ciphertext followed by its tag, with no associated data.
pub uninterp spec fn chacha20poly1305_seal(key: Seq<u8>, nonce: Seq<u8>, plaintext: Seq<u8>) -> Seq<u8>;

#[verifier::external_type_specification]
#[verifier::external_body]
pub struct ExAeadError(chacha20poly1305::aead::Error);

/// Relies on `ChaCha20Poly1305::encrypt`: a function of key, nonce and
/// plaintext that fails only on messages of 2^32 - 1 blocks or more, appends
/// a 16-byte tag, and (a stream cipher) never maps two plaintexts to one
/// ciphertext under the same key and nonce.
#[verifier::external_body]
fn seal(key: &[u8; 32], nonce: &[u8], plaintext: &[u8]) -> (r: Result<
    Vec<u8>,
    chacha20poly1305::aead::Error,
>)
    requires
        nonce@.len() == NONCE_LEN,
    ensures
        r is Ok <==> plaintext@.len() < MAX_PLAINTEXT_LEN,
        r matches Ok(c) ==> c@ == chacha20poly1305_seal(key@, nonce@, plaintext@),
        r matches Ok(c) ==> c@.len() == plaintext@.len() + TAG_LEN,
        r matches Ok(c) ==> forall|q: Seq<u8>|
            q.len() < MAX_PLAINTEXT_LEN && chacha20poly1305_seal(key@, nonce@, q) == c@ ==> q
                == plaintext@,
{
    ChaCha20Poly1305::new(Key::from_slice(key)).encrypt(Nonce::from_slice(nonce), plaintext)
}

/// Relies on `ChaCha20Poly1305::decrypt`: the tag is checked first, so it
/// succeeds only on the sealing of the plaintext it returns (16 bytes longer
/// than it), and it does succeed on every such sealing; input shorter than a
/// tag is refused.
#[verifier::external_body]
fn open(key: &[u8; 32], nonce: &[u8], ciphertext: &[u8]) -> (r: Result<
    Vec<u8>,
    chacha20poly1305::aead::Error,
>)
    requires
        nonce@.len() == NONCE_LEN,
    ensures
        r matches Ok(p) ==> p@.len() < MAX_PLAINTEXT_LEN && chacha20poly1305_seal(
            key@,
            nonce@,
            p@,
        ) == ciphertext@,
        r matches Ok(p) ==> ciphertext@.len() == p@.len() + TAG_LEN,
        ciphertext@.len() < TAG_LEN ==> r is Err,
        forall|p: Seq<u8>|
            p.len() < MAX_PLAINTEXT_LEN && chacha20poly1305_seal(key@, nonce@, p) == ciphertext@
                ==> (r is Ok && r->Ok_0@ == p),
{
    ChaCha20Poly1305::new(Key::from_slice(key)).decrypt(Nonce::from_slice(nonce), ciphertext)
}

/// Relies on `rand::rng().fill_bytes`: `n` bytes from the thread-local CSPRNG.
#[verifier::external_body]
pub(crate) fn random_bytes(n: usize) -> (r: Vec<u8>)
    ensures
        r@.len() == n,
{
    let mut v = vec![0u8; n];
    rand::rng().fill_bytes(&mut v);
    v
}

/// The plaintext sealed in `ciphertext` under `key` and `nonce`, if any.
pub open spec fn opened(key: Seq<u8>, nonce: Seq<u8>, ciphertext: Seq<u8>) -> Option<Seq<u8>> {
    if exists|p: Seq<u8>|
        p.len() < MAX_PLAINTEXT_LEN && chacha20poly1305_seal(key, nonce, p) == ciphertext {
        Some(
            choose|p: Seq<u8>|
                p.len() < MAX_PLAINTEXT_LEN && chacha20poly1305_seal(key, nonce, p) == ciphertext,
        )
    } else {
        None
    }
}

/// The stored form of `text`: base64 of nonce, ciphertext and tag.
pub open spec fn sealed_blob(key: Seq<u8>, nonce: Seq<u8>, text: Seq<char>) -> Seq<char> {
    base64_standard(nonce + chacha20poly1305_seal(key, nonce, encode_utf8(text)))
}

/// The text that `blob` holds under `key`; `None` where decoding fails, the
/// bytes are too short for nonce and tag, or authentication or UTF-8
/// decoding fails.
pub open spec fn decrypted(key: Seq<u8>, blob: Seq<char>) -> Option<Seq<char>> {
    match standard_decoded(blob) {
        Some(bytes) => if bytes.len() < NONCE_LEN + TAG_LEN {
            None
        } else {
            match opened(key, bytes.take(NONCE_LEN as int), bytes.skip(NONCE_LEN as int)) {
                Some(p) => if valid_utf8(p) {
                    Some(decode_utf8(p))
                } else {
                    None
                },
                None => None,
            }
        },
        None => None,
    }
}

/// The nonce that `blob` carries in its first twelve bytes, if it decodes.
pub open spec fn blob_nonce(blob: Seq<char>) -> Option<Seq<u8>> {
    match standard_decoded(blob) {
        Some(bytes) => if bytes.len() < NONCE_LEN {
            None
        } else {
            Some(bytes.take(NONCE_LEN as int))
        },
        None => None,
    }
}

/// Blobs that carry different nonces are different texts: two encryptions
/// give the same blob only if they drew the same nonce.
pub proof fn lemma_distinct_nonces_distinct_blobs(b1: Seq<char>, b2: Seq<char>)
    requires
        blob_nonce(b1) is Some,
        blob_nonce(b1) != blob_nonce(b2),
    ensures
        b1 != b2,
{
}

/// An encrypted byte string with the nonce it was sealed under.
pub struct EncryptedData {
    pub ciphertext: Vec<u8>,
    pub nonce: Vec<u8>,
}

fn generate_nonce() -> (r: Vec<u8>)
    ensures
        r@.len() == NONCE_LEN,
{
    random_bytes(NONCE_LEN)
}

/// Seals `plaintext` under `key` with a fresh random nonce.
pub fn encrypt(key: &[u8; 32], plaintext: &[u8]) -> (r: Result<EncryptedData, EncryptionError>)
    ensures
        r is Ok <==> plaintext@.len() < MAX_PLAINTEXT_LEN,
        r matches Ok(d) ==> d.nonce@.len() == NONCE_LEN && d.ciphertext@ == chacha20poly1305_seal(
            key@,
            d.nonce@,
            plaintext@,
        ),
        r matches Ok(d) ==> d.ciphertext@.len() == plaintext@.len() + TAG_LEN,
        r matches Ok(d) ==> opened(key@, d.nonce@, d.ciphertext@) == Some(plaintext@),
        r matches Err(e) ==> e == EncryptionError::EncryptionError,
{
    let nonce = generate_nonce();
    match seal(key, &nonce, plaintext) {
        Ok(ciphertext) => {
            let ghost p = choose|p: Seq<u8>|
                p.len() < MAX_PLAINTEXT_LEN && chacha20poly1305_seal(key@, nonce@, p)
                    == ciphertext@;
            assert(p == plaintext@);
            Ok(EncryptedData { ciphertext, nonce })
        },
        Err(_) => Err(EncryptionError::EncryptionError),
    }
}

/// Opens `ciphertext` sealed under `key` and `nonce`.
pub fn decrypt(key: &[u8; 32], ciphertext: &[u8], nonce: &[u8]) -> (r: Result<
    Vec<u8>,
    EncryptionError,
>)
    ensures
        nonce@.len() != NONCE_LEN ==> r == Err::<Vec<u8>, _>(EncryptionError::DecryptionError),
        nonce@.len() == NONCE_LEN ==> (r is Ok <==> opened(key@, nonce@, ciphertext@) is Some),
        r matches Ok(p) ==> opened(key@, nonce@, ciphertext@) == Some(p@),
        r matches Ok(p) ==> ciphertext@.len() == p@.len() + TAG_LEN,
        ciphertext@.len() < TAG_LEN ==> r is Err,
        r matches Err(e) ==> e == EncryptionError::DecryptionError,
{
    if nonce.len() != NONCE_LEN {
        return Err(EncryptionError::DecryptionError);
    }
    match open(key, nonce, ciphertext) {
        Ok(p) => {
            let ghost q = choose|q: Seq<u8>|
                q.len() < MAX_PLAINTEXT_LEN && chacha20poly1305_seal(key@, nonce@, q)
                    == ciphertext@;
            assert(q == p@);
            Ok(p)
        },
        Err(_) => Err(EncryptionError::DecryptionError),
    }
}

/// Encrypts `plaintext` under `key` with the given 12-byte nonce and returns
/// the base64 text of nonce, ciphertext and tag. What it returns decrypts
/// back to `plaintext`.
pub fn encrypt_with_nonce(key_bytes: &[u8; 32], nonce: &[u8], plaintext: &str) -> (r: Result<
    String,
    EncryptionError,
>)
    requires
        nonce@.len() == NONCE_LEN,
    ensures
        r is Ok <==> encode_utf8(plaintext@).len() < MAX_PLAINTEXT_LEN,
        r matches Ok(blob) ==> blob@ == sealed_blob(key_bytes@, nonce@, plaintext@),
        r matches Ok(blob) ==> blob_nonce(blob@) == Some(nonce@),
        r matches Ok(blob) ==> standard_decoded(blob@) == Some(
            nonce@ + chacha20poly1305_seal(key_bytes@, nonce@, encode_utf8(plaintext@)),
        ),
        r is Ok ==> chacha20poly1305_seal(key_bytes@, nonce@, encode_utf8(plaintext@)).len()
            == encode_utf8(plaintext@).len() + TAG_LEN,
        r matches Ok(blob) ==> decrypted(key_bytes@, blob@) == Some(plaintext@),
        r matches Err(e) ==> e == EncryptionError::EncryptionError,
{
    let bytes = plaintext.as_bytes();
    match seal(key_bytes, nonce, bytes) {
        Ok(ciphertext) => {
            let mut combined: Vec<u8> = Vec::new();
            combined.extend_from_slice(nonce);
            combined.extend_from_slice(ciphertext.as_slice());
            let blob = encode_standard(combined.as_slice());
            proof {
                assert(combined@ =~= nonce@ + ciphertext@);
                let ghost c = choose|c: Seq<u8>| base64_standard(c) == blob@;
                assert(c == combined@);
                assert(combined@.take(NONCE_LEN as int) =~= nonce@);
                assert(combined@.skip(NONCE_LEN as int) =~= ciphertext@);
                let ghost p = choose|p: Seq<u8>|
                    p.len() < MAX_PLAINTEXT_LEN && chacha20poly1305_seal(key_bytes@, nonce@, p)
                        == ciphertext@;
                assert(p == bytes@);
            }
            Ok(blob)
        },
        Err(_) => Err(EncryptionError::EncryptionError),
    }
}

/// Encrypts `plaintext` under `key` with a fresh random nonce and returns the
/// base64 text of nonce, ciphertext and tag. What it returns decrypts back to
/// `plaintext`.
pub fn encrypt_with_random_nonce(key_bytes: &[u8; 32], plaintext: &str) -> (r: Result<
    String,
    EncryptionError,
>)
    ensures
        r is Ok <==> encode_utf8(plaintext@).len() < MAX_PLAINTEXT_LEN,
        r matches Ok(blob) ==> exists|n: Seq<u8>|
            n.len() == NONCE_LEN && blob@ == sealed_blob(key_bytes@, n, plaintext@) && blob_nonce(
                blob@,
            ) == Some(n) && standard_decoded(blob@) == Some(
                n + chacha20poly1305_seal(key_bytes@, n, encode_utf8(plaintext@)),
            ) && chacha20poly1305_seal(key_bytes@, n, encode_utf8(plaintext@)).len()
                == encode_utf8(plaintext@).len() + TAG_LEN,
        r matches Ok(blob) ==> decrypted(key_bytes@, blob@) == Some(plaintext@),
        r matches Err(e) ==> e == EncryptionError::EncryptionError,
{
    let nonce = generate_nonce();
    encrypt_with_nonce(key_bytes, nonce.as_slice(), plaintext)
}

/// Decrypts the base64 text of nonce, ciphertext and tag. Fails closed:
/// any decoding, length, authentication or UTF-8 failure is a
/// `DecryptionError`, and no partial plaintext is ever returned.
pub fn decrypt_with_nonce(key_bytes: &[u8; 32], combined_base64: &str) -> (r: Result<
    String,
    EncryptionError,
>)
    ensures
        r is Ok <==> decrypted(key_bytes@, combined_base64@) is Some,
        r matches Ok(s) ==> decrypted(key_bytes@, combined_base64@) == Some(s@),
        r matches Err(e) ==> e == EncryptionError::DecryptionError,
{
    let combined = match decode_standard_text(combined_base64) {
        Some(b) => b,
        None => return Err(EncryptionError::DecryptionError),
    };
    if combined.len() < NONCE_LEN + TAG_LEN {
        return Err(EncryptionError::DecryptionError);
    }
    let mut nonce_bytes = combined;
    let ciphertext = nonce_bytes.split_off(NONCE_LEN);
    let ghost all = nonce_bytes@ + ciphertext@;
    assert(all.take(NONCE_LEN as int) =~= nonce_bytes@);
    assert(all.skip(NONCE_LEN as int) =~= ciphertext@);
    let plaintext_bytes = match decrypt(key_bytes, ciphertext.as_slice(), nonce_bytes.as_slice()) {
        Ok(p) => p,
        Err(_) => return Err(EncryptionError::DecryptionError),
    };
    match string_from_utf8(plaintext_bytes) {
        Some(s) => Ok(s),
        None => Err(EncryptionError::DecryptionError),
    }
}

} // verus!
