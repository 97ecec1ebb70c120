use vstd::prelude::*;
use vstd::utf8::*;

use crate::encoding::{base64_standard, encode_standard};
use crate::keys::{blake2s256, blake2s_digest, frame, framed, lemma_framed_injective, EMAIL_TAG};
use crate::text::{trim, trimmed};

verus! {

/// The lower-case mapping of `s`, character by character.
pub uninterp spec fn lower_of(s: Seq<char>) -> Seq<char>;

/// ASCII lower case of one character; any other character is unchanged.
pub open spec fn ascii_lower_char(c: char) -> char {
    if 65 <= c as u32 <= 90 {
        ((c as u32) + 32) as char
    } else {
        c
    }
}

/// ASCII lower case of every character.
pub open spec fn ascii_lower(s: Seq<char>) -> Seq<char> {
    s.map_values(|c: char| ascii_lower_char(c))
}

/// Lower case as `str::to_lowercase` gives it, spelled out for ASCII text.
pub open spec fn lowered(s: Seq<char>) -> Seq<char> {
    if is_ascii_chars(s) {
        ascii_lower(s)
    } else {
        lower_of(s)
    }
}

/// Relies on `str::to_lowercase`: the result depends on the characters alone,
/// and on ASCII text it maps `A-Z` to `a-z` and keeps everything else.
#[verifier::external_body]
fn lowercase(s: &str) -> (r: String)
    ensures
        r@ == lower_of(s@),
        is_ascii_chars(s@) ==> r@ == ascii_lower(s@),
{
    s.to_lowercase()
}

/// An email address as the index sees it: lower-cased, then trimmed.
pub open spec fn normalized(email: Seq<char>) -> Seq<char> {
    trimmed(lowered(email))
}

/// The message hashed for the lookup token of `email` under `salt`.
pub open spec fn lookup_message(salt: Seq<char>, email: Seq<char>) -> Seq<u8> {
    framed(EMAIL_TAG, encode_utf8(salt), encode_utf8(normalized(email)))
}

/// The lookup token of `email` under the static `salt`.
pub open spec fn lookup_token(salt: Seq<char>, email: Seq<char>) -> Seq<char> {
    base64_standard(blake2s256(lookup_message(salt, email)))
}

/// Lower-cases and trims an email address.
pub fn normalize_email(email: &str) -> (r: String)
    ensures
        r@ == normalized(email@),
{
    let lower = lowercase(email);
    trim(lower.as_str())
}

/// The deterministic, one-way lookup token of an email address: a fast hash
/// of the salt and the normalised address, in base64. It stands in for the
/// address wherever records are searched by email.
pub fn email_lookup_hash(salt: &str, email: &str) -> (r: String)
    ensures
        r@ == lookup_token(salt@, email@),
{
    let normal = normalize_email(email);
    let message = frame(EMAIL_TAG, salt.as_bytes(), normal.as_str().as_bytes());
    let digest = blake2s_digest(message.as_slice());
    encode_standard(digest.as_slice())
}

/// The token depends on the salt and the normalised address only: two
/// spellings that normalise alike get the same token.
pub proof fn lemma_lookup_deterministic(salt: Seq<char>, e1: Seq<char>, e2: Seq<char>)
    requires
        normalized(e1) == normalized(e2),
    ensures
        lookup_token(salt, e1) == lookup_token(salt, e2),
{
}

/// ASCII addresses that differ only in letter case normalise alike.
pub proof fn lemma_ascii_case_insensitive(e1: Seq<char>, e2: Seq<char>)
    requires
        is_ascii_chars(e1),
        is_ascii_chars(e2),
        ascii_lower(e1) == ascii_lower(e2),
    ensures
        normalized(e1) == normalized(e2),
{
}

/// Changing the salt changes the hashed message, for every address; so does
/// changing the normalised address under one salt.
pub proof fn lemma_lookup_message_separates(s1: Seq<char>, e1: Seq<char>, s2: Seq<char>, e2: Seq<char>)
    requires
        s1 != s2 || normalized(e1) != normalized(e2),
    ensures
        lookup_message(s1, e1) != lookup_message(s2, e2),
{
    if lookup_message(s1, e1) == lookup_message(s2, e2) {
        lemma_framed_injective(
            EMAIL_TAG,
            encode_utf8(s1),
            encode_utf8(normalized(e1)),
            EMAIL_TAG,
            encode_utf8(s2),
            encode_utf8(normalized(e2)),
        );
        encode_utf8_decode_utf8(s1);
        encode_utf8_decode_utf8(s2);
        encode_utf8_decode_utf8(normalized(e1));
        encode_utf8_decode_utf8(normalized(e2));
    }
}

} // verus!
