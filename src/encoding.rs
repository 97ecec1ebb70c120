use base64::engine::general_purpose;
use base64::Engine;
use vstd::prelude::*;

verus! {

/// The padded standard-alphabet base64 text of `bytes`.
pub uninterp spec fn base64_standard(bytes: Seq<u8>) -> Seq<char>;

/// The unpadded URL-safe base64 text of `bytes`.
pub uninterp spec fn base64_url(bytes: Seq<u8>) -> Seq<char>;

/// The bytes whose standard base64 text is `text`, if there are any.
pub open spec fn standard_decoded(text: Seq<char>) -> Option<Seq<u8>> {
    if exists|b: Seq<u8>| base64_standard(b) == text {
        Some(choose|b: Seq<u8>| base64_standard(b) == text)
    } else {
        None
    }
}

/// The bytes whose URL-safe base64 text is `text`, if there are any.
pub open spec fn url_decoded(text: Seq<char>) -> Option<Seq<u8>> {
    if exists|b: Seq<u8>| base64_url(b) == text {
        Some(choose|b: Seq<u8>| base64_url(b) == text)
    } else {
        None
    }
}

/// A character of the URL-safe base64 alphabet `A-Z a-z 0-9 - _`.
pub open spec fn url_safe_char(c: char) -> bool {
    let u = c as u32;
    (65 <= u <= 90) || (97 <= u <= 122) || (48 <= u <= 57) || u == 45 || u == 95
}

/// Text made of URL-safe base64 characters only.
pub open spec fn url_safe_text(s: Seq<char>) -> bool {
    forall|i: int| 0 <= i < s.len() ==> url_safe_char(#[trigger] s[i])
}

/// URL-safe text holds no `.`.
pub proof fn lemma_url_safe_dot_free(s: Seq<char>)
    requires
        url_safe_text(s),
    ensures
        dot_free(s),
{
    assert forall|i: int| 0 <= i < s.len() implies s[i] != '.' by {
        assert(url_safe_char(s[i]));
    }
}

/// Text free of the `.` separator.
pub open spec fn dot_free(s: Seq<char>) -> bool {
    forall|i: int| 0 <= i < s.len() ==> s[i] != '.'
}

#[verifier::external_type_specification]
#[verifier::external_body]
pub struct ExDecodeError(base64::DecodeError);

/// Relies on base64's `STANDARD.encode`: a function of the bytes, and two
/// different byte strings never share an encoding.
#[verifier::external_body]
pub(crate) fn encode_standard(bytes: &[u8]) -> (r: String)
    ensures
        r@ == base64_standard(bytes@),
        forall|other: Seq<u8>| base64_standard(other) == r@ ==> other == bytes@,
{
    general_purpose::STANDARD.encode(bytes)
}

/// Relies on base64's `STANDARD.decode`: it accepts exactly the canonical
/// encodings (padding required, no stray trailing bits) and returns the bytes
/// that were encoded.
#[verifier::external_body]
pub(crate) fn decode_standard(text: &str) -> (r: Result<Vec<u8>, base64::DecodeError>)
    ensures
        r matches Ok(b) ==> base64_standard(b@) == text@,
        forall|b: Seq<u8>| base64_standard(b) == text@ ==> (r is Ok && r->Ok_0@ == b),
{
    general_purpose::STANDARD.decode(text)
}

/// Relies on base64's `URL_SAFE_NO_PAD.encode`: a function of the bytes,
/// injective, over the alphabet `A-Z a-z 0-9 - _` with no padding.
#[verifier::external_body]
pub(crate) fn encode_url(bytes: &[u8]) -> (r: String)
    ensures
        r@ == base64_url(bytes@),
        forall|other: Seq<u8>| base64_url(other) == r@ ==> other == bytes@,
        url_safe_text(r@),
{
    general_purpose::URL_SAFE_NO_PAD.encode(bytes)
}

/// Relies on base64's `URL_SAFE_NO_PAD.decode`: it accepts exactly the
/// canonical unpadded encodings and returns the bytes that were encoded.
#[verifier::external_body]
pub(crate) fn decode_url(text: &str) -> (r: Result<Vec<u8>, base64::DecodeError>)
    ensures
        r matches Ok(b) ==> base64_url(b@) == text@,
        forall|b: Seq<u8>| base64_url(b) == text@ ==> (r is Ok && r->Ok_0@ == b),
{
    general_purpose::URL_SAFE_NO_PAD.decode(text)
}

/// Decodes standard base64, with an exact account of the outcome.
pub fn decode_standard_text(text: &str) -> (r: Option<Vec<u8>>)
    ensures
        r is Some <==> standard_decoded(text@) is Some,
        r matches Some(b) ==> standard_decoded(text@) == Some(b@),
{
    match decode_standard(text) {
        Ok(b) => {
            assert(base64_standard(b@) == text@);
            let ghost c = choose|c: Seq<u8>| base64_standard(c) == text@;
            assert(c == b@);
            Some(b)
        },
        Err(_) => None,
    }
}

/// Decodes URL-safe base64, with an exact account of the outcome.
pub fn decode_url_text(text: &str) -> (r: Option<Vec<u8>>)
    ensures
        r is Some <==> url_decoded(text@) is Some,
        r matches Some(b) ==> url_decoded(text@) == Some(b@),
{
    match decode_url(text) {
        Ok(b) => {
            assert(base64_url(b@) == text@);
            let ghost c = choose|c: Seq<u8>| base64_url(c) == text@;
            assert(c == b@);
            Some(b)
        },
        Err(_) => None,
    }
}

} // verus!
