use argon2::password_hash::{PasswordHash, PasswordHasher, PasswordVerifier, SaltString};
use argon2::{Algorithm, Argon2, Params, Version};
use vstd::prelude::*;
use vstd::utf8::*;

use crate::encryption::random_bytes;
use crate::errors::custom_errors::CustomError;

verus! {

/// Length of a freshly drawn salt in bytes.
pub const SALT_LEN: usize = 16;

/// Shortest salt Argon2 accepts, in bytes.
pub const MIN_SALT_LEN: usize = 8;

/// Longest salt a `SaltString` holds, in bytes.
pub const MAX_SALT_LEN: usize = 48;

/// Longest password Argon2 accepts, in bytes.
pub const MAX_PASSWORD_LEN: u64 = 0xFFFF_FFFF;

/// The PHC string of Argon2id (version 0x13, default cost parameters) over
/// `password` with `salt`.
pub uninterp spec fn argon2id_phc(password: Seq<u8>, salt: Seq<u8>) -> Seq<char>;

/// Whether Argon2 verification accepts `password` against the PHC string `phc`.
pub uninterp spec fn argon2_accepts(password: Seq<u8>, phc: Seq<char>) -> bool;

#[verifier::external_type_specification]
#[verifier::external_body]
pub struct ExPasswordHashError(argon2::password_hash::Error);

/// Relies on `Argon2::hash_password` (Argon2id, version 0x13, default
/// parameters; the salt bytes are given to it as a `SaltString`): the PHC
/// string depends on password and salt alone, and verifying the same password
/// against it succeeds. It fails only on lengths: a password over
/// `0xFFFF_FFFF` bytes. A salt outside 8 to 48 bytes is not admitted: one
/// under 3 bytes makes `SaltString::as_salt` panic, and Argon2 refuses one
/// under 8.
#[verifier::external_body]
fn argon2id_hash(password: &[u8], salt: &[u8]) -> (r: Result<String, argon2::password_hash::Error>)
    requires
        MIN_SALT_LEN <= salt@.len() <= MAX_SALT_LEN,
    ensures
        password@.len() <= MAX_PASSWORD_LEN ==> r is Ok,
        r matches Ok(h) ==> h@ == argon2id_phc(password@, salt@),
        r matches Ok(h) ==> argon2_accepts(password@, h@),
{
    let salt = SaltString::encode_b64(salt)?;
    let argon2 = Argon2::new(Algorithm::Argon2id, Version::V0x13, Params::default());
    let hash = argon2.hash_password(password, &salt)?;
    Ok(hash.serialize().as_str().to_string())
}

/// Relies on `PasswordHash::new` and `Argon2::verify_password`: the digest is
/// recomputed with the parameters and salt that the PHC string carries and
/// compared in constant time; a string that does not parse is refused.
#[verifier::external_body]
fn argon2_verify(password: &[u8], phc: &str) -> (r: bool)
    ensures
        r == argon2_accepts(password@, phc@),
{
    match PasswordHash::new(phc) {
        Ok(parsed) => Argon2::default().verify_password(password, &parsed).is_ok(),
        Err(_) => false,
    }
}

/// Whether `password` verifies against the stored hash `stored`.
pub open spec fn password_verifies(password: Seq<char>, stored: Seq<char>) -> bool {
    argon2_accepts(encode_utf8(password), stored)
}

/// Hashes a password with Argon2id and a fresh random salt. The stored string
/// describes algorithm, version, parameters, salt and digest, and the password
/// verifies against it.
pub fn hash_random_salt(unhashed: &str) -> (r: Result<String, CustomError>)
    ensures
        r matches Ok(h) ==> exists|salt: Seq<u8>|
            salt.len() == SALT_LEN && h@ == argon2id_phc(encode_utf8(unhashed@), salt),
        r matches Ok(h) ==> password_verifies(unhashed@, h@),
        encode_utf8(unhashed@).len() <= MAX_PASSWORD_LEN ==> r is Ok,
        r matches Err(e) ==> e == CustomError::HashingError,
{
    let salt = random_bytes(SALT_LEN);
    match argon2id_hash(unhashed.as_bytes(), salt.as_slice()) {
        Ok(h) => Ok(h),
        Err(_) => Err(CustomError::HashingError),
    }
}

/// Verifies a password against a stored hash. Every failure, a wrong
/// password or a stored string that does not parse, is the same
/// `InvalidCredentials`.
pub fn verify_password(unhashed: &str, password_hash: &str) -> (r: Result<(), CustomError>)
    ensures
        r is Ok <==> password_verifies(unhashed@, password_hash@),
        r matches Err(e) ==> e == CustomError::InvalidCredentials,
{
    if argon2_verify(unhashed.as_bytes(), password_hash) {
        Ok(())
    } else {
        Err(CustomError::InvalidCredentials)
    }
}

} // verus!
