use vstd::prelude::*;

verus! {

/// Errors of the identity core. They leave the library as a kind only;
/// no diagnostic detail travels with them.
#[derive(Debug, Clone, Copy, PartialEq, Eq, Structural)]
pub enum CustomError {
    /// Anything not covered below.
    Unknown,
    /// A record with the same email lookup hash is already stored.
    UserAlreadyExists,
    /// The password hashing function failed.
    HashingError,
    /// Encrypting a field failed.
    EncryptionError,
    /// Decrypting a stored field failed: wrong key or corrupted data.
    DecryptionError,
    /// The store failed.
    DatabaseError,
    /// Unknown account or wrong password; the two are not told apart.
    InvalidCredentials,
    /// Bad signature, malformed structure or expired token.
    InvalidToken,
    /// A required secret is missing or unusable.
    ConfigurationError,
}

/// The client-facing text of each error kind.
pub open spec fn error_text(e: CustomError) -> Seq<char> {
    match e {
        CustomError::Unknown => "Unknown error occurred"@,
        CustomError::UserAlreadyExists => "User already exists"@,
        CustomError::HashingError => "Hashing error"@,
        CustomError::EncryptionError => "Encryption error"@,
        CustomError::DecryptionError => "Decryption error"@,
        CustomError::DatabaseError => "Database error"@,
        CustomError::InvalidCredentials => "Invalid credentials"@,
        CustomError::InvalidToken => "Invalid token"@,
        CustomError::ConfigurationError => "Configuration error"@,
    }
}

impl CustomError {
    /// A short, generic description, safe to show to a client.
    pub fn message(&self) -> (r: &'static str)
        ensures
            r@ == error_text(*self),
    {
        match self {
            CustomError::Unknown => "Unknown error occurred",
            CustomError::UserAlreadyExists => "User already exists",
            CustomError::HashingError => "Hashing error",
            CustomError::EncryptionError => "Encryption error",
            CustomError::DecryptionError => "Decryption error",
            CustomError::DatabaseError => "Database error",
            CustomError::InvalidCredentials => "Invalid credentials",
            CustomError::InvalidToken => "Invalid token",
            CustomError::ConfigurationError => "Configuration error",
        }
    }
}

} // verus!
