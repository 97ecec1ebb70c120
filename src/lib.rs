//! Identity backend core: key derivation, field encryption, password hashing,
//! email lookup index, bearer tokens, the request gate and the user store.

pub mod errors;
pub mod text;
pub mod encoding;
pub mod encryption;
pub mod hashing;
pub mod keys;
pub mod email_index;
pub mod claims;
pub mod jwt;
pub mod middleware;
pub mod database;
pub mod server;
