//! Error kinds that leave the library.

pub mod custom_errors;
