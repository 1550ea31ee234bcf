//! Time-based one-time passwords from secrets kept in archives and credential databases.
//!
//! The crate covers the chain from the bytes of a container to a numeric code: finding
//! the container that a path names, reading an entry of an archive, choosing the
//! records of a credential database and the payload of a QR code that hold a
//! credential, parsing an `otpauth://` address into a credential, decoding the base32
//! secret, and deriving the code with HMAC-SHA1.
//!
//! Every function is verified against its contract. The few items whose contracts are
//! taken on trust are the declarations around other crates and the standard library;
//! each of them says so in its documentation.

pub mod archive;
pub mod base32;
pub mod error;
pub mod otpauth;
pub mod prompt;
pub mod resolver;
pub mod sha1;
pub mod text;
pub mod totp;
pub mod vault;
