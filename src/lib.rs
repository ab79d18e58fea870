//! Recovery of an 8-digit numeric code from a two-stage SHA-256 checksum by
//! exhaustive search, with the hexadecimal codec that reads its inputs.

pub mod code;
pub mod error;
pub mod hex;
pub mod search;
pub mod sha;
