//! Authentication and token-issuance core for a household bookkeeping backend.
//!
//! The crate covers credential hashing and verification, issuance and
//! verification of signed time-bound bearer tokens, the signup / login /
//! refresh flows over a user-record store, and the bearer-header gate that
//! protected routes run behind.  The token wire format (three dot-separated
//! base64url segments over a JSON claims payload) is implemented and verified
//! here; only the HMAC-SHA256 signature itself, the clock, and salt
//! generation are delegated to outside code behind trusted wrappers.

pub mod ascii;
pub mod base64url;
pub mod claims;
pub mod directory;
pub mod errors;
pub mod gate;
pub mod jwt;
pub mod password;
pub mod schemas;
pub mod service;
pub mod user;
