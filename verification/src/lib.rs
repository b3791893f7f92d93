//! Credential and session-token library: salted password hashing, issuance
//! and validation of paired access/refresh bearer tokens, and the small data
//! and utility types that surround them.
//!
//! The verified core lives in [`auth`]: a token is issued and validated
//! against an explicit wire shape (dot-separated base64url segments over the
//! canonical claims rendering of [`claims`]), so that validation provably
//! accepts exactly the unexpired tokens this library issues under the same
//! secret, and never a token of the other kind.

pub mod auth;
pub mod claims;
pub mod common;
pub mod config;
pub mod errors;
pub mod models;
pub mod services;
pub mod text;
pub mod utils;
pub mod wire;
