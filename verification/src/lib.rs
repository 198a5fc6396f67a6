//! Credential verification and caching for an HTTP book service.
//!
//! The library covers the security-relevant core of the service: a salted,
//! iterated password hashing scheme with a self-describing stored format
//! (`method$salt$digest`), a time-bounded in-memory cache of verified
//! credentials, an extractor that derives credentials from a request's
//! Basic header or from a base64 `token` query parameter, and the validator
//! that combines them into the authentication decision for one request.
//! HTTP plumbing and the persistent credential store stay outside; the
//! validator is handed their results as plain values.

pub mod auth;
pub mod cache;
pub mod encrypt;
pub mod exception;
pub mod extract;
pub mod strutil;
