//! Verified core of a small address-parsing HTTP service: the value
//! normalizer, the API-key authorization decision, and the pure
//! request-handling pipeline around the external parsing engine.

pub mod auth;
pub mod handler;
pub mod normalize;
