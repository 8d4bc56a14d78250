//! The authorization decision made ahead of every request: the value of the
//! key header is compared verbatim against the process-wide configured key,
//! and a request that does not carry it exactly is rejected with one fixed
//! message before any handler logic runs.

use vstd::prelude::*;

verus! {

/// The view of an optionally present header value.
pub open spec fn header_view(h: Option<&String>) -> Option<Seq<char>> {
    match h {
        Some(s) => Some(s@),
        None => None,
    }
}

/// An authorized request carries exactly the configured key.
pub open spec fn authorized(provided: Option<Seq<char>>, key: Seq<char>) -> bool {
    provided == Some(key)
}

/// The authorization decision on one request: true exactly when the key
/// header was present and matched the configured key, compared verbatim and
/// case-sensitively.
pub fn check_api_key(provided: Option<&String>, key: &String) -> (r: bool)
    ensures
        r == authorized(header_view(provided), key@),
{
    match provided {
        Some(s) => *s == *key,
        None => false,
    }
}

/// The fixed body of every rejected response: the same for a missing header
/// and for a wrong key, and saying nothing about the configured key.
pub fn unauthorized_body() -> (r: &'static str)
    ensures
        r@ == "Invalid API key"@,
{
    "Invalid API key"
}

} // verus!
