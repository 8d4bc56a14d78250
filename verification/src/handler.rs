//! The request-handling pipeline around the external parsing engine: the
//! screening that runs before the engine may be invoked, and the
//! normalization of what the engine emitted into the response rows. The
//! engine call itself stands between the two, outside this module, behind
//! the process's exclusive lock; it is reached only with an address that the
//! screening accepted.

use vstd::prelude::*;

use crate::auth::{authorized, check_api_key, header_view};
use crate::normalize::{capitalize_words, normalized};

verus! {

/// Why a request failed, by the stage that rejected it.
#[derive(Clone, Copy, PartialEq, Eq, Structural, Debug)]
pub enum RequestError {
    /// The key header was missing or did not match the configured key.
    AuthFailure,
    /// The body carried no address to parse.
    BadRequest,
    /// The engine reported an internal error on the given address.
    EngineFailure,
}

/// An internal error of the external parsing engine, as handed back by the
/// code that made the call.
#[derive(Debug)]
pub struct EngineError {
    pub detail: String,
}

/// One row of a successful response: the label the engine gave a fragment of
/// the address, and that fragment's value in normalized display form.
#[derive(Debug)]
pub struct ComponentResponse {
    pub component: String,
    pub value: String,
}

impl RequestError {
    /// The HTTP status of the failure: an authorization failure is 401, a
    /// bad request 400, an engine failure 500. The three are distinct.
    pub fn status_code(&self) -> (r: u16)
        ensures
            *self == RequestError::AuthFailure ==> r == 401,
            *self == RequestError::BadRequest ==> r == 400,
            *self == RequestError::EngineFailure ==> r == 500,
    {
        match self {
            RequestError::AuthFailure => 401,
            RequestError::BadRequest => 400,
            RequestError::EngineFailure => 500,
        }
    }
}

/// The handler's first step on a request that passed authorization: take
/// the address out of the deserialized body, and reject a body that has
/// none.
pub fn screen_body(address: Option<String>) -> (r: Result<String, RequestError>)
    ensures
        address is None ==> r == Err::<String, RequestError>(RequestError::BadRequest),
        address matches Some(a) ==> (r matches Ok(s) && s@ == a@),
{
    match address {
        Some(a) => Ok(a),
        None => Err(RequestError::BadRequest),
    }
}

/// The whole screening of one request, in pipeline order: the authorization
/// check first, then the body check. The result is Ok exactly on an
/// authorized request whose body carries an address, and holds that address
/// unchanged; on every other request the engine is never invoked, an
/// unauthorized one failing before its body is even looked at.
pub fn screen_request(
    api_key_header: Option<&String>,
    key: &String,
    address: Option<String>,
) -> (r: Result<String, RequestError>)
    ensures
        !authorized(header_view(api_key_header), key@) ==> r == Err::<String, RequestError>(
            RequestError::AuthFailure,
        ),
        authorized(header_view(api_key_header), key@) ==> (match address {
            Some(a) => (r matches Ok(s) && s@ == a@),
            None => r == Err::<String, RequestError>(RequestError::BadRequest),
        }),
{
    if check_api_key(api_key_header, key) {
        screen_body(address)
    } else {
        Err(RequestError::AuthFailure)
    }
}

/// The response rows for what the engine emitted: one row per raw component,
/// in the engine's emission order, the label kept as it is and the value
/// normalized. Nothing is dropped, added or re-sorted.
pub fn build_response(raw: Vec<(String, String)>) -> (r: Vec<ComponentResponse>)
    ensures
        r@.len() == raw@.len(),
        forall|i: int|
            0 <= i < raw@.len() ==> (#[trigger] r@[i]).component@ == raw@[i].0@ && r@[i].value@
                == normalized(raw@[i].1@),
{
    let mut out: Vec<ComponentResponse> = Vec::new();
    let mut i: usize = 0;
    let n = raw.len();
    while i < n
        invariant
            n == raw@.len(),
            i <= n,
            out@.len() == i,
            forall|k: int|
                0 <= k < i ==> (#[trigger] out@[k]).component@ == raw@[k].0@ && out@[k].value@
                    == normalized(raw@[k].1@),
        decreases n - i,
    {
        let label = raw[i].0.clone();
        let value = raw[i].1.clone();
        out.push(
            ComponentResponse { component: label, value: capitalize_words(value) },
        );
        i = i + 1;
    }
    out
}

/// The handler's final step: the engine's outcome turned into the response
/// or into the failure it maps to. A successful parse yields the normalized
/// rows in emission order; an engine error is surfaced as EngineFailure, a
/// request-level failure that leaves the process able to serve the next
/// request.
pub fn finish_request(outcome: Result<Vec<(String, String)>, EngineError>) -> (r: Result<
    Vec<ComponentResponse>,
    RequestError,
>)
    ensures
        outcome is Err ==> (r matches Err(e) && e == RequestError::EngineFailure),
        outcome matches Ok(raw) ==> (r matches Ok(rows) && rows@.len() == raw@.len() && (forall|
            i: int,
        |
            0 <= i < raw@.len() ==> (#[trigger] rows@[i]).component@ == raw@[i].0@
                && rows@[i].value@ == normalized(raw@[i].1@))),
{
    match outcome {
        Ok(raw) => Ok(build_response(raw)),
        Err(_) => Err(RequestError::EngineFailure),
    }
}

} // verus!
