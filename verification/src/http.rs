//! The HTTP face of the service, as plain values.
//!
//! The route wiring and the listener live outside the library; these
//! functions decide what each route answers. A discovery race's outcome maps
//! to exactly one of two replies: the address as plain text with status 200,
//! or a fixed error line with status 404.

use vstd::prelude::*;

use crate::race::DiscoveryResult;

verus! {

/// A minimal HTTP reply: a status code and a text body.
pub struct HttpReply {
    pub status: u16,
    pub body: String,
}

/// The reply to GET / or GET /ipv6, given the discovery race's outcome: the
/// found address itself with status 200, or status 404 with a fixed error
/// line when no address was found.
pub fn get_ipv6(outcome: DiscoveryResult) -> (r: HttpReply)
    ensures
        match outcome {
            DiscoveryResult::Address(a) => r.status == 200 && r.body@ == a@,
            DiscoveryResult::NoAddress => r.status == 404 && r.body@ == "Could not find IPv6 address"@,
        },
{
    match outcome {
        DiscoveryResult::Address(a) => HttpReply { status: 200, body: a },
        DiscoveryResult::NoAddress => HttpReply {
            status: 404,
            body: "Could not find IPv6 address".to_owned(),
        },
    }
}

/// The reply to GET /health: a fixed JSON liveness body with status 200,
/// independent of discovery state.
pub fn health() -> (r: HttpReply)
    ensures
        r.status == 200 && r.body@ == "{\"status\":\"ok\"}"@,
{
    HttpReply { status: 200, body: "{\"status\":\"ok\"}".to_owned() }
}

} // verus!
