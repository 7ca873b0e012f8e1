//! The responses the two HTTP routes produce.

use vstd::prelude::*;

verus! {

/// An HTTP response as far as this service is concerned: a status code
/// and a body.  Every response of this service has an empty body; errors
/// carry no payload to the caller.
pub struct Response {
    pub status: u16,
    pub body: Vec<u8>,
}

/// The liveness probe: always succeeds with an empty body.  It takes no
/// input at all, so the outcome cannot depend on database reachability
/// or any other state of the process.
pub fn health_check() -> (r: Response)
    ensures
        r.status == 200,
        r.body@.len() == 0,
{
    Response { status: 200, body: Vec::new() }
}

} // verus!
