//! The liveness route: always succeeds, says nothing.

use vstd::prelude::*;

use crate::routes::Response;

verus! {

/// Answers a liveness probe. The response is 200 with an empty body, whatever
/// the state of the rest of the service: the route consults nothing.
pub fn health_check() -> (r: Response)
    ensures
        r.status == 200,
        r.body@.len() == 0,
{
    Response { status: 200, body: String::new() }
}

} // verus!
