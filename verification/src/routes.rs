pub mod health_check;
pub mod subscriptions;

use vstd::prelude::*;

verus! {

/// What a route hands back to the HTTP layer: a status code and a body.
pub struct Response {
    pub status: u16,
    pub body: String,
}

} // verus!
