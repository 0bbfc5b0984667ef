//! The liveness endpoint's payload and handler. The path it answers on is
//! exempt from authentication.
use vstd::prelude::*;

use crate::errors::ApiError;

verus! {

/// What the liveness endpoint reports.
#[derive(Debug, PartialEq)]
pub struct HealthResponse {
    pub status: String,
}

/// Report liveness; never fails.
pub fn get_health() -> (r: Result<HealthResponse, ApiError>)
    ensures
        r is Ok,
        r->Ok_0.status@ == "ok"@,
{
    Ok(HealthResponse { status: String::from_str("ok") })
}

} // verus!
