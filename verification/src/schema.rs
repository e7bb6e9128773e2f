//! Names and limits of the wire contract.
use vstd::prelude::*;

verus! {

/// Version of this service.
pub const API_VERSION: &'static str = "0.1.0";

/// Revision of the engines that answers name as their provenance.
pub const CORE_REVISION: &'static str = "2b35565dddc8e0f77222af2f8fcd382b013f2fee";

/// Schema name that a request carries.
pub const REQUEST_SCHEMA: &'static str = "engine-request.v1";

/// Schema name that every answer carries.
pub const RESPONSE_SCHEMA: &'static str = "engine-response.v2";

/// Longest candidate list that an answer carries.
pub const MAX_CANDIDATES: usize = 8;

/// Longer spelling of the request schema, accepted on input and never emitted.
pub const REQUEST_SCHEMA_LEGACY: &'static str = "quantik.engine-request.v1";

/// Longest principal variation that is looked at.
pub const MAX_LINE: usize = 64;

} // verus!
