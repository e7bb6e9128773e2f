//! The checks that a request has to pass before an engine runs.
use vstd::prelude::*;

use crate::error::{malformed, ApiError, Refusal};
use crate::model::MoveRequest;
use crate::schema::{REQUEST_SCHEMA, REQUEST_SCHEMA_LEGACY};
use crate::text::same_text;

verus! {

/// The message to a request of an unknown schema.
pub open spec fn schema_message() -> Seq<char> {
    "schema must be "@ + REQUEST_SCHEMA@
}

/// What is wrong with the form of a request, if anything: first its schema,
/// then its side to move, then its action indices.
pub open spec fn form_fault(request: MoveRequest) -> Option<Refusal> {
    if request.schema@ != REQUEST_SCHEMA@ && request.schema@ != REQUEST_SCHEMA_LEGACY@ {
        Some(malformed(schema_message()))
    } else if request.side_to_move > 1 {
        Some(malformed("side_to_move must be 0 or 1"@))
    } else if exists|i: int|
        0 <= i < request.legal_action_indices@.len() && #[trigger] request.legal_action_indices@[i]
            > 63 {
        Some(malformed("legal_action_indices must contain values from 0 through 63"@))
    } else {
        None
    }
}

/// Checks the form of a request.
pub fn validate_request(request: &MoveRequest) -> (res: Result<(), ApiError>)
    ensures
        match res {
            Ok(()) => form_fault(*request) is None,
            Err(error) => form_fault(*request) == Some(error@),
        },
{
    if !same_text(request.schema.as_str(), REQUEST_SCHEMA) && !same_text(
        request.schema.as_str(),
        REQUEST_SCHEMA_LEGACY,
    ) {
        return Err(ApiError::bad_request("schema must be ".to_owned().concat(REQUEST_SCHEMA)));
    }
    if request.side_to_move > 1 {
        return Err(ApiError::bad_request("side_to_move must be 0 or 1".to_owned()));
    }
    let mut i: usize = 0;
    while i < request.legal_action_indices.len()
        invariant
            i <= request.legal_action_indices@.len(),
            forall|j: int| 0 <= j < i ==> #[trigger] request.legal_action_indices@[j] <= 63,
            request.schema@ == REQUEST_SCHEMA@ || request.schema@ == REQUEST_SCHEMA_LEGACY@,
            request.side_to_move <= 1,
        decreases request.legal_action_indices@.len() - i,
    {
        if request.legal_action_indices[i] > 63 {
            return Err(
                ApiError::bad_request(
                    "legal_action_indices must contain values from 0 through 63".to_owned(),
                ),
            );
        }
        i += 1;
    }
    Ok(())
}

/// A request is well formed exactly where its schema has one of the two spellings,
/// its side to move is 0 or 1, and its actions lie below 64. Otherwise the first
/// of the three that fails is named.
pub proof fn the_form_is_schema_then_side_then_actions(request: MoveRequest)
    ensures
        form_fault(request) is None <==> (request.schema@ == "engine-request.v1"@
            || request.schema@ == "quantik.engine-request.v1"@) && request.side_to_move < 2 && (
        forall|i: int|
            0 <= i < request.legal_action_indices@.len()
                ==> #[trigger] request.legal_action_indices@[i] < 64),
        request.schema@ != "engine-request.v1"@ && request.schema@ != "quantik.engine-request.v1"@
            ==> form_fault(request) == Some(
            malformed("schema must be "@ + "engine-request.v1"@),
        ),
        (request.schema@ == "engine-request.v1"@ || request.schema@
            == "quantik.engine-request.v1"@) && request.side_to_move >= 2 ==> form_fault(request)
            == Some(malformed("side_to_move must be 0 or 1"@)),
        (request.schema@ == "engine-request.v1"@ || request.schema@
            == "quantik.engine-request.v1"@) && request.side_to_move < 2 && (exists|i: int|
            0 <= i < request.legal_action_indices@.len()
                && #[trigger] request.legal_action_indices@[i] >= 64) ==> form_fault(request)
            == Some(malformed("legal_action_indices must contain values from 0 through 63"@)),
{
    if form_fault(request) is None {
        assert forall|i: int| 0 <= i < request.legal_action_indices@.len() implies
            #[trigger] request.legal_action_indices@[i] < 64 by {}
    }
}

} // verus!
