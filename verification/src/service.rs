//! What the service says of itself.
use vstd::prelude::*;

use crate::schema::{API_VERSION, CORE_REVISION};

verus! {

/// Name of the service.
pub const SERVICE: &'static str = "quantik-api";

/// The state of the service.
#[derive(Clone, Copy, Debug)]
pub struct HealthResponse {
    pub status: &'static str,
    pub service: &'static str,
    pub version: &'static str,
    pub core_revision: &'static str,
}

/// Reports that the service runs, under its name, its version and the revision
/// of its engines.
pub fn health() -> (res: HealthResponse)
    ensures
        res.status@ == "ok"@,
        res.service@ == "quantik-api"@,
        res.version@ == API_VERSION@,
        res.version@ == "0.1.0"@,
        res.core_revision@ == CORE_REVISION@,
        res.core_revision@ == "2b35565dddc8e0f77222af2f8fcd382b013f2fee"@,
{
    HealthResponse {
        status: "ok",
        service: SERVICE,
        version: API_VERSION,
        core_revision: CORE_REVISION,
    }
}

/// An engine that the service offers.
#[derive(Clone, Copy, Debug)]
pub struct EngineDescriptor {
    pub kind: &'static str,
    pub core_revision: &'static str,
}

/// The names of the engines, in the order in which they are offered.
pub open spec fn engine_names() -> Seq<Seq<char>> {
    seq!["minimax"@, "mcts"@, "beam"@]
}

/// Lists the engines.
pub fn list_engines() -> (engines: Vec<EngineDescriptor>)
    ensures
        engines@.len() == engine_names().len(),
        forall|i: int| #![trigger engines@[i]]
            0 <= i < engines@.len() ==> engines@[i].kind@ == engine_names()[i]
                && engines@[i].core_revision@ == CORE_REVISION@,
        engines@.len() == 3,
        engines@[0].kind@ == "minimax"@,
        engines@[1].kind@ == "mcts"@,
        engines@[2].kind@ == "beam"@,
{
    let mut engines: Vec<EngineDescriptor> = Vec::new();
    engines.push(EngineDescriptor { kind: "minimax", core_revision: CORE_REVISION });
    engines.push(EngineDescriptor { kind: "mcts", core_revision: CORE_REVISION });
    engines.push(EngineDescriptor { kind: "beam", core_revision: CORE_REVISION });
    engines
}

} // verus!
