//! Move service for the board game Quantik.
//!
//! A request names a position in QFEN notation, the side to move, and the
//! complete set of legal actions. The service recomputes legality with
//! `quantik-core`, runs one of its engines, checks what came back against the
//! position, and answers with an action index, `shape * 16 + position`.
pub mod board;
pub mod board_laws;
pub mod candidates;
pub mod clock;
pub mod engines;
pub mod error;
pub mod laws;
mod lemmas;
pub mod line;
pub mod model;
pub mod outcome;
pub mod ranking;
pub mod request;
pub mod schema;
pub mod search;
pub mod service;
pub mod settings;
pub mod text;
pub mod values;

pub use crate::error::{ApiError, Status};
pub use crate::model::{
    Candidate, Certainty, Evaluation, MoveRequest, MoveResponse, Score, SearchConfig, Unit,
};
pub use crate::request::validate_request;
pub use crate::schema::{
    API_VERSION, CORE_REVISION, MAX_CANDIDATES, REQUEST_SCHEMA, REQUEST_SCHEMA_LEGACY,
    RESPONSE_SCHEMA,
};
pub use crate::search::{choose_move, run_search};
pub use crate::service::{health, list_engines, EngineDescriptor, HealthResponse};
pub use crate::values::Value;
