//! Requests and answers.
use vstd::prelude::*;

use crate::values::Value;

verus! {

/// A request for a move.
#[derive(Clone, Debug)]
pub struct MoveRequest {
    pub schema: String,
    pub qfen: String,
    pub side_to_move: u8,
    pub legal_action_indices: Vec<u8>,
    pub config: SearchConfig,
}

/// What a request may set of an engine. What it leaves out has a default.
#[derive(Clone, Debug, Default)]
pub struct SearchConfig {
    pub max_depth: Option<u32>,
    pub time_limit_ms: Option<u64>,
    pub iterations: Option<u32>,
    pub beam_width: Option<usize>,
    pub rollouts: Option<u32>,
    pub seed: Option<u64>,
}

/// Whether the numbers in an answer are proven or guessed. It has no default,
/// so every answer has to say which it is.
#[derive(Clone, Copy, Debug, PartialEq, Eq, Structural)]
pub enum Certainty {
    Estimate,
    Proof,
}

/// A candidate's score in the engine's own unit.
#[derive(Clone, Copy, Debug, PartialEq, Eq, Structural)]
pub enum Score {
    Count(u64),
    Value(Value),
}

/// What a score counts.
#[derive(Clone, Copy, Debug, PartialEq, Eq, Structural)]
pub enum Unit {
    Visits,
    Value,
}

/// A move that the engine looked at, with its score.
#[derive(Clone, Copy, Debug, PartialEq, Eq, Structural)]
pub struct Candidate {
    pub action_index: u8,
    pub score: Score,
    pub unit: Unit,
}

/// What an engine says of the position, seen from the side to move: a value
/// from minus one to one, or the probability `p` of a win, which stands for the
/// value `2 * p - 1`.
#[derive(Clone, Copy, Debug, PartialEq, Eq, Structural)]
pub enum Evaluation {
    Value(Value),
    WinProbability(Value),
}

/// The answer to a request.
#[derive(Clone, Debug)]
pub struct MoveResponse {
    pub schema: &'static str,
    pub action_index: u8,
    pub engine_kind: String,
    pub engine_version: &'static str,
    pub elapsed_ms: u64,
    pub certainty: Certainty,
    pub value: Option<Evaluation>,
    pub candidates: Option<Vec<Candidate>>,
    pub pv: Option<Vec<u8>>,
    pub engine_config: Option<String>,
}

/// An answer with its texts and lists as sequences.
pub struct Answer {
    pub schema: Seq<char>,
    pub action_index: u8,
    pub engine_kind: Seq<char>,
    pub engine_version: Seq<char>,
    pub elapsed_ms: u64,
    pub certainty: Certainty,
    pub value: Option<Evaluation>,
    pub candidates: Option<Seq<Candidate>>,
    pub pv: Option<Seq<u8>>,
    pub engine_config: Option<Seq<char>>,
}

/// A list that may be missing, as a sequence.
pub open spec fn listed<T>(list: Option<Vec<T>>) -> Option<Seq<T>> {
    match list {
        Some(items) => Some(items@),
        None => None,
    }
}

impl View for MoveResponse {
    type V = Answer;

    open spec fn view(&self) -> Answer {
        Answer {
            schema: self.schema@,
            action_index: self.action_index,
            engine_kind: self.engine_kind@,
            engine_version: self.engine_version@,
            elapsed_ms: self.elapsed_ms,
            certainty: self.certainty,
            value: self.value,
            candidates: listed(self.candidates),
            pv: listed(self.pv),
            engine_config: match self.engine_config {
                Some(text) => Some(text@),
                None => None,
            },
        }
    }
}

/// An answer is looked at with everything that it holds.
pub proof fn an_answer_is_looked_at_whole(response: MoveResponse)
    ensures
        response@.schema == response.schema@,
        response@.action_index == response.action_index,
        response@.engine_kind == response.engine_kind@,
        response@.engine_version == response.engine_version@,
        response@.elapsed_ms == response.elapsed_ms,
        response@.certainty == response.certainty,
        response@.value == response.value,
        response@.candidates is None <==> response.candidates is None,
        response.candidates matches Some(list) ==> response@.candidates == Some(list@),
        response@.pv is None <==> response.pv is None,
        response.pv matches Some(line) ==> response@.pv == Some(line@),
        response@.engine_config is None <==> response.engine_config is None,
        response.engine_config matches Some(text) ==> response@.engine_config == Some(text@),
{
}

} // verus!
