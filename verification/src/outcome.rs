//! What one run of an engine comes to, before it is checked against the
//! position.
use vstd::prelude::*;

use crate::board::Placement;
use crate::model::{Certainty, Evaluation};
use crate::ranking::RankedMove;

verus! {

/// What one run of an engine comes to.
#[derive(Clone, Debug)]
pub struct Outcome {
    pub best_move: Placement,
    pub value: Option<Evaluation>,
    pub certainty: Certainty,
    /// Best first, as the engine ranks them.
    pub candidates: Vec<RankedMove>,
    pub pv: Vec<Placement>,
    pub config: String,
}

/// An outcome with its texts and lists as sequences.
pub struct Finding {
    pub best_move: Placement,
    pub value: Option<Evaluation>,
    pub certainty: Certainty,
    pub candidates: Seq<RankedMove>,
    pub pv: Seq<Placement>,
    pub config: Seq<char>,
}

impl View for Outcome {
    type V = Finding;

    open spec fn view(&self) -> Finding {
        Finding {
            best_move: self.best_move,
            value: self.value,
            certainty: self.certainty,
            candidates: self.candidates@,
            pv: self.pv@,
            config: self.config@,
        }
    }
}

/// An outcome is looked at with everything that it holds.
pub proof fn an_outcome_is_looked_at_whole(outcome: Outcome)
    ensures
        outcome@.best_move == outcome.best_move,
        outcome@.value == outcome.value,
        outcome@.certainty == outcome.certainty,
        outcome@.candidates == outcome.candidates@,
        outcome@.pv == outcome.pv@,
        outcome@.config == outcome.config@,
{
}

} // verus!
