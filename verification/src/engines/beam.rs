//! The beam search engine.
use std::time::Duration;

use quantik_core::beam_search::{BeamSearchConfig, BeamSearchEngine};
use quantik_core::bitboard::Bitboard;
use vstd::prelude::*;

use crate::board::{can_win, is_legal, legal_moves, mover, own_move, won, Placement, Position};
use crate::error::{malformed, unfit, ApiError};
use crate::line::replays;
use crate::model::{Certainty, Evaluation, Score, SearchConfig, Unit};
use crate::outcome::{Finding, Outcome};
use crate::ranking::{descending, not_below, scored_as, within_one, RankedMove};
use crate::settings::{
    a_count_is_used_as_given, a_time_limit_is_used_as_given, a_width_is_used_as_given,
    count_setting, limit_count, limit_time, limit_width, time_in_range, time_setting, width_setting,
};
use crate::text::{decimal, decimal_text};
use crate::values::{limiting_is_to_one_and_minus_one, Value, ONE};

verus! {

/// What is asked of the engine.
#[derive(Clone, Copy, Debug)]
pub struct BeamParams {
    pub beam_width: usize,
    pub max_depth: u32,
    pub rollouts: u32,
    pub time_limit_ms: Option<u64>,
    pub seed: Option<u64>,
}

impl BeamParams {
    /// What the engine accepts.
    pub open spec fn in_range(self) -> bool {
        &&& 1 <= self.beam_width <= 100_000
        &&& 1 <= self.max_depth <= 16
        &&& 1 <= self.rollouts <= 100_000
        &&& time_in_range(self.time_limit_ms)
    }
}

/// What a request asks of the engine: a beam of 64, a depth of 8 and 8 rollouts
/// where it gives none, the beam and the rollouts from 1 to 100000 and the depth
/// from 1 to 16.
pub open spec fn beam_params_of(input: SearchConfig) -> BeamParams {
    BeamParams {
        beam_width: width_setting(input.beam_width),
        max_depth: count_setting(input.max_depth, 8, 1, 16),
        rollouts: count_setting(input.rollouts, 8, 1, 100_000),
        time_limit_ms: time_setting(input.time_limit_ms),
        seed: input.seed,
    }
}

/// What a request asks of the engine.
pub fn beam_params(input: &SearchConfig) -> (params: BeamParams)
    ensures
        params == beam_params_of(*input),
        params.in_range(),
{
    BeamParams {
        beam_width: limit_width(input.beam_width),
        max_depth: limit_count(input.max_depth, 8, 1, 16),
        rollouts: limit_count(input.rollouts, 8, 1, 100_000),
        time_limit_ms: limit_time(input.time_limit_ms),
        seed: input.seed,
    }
}

/// A line of moves with the value of the board at its end, seen from player 0.
#[derive(Clone, Debug)]
pub struct Leaf {
    pub moves: Vec<Placement>,
    pub value: Value,
}

/// What the engine reports: the side to move, the best line that it kept, and
/// the first moves of all the lines with the best value of each, seen from the
/// side to move and best first.
#[derive(Clone, Debug)]
pub struct BeamReport {
    pub root_player: u8,
    pub best_leaf: Option<Leaf>,
    pub ranked: Vec<(Placement, Value)>,
}

/// A report with its lists as sequences.
pub struct BeamAccount {
    pub root_player: u8,
    pub best_leaf: Option<(Seq<Placement>, Value)>,
    pub ranked: Seq<(Placement, Value)>,
}

impl View for BeamReport {
    type V = BeamAccount;

    open spec fn view(&self) -> BeamAccount {
        BeamAccount {
            root_player: self.root_player,
            best_leaf: match self.best_leaf {
                Some(leaf) => Some((leaf.moves@, leaf.value)),
                None => None,
            },
            ranked: self.ranked@,
        }
    }
}

/// Why the engine does not search: it refuses the settings, or the position.
#[derive(Clone, Debug)]
pub enum BeamFailure {
    Settings(String),
    Position(String),
}

/// What the engine says of a position that it refuses.
pub open spec fn beam_complaint(planes: Seq<u16>) -> Option<Seq<char>> {
    if won(planes) {
        Some("Cannot search from an already-terminal root state."@)
    } else if mover(planes) is None {
        Some("Inconsistent root piece counts."@)
    } else if legal_moves(planes).len() == 0 {
        Some("Cannot search from a root state with no legal moves."@)
    } else {
        None
    }
}

/// Whether a run of the engine can end with this report. Which of them a run
/// ends with may rest on chance, on the clock and on the machine.
pub uninterp spec fn beam_can_report(
    planes: Seq<u16>,
    params: BeamParams,
    account: BeamAccount,
) -> bool;

/// A value seen from player 0, as the given player sees it.
pub open spec fn seen_by(player: u8, value: Value) -> Value {
    if player == 0 {
        value
    } else {
        value.opposite()
    }
}

/// What holds of every report: it names the side to move; it has a best line,
/// which is not empty and can be played; and the first moves are legal, the one
/// of the best line among them with the value of the line, which no other
/// exceeds, and come best first. All values lie between minus one and one. Where
/// some move fills a line with all four shapes, the value of the best line is one.
pub open spec fn beam_report_fits(planes: Seq<u16>, account: BeamAccount) -> bool {
    &&& mover(planes) == Some(account.root_player)
    &&& forall|i: int|
        0 <= i < account.ranked.len() ==> is_legal(planes, (#[trigger] account.ranked[i]).0)
            && account.ranked[i].1.magnitude() <= ONE
    &&& forall|i: int, j: int|
        0 <= i < j < account.ranked.len() ==> (#[trigger] account.ranked[i]).1.rank() >= (
        #[trigger] account.ranked[j]).1.rank()
    &&& account.best_leaf matches Some(leaf) && {
        &&& leaf.0.len() > 0 && replays(planes, leaf.0)
        &&& leaf.1.magnitude() <= ONE
        &&& exists|i: int|
            0 <= i < account.ranked.len() && (#[trigger] account.ranked[i]).0 == leaf.0[0]
        &&& forall|i: int|
            0 <= i < account.ranked.len() && (#[trigger] account.ranked[i]).0 == leaf.0[0]
                ==> account.ranked[i].1.same_number(seen_by(account.root_player, leaf.1))
        &&& forall|i: int|
            0 <= i < account.ranked.len() ==> (#[trigger] account.ranked[i]).1.rank() <= seen_by(
                account.root_player,
                leaf.1,
            ).rank() || account.ranked[i].1.same_number(seen_by(account.root_player, leaf.1))
        &&& can_win(planes) ==> seen_by(account.root_player, leaf.1) == (Value { bits: ONE })
    }
}

/// Searches a position.
///
/// Calls `BeamSearchEngine::new`, `BeamSearchEngine::search` and
/// `BeamSearchResult::ranked_root_moves` of `quantik_core::beam_search`.
/// Trusted: settings in range are accepted; the search fails exactly on a won
/// position, on one with no side to move and on one with no legal move, with the
/// messages given here; otherwise it ends with one of the reports that it can
/// give for these arguments, and such a report fits the position. How the seed,
/// chance and the clock bear on the choice among them is left unsaid. The limit
/// is handed over in seconds.
#[verifier::external_body]
fn run_beam(
    position: &Position,
    beam_width: usize,
    max_depth: u32,
    rollouts: u32,
    time_limit_ms: Option<u64>,
    seed: Option<u64>,
) -> (res: Result<BeamReport, BeamFailure>)
    requires
        (BeamParams { beam_width, max_depth, rollouts, time_limit_ms, seed }).in_range(),
    ensures
        match res {
            Ok(report) => {
                let params = BeamParams { beam_width, max_depth, rollouts, time_limit_ms, seed };
                &&& beam_complaint(position@) is None
                &&& beam_can_report(position@, params, report@)
                &&& beam_report_fits(position@, report@)
            },
            Err(failure) => failure matches BeamFailure::Position(message) && beam_complaint(
                position@,
            ) == Some(message@),
        },
{
    let mut engine = BeamSearchEngine::new(BeamSearchConfig {
        beam_width,
        max_depth,
        rollouts_per_candidate: rollouts,
        random_seed: seed,
        time_limit_s: time_limit_ms.map(|ms| Duration::from_millis(ms).as_secs_f64()),
        ..BeamSearchConfig::default()
    }).map_err(BeamFailure::Settings)?;
    let found = engine.search(&Bitboard::new(position.planes)).map_err(BeamFailure::Position)?;
    let ranked = found.ranked_root_moves(None).iter().map(|r|
        (own_move(&r.mv), Value::new(r.best_value.to_bits()))).collect();
    let best_leaf = found.best_leaf.map(|leaf| Leaf { value: Value::new(leaf.value.to_bits()),
        moves: leaf.moves.iter().map(own_move).collect() });
    Ok(BeamReport { root_player: found.root_player, best_leaf, ranked })
}

/// A first move as a ranked move, its value limited.
pub open spec fn scored(entry: (Placement, Value)) -> RankedMove {
    RankedMove { mv: entry.0, score: Score::Value(entry.1.limited()), unit: Unit::Value }
}

/// The first moves of a report as ranked moves.
pub open spec fn scored_moves(account: BeamAccount) -> Seq<RankedMove> {
    account.ranked.map_values(|entry: (Placement, Value)| scored(entry))
}

/// The best line of a report, where it has one that is not empty.
pub open spec fn best_line(account: BeamAccount) -> Option<(Seq<Placement>, Value)> {
    match account.best_leaf {
        Some(leaf) => if leaf.0.len() > 0 {
            Some(leaf)
        } else {
            None
        },
        None => None,
    }
}

/// What a report comes to: the first move of its best line, with the value of
/// the line seen from the side to move, or, where there is no line, the first of
/// the ranked moves with its value. Without either it comes to nothing. It is
/// always an estimate.
pub open spec fn beam_finding(account: BeamAccount, beam_width: usize) -> Option<Finding> {
    let config = "beam_width="@ + decimal(beam_width as nat);
    match best_line(account) {
        Some((moves, value)) => Some(
            Finding {
                best_move: moves[0],
                value: Some(Evaluation::Value(seen_by(account.root_player, value))),
                certainty: Certainty::Estimate,
                candidates: scored_moves(account),
                pv: moves,
                config,
            },
        ),
        None => if account.ranked.len() > 0 {
            Some(
                Finding {
                    best_move: account.ranked[0].0,
                    value: Some(Evaluation::Value(account.ranked[0].1)),
                    certainty: Certainty::Estimate,
                    candidates: scored_moves(account),
                    pv: Seq::empty(),
                    config,
                },
            )
        } else {
            None
        },
    }
}

fn scored_ranked(entries: &Vec<(Placement, Value)>) -> (res: Vec<RankedMove>)
    ensures
        res@ == entries@.map_values(|entry: (Placement, Value)| scored(entry)),
{
    let mut res: Vec<RankedMove> = Vec::new();
    let mut i: usize = 0;
    while i < entries.len()
        invariant
            i <= entries@.len(),
            res@.len() == i,
            forall|j: int| 0 <= j < i ==> #[trigger] res@[j] == scored(entries@[j]),
        decreases entries@.len() - i,
    {
        let (mv, value) = entries[i];
        res.push(RankedMove { mv, score: Score::Value(value.clamped()), unit: Unit::Value });
        i += 1;
    }
    assert(res@ =~= entries@.map_values(|entry: (Placement, Value)| scored(entry)));
    res
}

/// Reads a report of the engine.
pub fn beam_outcome(report: BeamReport, beam_width: usize) -> (res: Result<Outcome, ApiError>)
    ensures
        match res {
            Ok(outcome) => beam_finding(report@, beam_width) == Some(outcome@),
            Err(error) => beam_finding(report@, beam_width) is None && error@ == unfit(
                "beam search found no move"@,
            ),
        },
        res matches Ok(outcome) ==> outcome.candidates@.len() == report.ranked@.len(),
        report.best_leaf matches Some(leaf) ==> leaf.moves@.len() > 0 ==> (res matches Ok(outcome)
            && outcome.best_move == leaf.moves@[0] && outcome.pv@ == leaf.moves@ && (
        report.root_player == 0 ==> outcome.value == Some(Evaluation::Value(leaf.value)))),
{
    let candidates = scored_ranked(&report.ranked);
    let config = "beam_width=".to_owned().concat(decimal_text(beam_width as u64).as_str());
    if let Some(leaf) = report.best_leaf {
        if leaf.moves.len() > 0 {
            let root_value = if report.root_player == 0 {
                leaf.value
            } else {
                leaf.value.negated()
            };
            return Ok(
                Outcome {
                    best_move: leaf.moves[0],
                    value: Some(Evaluation::Value(root_value)),
                    certainty: Certainty::Estimate,
                    candidates,
                    pv: leaf.moves,
                    config,
                },
            );
        }
    }
    if report.ranked.len() > 0 {
        let (best_move, value) = report.ranked[0];
        let outcome = Outcome {
            best_move,
            value: Some(Evaluation::Value(value)),
            certainty: Certainty::Estimate,
            candidates,
            pv: Vec::new(),
            config,
        };
        assert(outcome.pv@ =~= Seq::empty());
        Ok(outcome)
    } else {
        Err(ApiError::unprocessable("beam search found no move".to_owned()))
    }
}

/// What the engine can come to on a position.
pub open spec fn beam_can_find(planes: Seq<u16>, input: SearchConfig, finding: Finding) -> bool {
    exists|account: BeamAccount|
        {
            &&& #[trigger] beam_can_report(planes, beam_params_of(input), account)
            &&& beam_report_fits(planes, account)
            &&& beam_finding(account, beam_params_of(input).beam_width) == Some(finding)
        }
}

/// Reads a failure of the engine: settings that it refuses are the request's
/// fault, and so is a position, which is however well formed.
pub fn beam_refusal(failure: BeamFailure) -> (error: ApiError)
    ensures
        error@ == match failure {
            BeamFailure::Settings(message) => malformed(message@),
            BeamFailure::Position(message) => unfit(message@),
        },
{
    match failure {
        BeamFailure::Settings(message) => ApiError::bad_request(message),
        BeamFailure::Position(message) => ApiError::unprocessable(message),
    }
}

/// Runs the engine on a position.
pub fn search_beam(position: &Position, input: &SearchConfig) -> (res: Result<Outcome, ApiError>)
    ensures
        match res {
            Ok(outcome) => beam_complaint(position@) is None && beam_can_find(
                position@,
                *input,
                outcome@,
            ),
            Err(error) => beam_complaint(position@) matches Some(message) && error@ == unfit(
                message,
            ),
        },
{
    let params = beam_params(input);
    match run_beam(
        position,
        params.beam_width,
        params.max_depth,
        params.rollouts,
        params.time_limit_ms,
        params.seed,
    ) {
        Ok(report) => beam_outcome(report, params.beam_width),
        Err(failure) => Err(beam_refusal(failure)),
    }
}

/// Whatever the engine comes to, it is an estimate, its move and its candidates
/// are legal, the move is among the candidates, which are scored by value and
/// come best first, and it has a line that starts with the move and can be
/// played. All values lie between minus one and one, and the move has the value
/// of the position, which no candidate exceeds. Where some move fills a line with
/// all four shapes, the value is one.
pub proof fn a_beam_finding_is_usable(planes: Seq<u16>, input: SearchConfig, finding: Finding)
    requires
        beam_can_find(planes, input, finding),
    ensures
        finding.certainty == Certainty::Estimate,
        is_legal(planes, finding.best_move),
        finding.value matches Some(Evaluation::Value(value)) && value.magnitude() <= ONE,
        descending(finding.candidates),
        finding.pv.len() > 0 && finding.pv[0] == finding.best_move && replays(planes, finding.pv),
        forall|i: int|
            0 <= i < finding.candidates.len() ==> is_legal(
                planes,
                (#[trigger] finding.candidates[i]).mv,
            ) && finding.candidates[i].unit == Unit::Value && finding.candidates[i].score is Value
                && within_one(finding.candidates[i].score),
        exists|i: int|
            0 <= i < finding.candidates.len() && (#[trigger] finding.candidates[i]).mv
                == finding.best_move,
        forall|i: int|
            0 <= i < finding.candidates.len() && (#[trigger] finding.candidates[i]).mv
                == finding.best_move ==> scored_as(finding.candidates[i].score, finding.value),
        forall|i: int, j: int|
            0 <= i < finding.candidates.len() && 0 <= j < finding.candidates.len() && (
            #[trigger] finding.candidates[i]).mv == finding.best_move ==> not_below(
                finding.candidates[i].score,
                (#[trigger] finding.candidates[j]).score,
            ),
        can_win(planes) ==> finding.value == Some(Evaluation::Value(Value { bits: ONE })),
{
    let account = choose|account: BeamAccount|
        {
            &&& #[trigger] beam_can_report(planes, beam_params_of(input), account)
            &&& beam_report_fits(planes, account)
            &&& beam_finding(account, beam_params_of(input).beam_width) == Some(finding)
        };
    assert(best_line(account) == account.best_leaf);
    let leaf = account.best_leaf->0;
    let i = choose|i: int|
        0 <= i < account.ranked.len() && (#[trigger] account.ranked[i]).0 == leaf.0[0];
    assert(finding.candidates[i].mv == finding.best_move);
    assert forall|i: int, j: int| 0 <= i < j < finding.candidates.len() implies (
    #[trigger] finding.candidates[i]).score.rank() >= (
    #[trigger] finding.candidates[j]).score.rank() by {
        assert(account.ranked[i].1.rank() >= account.ranked[j].1.rank());
    }
    assert forall|i: int| 0 <= i < finding.candidates.len() implies is_legal(
        planes,
        (#[trigger] finding.candidates[i]).mv,
    ) && finding.candidates[i].unit == Unit::Value && finding.candidates[i].score is Value
        && within_one(finding.candidates[i].score) && (
    finding.candidates[i].mv == finding.best_move ==> scored_as(
        finding.candidates[i].score,
        finding.value,
    )) && not_below(
        Score::Value(seen_by(account.root_player, leaf.1)),
        finding.candidates[i].score,
    ) by {
        assert(finding.candidates[i] == scored(account.ranked[i]));
    }
}

/// What a request asks of the engine reaches it: a width and rollouts from 1 to
/// 100000, a depth from 1 to 16, a time limit from 1 to 300000 milliseconds and
/// any seed as they are given, and what lies outside as the limit that it passes.
/// Without them the width is 64, the depth is 8, there are 8 rollouts, and there is
/// no time limit and no seed.
pub proof fn what_is_asked_of_beam_reaches_it(input: SearchConfig)
    ensures
        input.beam_width is None ==> beam_params_of(input).beam_width == 64,
        input.beam_width matches Some(n) ==> {
            &&& 1 <= n <= 100_000 ==> beam_params_of(input).beam_width == n
            &&& n < 1 ==> beam_params_of(input).beam_width == 1
            &&& n > 100_000 ==> beam_params_of(input).beam_width == 100_000
        },
        input.max_depth is None ==> beam_params_of(input).max_depth == 8,
        input.max_depth matches Some(n) ==> {
            &&& 1 <= n <= 16 ==> beam_params_of(input).max_depth == n
            &&& n < 1 ==> beam_params_of(input).max_depth == 1
            &&& n > 16 ==> beam_params_of(input).max_depth == 16
        },
        input.rollouts is None ==> beam_params_of(input).rollouts == 8,
        input.rollouts matches Some(n) ==> {
            &&& 1 <= n <= 100_000 ==> beam_params_of(input).rollouts == n
            &&& n < 1 ==> beam_params_of(input).rollouts == 1
            &&& n > 100_000 ==> beam_params_of(input).rollouts == 100_000
        },
        input.time_limit_ms is None ==> beam_params_of(input).time_limit_ms is None,
        input.time_limit_ms matches Some(ms) ==> {
            &&& 1 <= ms <= 300_000 ==> beam_params_of(input).time_limit_ms == Some(ms)
            &&& ms < 1 ==> beam_params_of(input).time_limit_ms == Some(1u64)
            &&& ms > 300_000 ==> beam_params_of(input).time_limit_ms == Some(300_000u64)
        },
        beam_params_of(input).seed == input.seed,
{
    a_width_is_used_as_given(input.beam_width);
    a_count_is_used_as_given(input.max_depth, 8, 1, 16);
    a_count_is_used_as_given(input.rollouts, 8, 1, 100_000);
    a_time_limit_is_used_as_given(input.time_limit_ms);
}

/// Player 0 sees a value as it is, and player 1 with the other sign.
pub proof fn each_player_sees_a_value_with_their_sign(value: Value)
    ensures
        seen_by(0, value) == value,
        value.bits < 0x8000_0000_0000_0000 ==> seen_by(1, value).bits == value.bits
            + 0x8000_0000_0000_0000,
        value.bits >= 0x8000_0000_0000_0000 ==> seen_by(1, value).bits == value.bits
            - 0x8000_0000_0000_0000,
        seen_by(1, seen_by(1, value)) == value,
{
}

/// What a report with a best line comes to has the whole line, its first move, and
/// its value seen from the side to move. A report without one comes to the first
/// of its ranked moves and that move's value, without a line, and a report without
/// either to nothing.
pub proof fn a_beam_finding_says_what_was_reported(account: BeamAccount, beam_width: usize)
    ensures
        beam_finding(account, beam_width) is None <==> account.ranked.len() == 0 && !(
        account.best_leaf matches Some(leaf) && leaf.0.len() > 0),
        beam_finding(account, beam_width) matches Some(finding) ==> {
            &&& finding.certainty == Certainty::Estimate
            &&& finding.config == "beam_width="@ + decimal(beam_width as nat)
            &&& finding.candidates.len() == account.ranked.len()
            &&& (account.best_leaf matches Some(leaf) && leaf.0.len() > 0) ==> {
                &&& finding.best_move == (account.best_leaf->0).0[0]
                &&& finding.pv.len() == (account.best_leaf->0).0.len()
                &&& forall|i: int|
                    0 <= i < finding.pv.len() ==> #[trigger] finding.pv[i] == (
                    account.best_leaf->0).0[i]
                &&& account.root_player == 0 ==> finding.value == Some(
                    Evaluation::Value((account.best_leaf->0).1),
                )
                &&& account.root_player != 0 ==> (finding.value matches Some(
                    Evaluation::Value(value),
                ) && value.opposite() == (account.best_leaf->0).1)
            }
            &&& !(account.best_leaf matches Some(leaf) && leaf.0.len() > 0) ==> {
                &&& finding.best_move == account.ranked[0].0
                &&& finding.value == Some(Evaluation::Value(account.ranked[0].1))
                &&& finding.pv.len() == 0
            }
        },
{
}

/// The candidates of a report are its ranked moves in their order, each with its
/// own value: a value above one as one, a value below minus one as minus one, and
/// any other as it is.
pub proof fn beam_candidates_are_the_ranked_moves(account: BeamAccount, beam_width: usize, i: int)
    requires
        beam_finding(account, beam_width) is Some,
        0 <= i < account.ranked.len(),
    ensures
        (beam_finding(account, beam_width)->0).candidates[i].mv == account.ranked[i].0,
        (beam_finding(account, beam_width)->0).candidates[i].unit == Unit::Value,
        (beam_finding(account, beam_width)->0).candidates[i].score matches Score::Value(score) && {
            let bits = account.ranked[i].1.bits;
            &&& 0x3ff0_0000_0000_0000 < bits <= 0x7ff0_0000_0000_0000 ==> score.bits
                == 0x3ff0_0000_0000_0000
            &&& 0xbff0_0000_0000_0000 < bits <= 0xfff0_0000_0000_0000 ==> score.bits
                == 0xbff0_0000_0000_0000
            &&& bits <= 0x3ff0_0000_0000_0000 || 0x7ff0_0000_0000_0000 < bits
                <= 0xbff0_0000_0000_0000 || bits > 0xfff0_0000_0000_0000 ==> score.bits == bits
        },
{
    limiting_is_to_one_and_minus_one(account.ranked[i].1);
    assert((beam_finding(account, beam_width)->0).candidates[i] == scored(account.ranked[i]));
}

/// A report is looked at with everything that it holds.
pub proof fn a_beam_report_is_looked_at_whole(report: BeamReport)
    ensures
        report@.root_player == report.root_player,
        report@.ranked == report.ranked@,
        report@.best_leaf is None <==> report.best_leaf is None,
        report.best_leaf matches Some(leaf) ==> report@.best_leaf == Some(
            (leaf.moves@, leaf.value),
        ),
{
}

} // verus!
