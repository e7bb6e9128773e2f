//! The Monte Carlo tree search engine.
use std::time::Duration;

use quantik_core::bitboard::Bitboard;
use quantik_core::mcts::{MCTSConfig, MCTSEngine};
use vstd::prelude::*;

use crate::board::{is_legal, legal_moves, own_move, won, Placement, Position};
use crate::error::{unfit, ApiError};
use crate::lemmas::lemma_filter_mapped;
use crate::model::{Certainty, Evaluation, Score, SearchConfig, Unit};
use crate::outcome::{Finding, Outcome};
use crate::ranking::{
    best_first, best_first_is_a_stable_sort, descending, not_below, rank_best_first,
    sorting_moves_items_only_past_worse_ones, RankedMove,
};
use crate::settings::{
    a_count_is_used_as_given, a_time_limit_is_used_as_given, count_setting, limit_count, limit_time,
    time_in_range, time_setting,
};
use crate::text::{decimal, decimal_text};
use crate::values::{Value, ONE};

verus! {

/// What is asked of the engine.
#[derive(Clone, Copy, Debug)]
pub struct MctsParams {
    pub max_iterations: u32,
    pub max_depth: u32,
    pub time_limit_ms: Option<u64>,
    pub seed: Option<u64>,
}

impl MctsParams {
    /// What the engine accepts.
    pub open spec fn in_range(self) -> bool {
        &&& 1 <= self.max_iterations <= 1_000_000
        &&& 1 <= self.max_depth <= 16
        &&& time_in_range(self.time_limit_ms)
    }
}

/// What a request asks of the engine: 1500 iterations where it gives none, from
/// 1 to a million, and a depth of 16 where it gives none, from 1 to 16.
pub open spec fn mcts_params_of(input: SearchConfig) -> MctsParams {
    MctsParams {
        max_iterations: count_setting(input.iterations, 1_500, 1, 1_000_000),
        max_depth: count_setting(input.max_depth, 16, 1, 16),
        time_limit_ms: time_setting(input.time_limit_ms),
        seed: input.seed,
    }
}

/// What a request asks of the engine.
pub fn mcts_params(input: &SearchConfig) -> (params: MctsParams)
    ensures
        params == mcts_params_of(*input),
        params.in_range(),
{
    MctsParams {
        max_iterations: limit_count(input.iterations, 1_500, 1, 1_000_000),
        max_depth: limit_count(input.max_depth, 16, 1, 16),
        time_limit_ms: limit_time(input.time_limit_ms),
        seed: input.seed,
    }
}

/// What the engine reports: its move, the probability that the side to move wins
/// with it, and how often it visited each move that it tried.
#[derive(Clone, Debug)]
pub struct MctsReport {
    pub best_move: Placement,
    pub win_probability: Value,
    pub visits: Vec<(Placement, u32)>,
}

/// A report with its list as a sequence.
pub struct MctsAccount {
    pub best_move: Placement,
    pub win_probability: Value,
    pub visits: Seq<(Placement, u32)>,
}

impl View for MctsReport {
    type V = MctsAccount;

    open spec fn view(&self) -> MctsAccount {
        MctsAccount {
            best_move: self.best_move,
            win_probability: self.win_probability,
            visits: self.visits@,
        }
    }
}

/// Whether a run of the engine can end with this report. Which of them a run
/// ends with may rest on chance, on the clock and on the machine.
pub uninterp spec fn mcts_can_report(
    planes: Seq<u16>,
    params: MctsParams,
    account: MctsAccount,
) -> bool;

/// What holds of every report: the chosen move is legal and among the moves
/// visited, which are legal, none of them was visited more often, and the
/// probability lies between zero and one.
pub open spec fn mcts_report_fits(planes: Seq<u16>, account: MctsAccount) -> bool {
    &&& is_legal(planes, account.best_move)
    &&& !account.win_probability.negative() && account.win_probability.magnitude() <= ONE
    &&& forall|i: int|
        0 <= i < account.visits.len() ==> is_legal(planes, (#[trigger] account.visits[i]).0)
    &&& exists|i: int|
        0 <= i < account.visits.len() && (#[trigger] account.visits[i]).0 == account.best_move
    &&& forall|i: int, j: int|
        0 <= i < account.visits.len() && 0 <= j < account.visits.len() && (
        #[trigger] account.visits[i]).0 == account.best_move ==> (#[trigger] account.visits[j]).1
            <= account.visits[i].1
}

/// Searches a position.
///
/// Calls `MCTSEngine::new`, `MCTSEngine::search` and
/// `MCTSEngine::root_move_visits` of `quantik_core::mcts`. Trusted: the search
/// finds no move exactly where the position has no legal move or a line that
/// carries all four shapes; otherwise it ends with one of the reports that it
/// can give for these arguments, and such a report fits the position. How the
/// seed, chance and the clock bear on the choice among them is left unsaid. The
/// limit is handed over in seconds.
#[verifier::external_body]
fn run_mcts(position: &Position, params: &MctsParams) -> (res: Option<MctsReport>)
    requires
        params.in_range(),
    ensures
        match res {
            Some(report) => {
                &&& legal_moves(position@).len() > 0 && !won(position@)
                &&& mcts_can_report(position@, *params, report@)
                &&& mcts_report_fits(position@, report@)
            },
            None => legal_moves(position@).len() == 0 || won(position@),
        },
{
    let mut engine = MCTSEngine::new(MCTSConfig {
        max_iterations: params.max_iterations,
        max_depth: params.max_depth,
        time_limit_s: params.time_limit_ms.map(|ms| Duration::from_millis(ms).as_secs_f64()),
        seed: params.seed,
        ..MCTSConfig::default()
    });
    let (best, probability) = engine.search(&Bitboard::new(position.planes))?;
    let visits = engine.root_move_visits().iter().map(|(m, n)| (own_move(m), *n)).collect();
    let win_probability = Value::new(probability.to_bits());
    Some(MctsReport { best_move: own_move(&best), win_probability, visits })
}

/// A visited move, as a ranked move.
pub open spec fn counted(entry: (Placement, u32)) -> RankedMove {
    RankedMove { mv: entry.0, score: Score::Count(entry.1 as u64), unit: Unit::Visits }
}

/// What a report comes to. It is always an estimate, and it has no line.
pub open spec fn mcts_finding(account: MctsAccount, iterations: u32) -> Finding {
    Finding {
        best_move: account.best_move,
        value: Some(Evaluation::WinProbability(account.win_probability)),
        certainty: Certainty::Estimate,
        candidates: best_first(account.visits.map_values(|entry: (Placement, u32)| counted(entry))),
        pv: Seq::empty(),
        config: "iterations="@ + decimal(iterations as nat),
    }
}

fn counted_ranked(visits: &Vec<(Placement, u32)>) -> (res: Vec<RankedMove>)
    ensures
        res@ == visits@.map_values(|entry: (Placement, u32)| counted(entry)),
{
    let mut res: Vec<RankedMove> = Vec::new();
    let mut i: usize = 0;
    while i < visits.len()
        invariant
            i <= visits@.len(),
            res@.len() == i,
            forall|j: int| 0 <= j < i ==> #[trigger] res@[j] == counted(visits@[j]),
        decreases visits@.len() - i,
    {
        let (mv, count) = visits[i];
        res.push(RankedMove { mv, score: Score::Count(count as u64), unit: Unit::Visits });
        i += 1;
    }
    assert(res@ =~= visits@.map_values(|entry: (Placement, u32)| counted(entry)));
    res
}

/// Reads a report of the engine.
pub fn mcts_outcome(report: MctsReport, iterations: u32) -> (outcome: Outcome)
    ensures
        outcome@ == mcts_finding(report@, iterations),
        outcome.best_move == report.best_move,
        outcome.value == Some(Evaluation::WinProbability(report.win_probability)),
        outcome.certainty == Certainty::Estimate,
        outcome.candidates@.len() == report.visits@.len(),
        outcome.pv@.len() == 0,
{
    let outcome = Outcome {
        best_move: report.best_move,
        value: Some(Evaluation::WinProbability(report.win_probability)),
        certainty: Certainty::Estimate,
        candidates: rank_best_first(&counted_ranked(&report.visits)),
        pv: Vec::new(),
        config: "iterations=".to_owned().concat(decimal_text(iterations as u64).as_str()),
    };
    proof {
        a_mcts_finding_says_what_was_reported(report@, iterations, 0);
    }
    assert(outcome.pv@ =~= Seq::empty());
    outcome
}

/// What the engine can come to on a position.
pub open spec fn mcts_can_find(planes: Seq<u16>, input: SearchConfig, finding: Finding) -> bool {
    exists|account: MctsAccount|
        {
            &&& #[trigger] mcts_can_report(planes, mcts_params_of(input), account)
            &&& mcts_report_fits(planes, account)
            &&& finding == mcts_finding(account, mcts_params_of(input).max_iterations)
        }
}

/// Runs the engine on a position.
pub fn search_mcts(position: &Position, input: &SearchConfig) -> (res: Result<Outcome, ApiError>)
    ensures
        match res {
            Ok(outcome) => legal_moves(position@).len() > 0 && !won(position@) && mcts_can_find(
                position@,
                *input,
                outcome@,
            ),
            Err(error) => (legal_moves(position@).len() == 0 || won(position@)) && error@ == unfit(
                "MCTS found no move"@,
            ),
        },
{
    let params = mcts_params(input);
    match run_mcts(position, &params) {
        Some(report) => Ok(mcts_outcome(report, params.max_iterations)),
        None => Err(ApiError::unprocessable("MCTS found no move".to_owned())),
    }
}

/// Whatever the engine comes to, it is an estimate without a line, its move and
/// its candidates are legal, and the move is among the candidates, which are
/// scored by visits and come best first, and none of them has more visits than
/// the move. The probability of a win lies between
/// zero and one.
pub proof fn a_mcts_finding_is_usable(planes: Seq<u16>, input: SearchConfig, finding: Finding)
    requires
        mcts_can_find(planes, input, finding),
    ensures
        finding.certainty == Certainty::Estimate,
        is_legal(planes, finding.best_move),
        finding.value matches Some(Evaluation::WinProbability(p)) && !p.negative()
            && p.magnitude() <= ONE,
        descending(finding.candidates),
        finding.pv.len() == 0,
        forall|i: int|
            0 <= i < finding.candidates.len() ==> is_legal(
                planes,
                (#[trigger] finding.candidates[i]).mv,
            ) && finding.candidates[i].unit == Unit::Visits && finding.candidates[i].score is Count,
        exists|i: int|
            0 <= i < finding.candidates.len() && (#[trigger] finding.candidates[i]).mv
                == finding.best_move,
        forall|i: int, j: int|
            0 <= i < finding.candidates.len() && 0 <= j < finding.candidates.len() && (
            #[trigger] finding.candidates[i]).mv == finding.best_move ==> not_below(
                finding.candidates[i].score,
                (#[trigger] finding.candidates[j]).score,
            ),
{
    let account = choose|account: MctsAccount|
        {
            &&& #[trigger] mcts_can_report(planes, mcts_params_of(input), account)
            &&& mcts_report_fits(planes, account)
            &&& finding == mcts_finding(account, mcts_params_of(input).max_iterations)
        };
    let list = account.visits.map_values(|entry: (Placement, u32)| counted(entry));
    best_first_is_a_stable_sort(list);
    assert forall|i: int| 0 <= i < finding.candidates.len() implies is_legal(
        planes,
        (#[trigger] finding.candidates[i]).mv,
    ) && finding.candidates[i].unit == Unit::Visits && finding.candidates[i].score is Count by {
        assert(best_first(list).contains(finding.candidates[i]));
        let k = choose|k: int| 0 <= k < list.len() && list[k] == finding.candidates[i];
        assert(list[k] == counted(account.visits[k]));
    }
    assert forall|i: int, j: int|
        0 <= i < finding.candidates.len() && 0 <= j < finding.candidates.len() && (
        #[trigger] finding.candidates[i]).mv == finding.best_move implies not_below(
        finding.candidates[i].score,
        (#[trigger] finding.candidates[j]).score,
    ) by {
        assert(best_first(list).contains(finding.candidates[i]));
        assert(best_first(list).contains(finding.candidates[j]));
        let k = choose|k: int| 0 <= k < list.len() && list[k] == finding.candidates[i];
        let l = choose|l: int| 0 <= l < list.len() && list[l] == finding.candidates[j];
        assert(list[k] == counted(account.visits[k]) && list[l] == counted(account.visits[l]));
    }
    let k = choose|k: int|
        0 <= k < account.visits.len() && (#[trigger] account.visits[k]).0 == account.best_move;
    assert(list[k] == counted(account.visits[k]));
    assert(list.contains(list[k]));
    assert(best_first(list).contains(list[k]));
    let i = choose|i: int| 0 <= i < best_first(list).len() && best_first(list)[i] == list[k];
    assert(finding.candidates[i].mv == finding.best_move);
}

/// What a request asks of the engine reaches it: iterations from 1 to a million, a
/// depth from 1 to 16, a time limit from 1 to 300000 milliseconds and any seed as
/// they are given, and what lies outside as the limit that it passes. Without
/// them there are 1500 iterations, a depth of 16, no time limit and no seed.
pub proof fn what_is_asked_of_mcts_reaches_it(input: SearchConfig)
    ensures
        input.iterations is None ==> mcts_params_of(input).max_iterations == 1_500,
        input.iterations matches Some(n) ==> {
            &&& 1 <= n <= 1_000_000 ==> mcts_params_of(input).max_iterations == n
            &&& n < 1 ==> mcts_params_of(input).max_iterations == 1
            &&& n > 1_000_000 ==> mcts_params_of(input).max_iterations == 1_000_000
        },
        input.max_depth is None ==> mcts_params_of(input).max_depth == 16,
        input.max_depth matches Some(n) ==> {
            &&& 1 <= n <= 16 ==> mcts_params_of(input).max_depth == n
            &&& n < 1 ==> mcts_params_of(input).max_depth == 1
            &&& n > 16 ==> mcts_params_of(input).max_depth == 16
        },
        input.time_limit_ms is None ==> mcts_params_of(input).time_limit_ms is None,
        input.time_limit_ms matches Some(ms) ==> {
            &&& 1 <= ms <= 300_000 ==> mcts_params_of(input).time_limit_ms == Some(ms)
            &&& ms < 1 ==> mcts_params_of(input).time_limit_ms == Some(1u64)
            &&& ms > 300_000 ==> mcts_params_of(input).time_limit_ms == Some(300_000u64)
        },
        mcts_params_of(input).seed == input.seed,
{
    a_count_is_used_as_given(input.iterations, 1_500, 1, 1_000_000);
    a_count_is_used_as_given(input.max_depth, 16, 1, 16);
    a_time_limit_is_used_as_given(input.time_limit_ms);
}

/// What a report comes to has the move and the probability of the report as they
/// are, is an estimate without a line, and has for each number of visits the
/// moves of the report with that number, in their order, more visits before
/// fewer.
pub proof fn a_mcts_finding_says_what_was_reported(
    account: MctsAccount,
    iterations: u32,
    count: u32,
)
    ensures
        mcts_finding(account, iterations).best_move == account.best_move,
        mcts_finding(account, iterations).value == Some(
            Evaluation::WinProbability(account.win_probability),
        ),
        mcts_finding(account, iterations).certainty == Certainty::Estimate,
        mcts_finding(account, iterations).pv.len() == 0,
        mcts_finding(account, iterations).config == "iterations="@ + decimal(iterations as nat),
        mcts_finding(account, iterations).candidates.len() == account.visits.len(),
        forall|i: int|
            0 <= i < account.visits.len() ==> (#[trigger] mcts_finding(
                account,
                iterations,
            ).candidates[i]).unit == Unit::Visits && mcts_finding(
                account,
                iterations,
            ).candidates[i].score is Count,
        forall|i: int, j: int|
            0 <= i < j < account.visits.len() ==> ((#[trigger] mcts_finding(
                account,
                iterations,
            ).candidates[i]).score matches Score::Count(a) && (#[trigger] mcts_finding(
                account,
                iterations,
            ).candidates[j]).score matches Score::Count(b) && a >= b),
        mcts_finding(account, iterations).candidates.filter(
            |item: RankedMove| item.score == Score::Count(count as u64),
        ).map_values(|item: RankedMove| item.mv) == account.visits.filter(
            |entry: (Placement, u32)| entry.1 == count,
        ).map_values(|entry: (Placement, u32)| entry.0),
{
    let finding = mcts_finding(account, iterations);
    let f = |entry: (Placement, u32)| counted(entry);
    let list = account.visits.map_values(f);
    let score = Score::Count(count as u64);
    sorting_moves_items_only_past_worse_ones(list, score);
    lemma_filter_mapped(
        account.visits,
        f,
        |item: RankedMove| item.score == score,
        |item: RankedMove| item.mv,
        |entry: (Placement, u32)| entry.1 == count,
        |entry: (Placement, u32)| entry.0,
    );
    assert forall|i: int| 0 <= i < finding.candidates.len() implies (
    #[trigger] finding.candidates[i]).unit == Unit::Visits
        && finding.candidates[i].score is Count by {
        assert(best_first(list).contains(finding.candidates[i]));
        let k = choose|k: int| 0 <= k < list.len() && list[k] == finding.candidates[i];
        assert(list[k] == counted(account.visits[k]));
    }
    assert forall|i: int, j: int| 0 <= i < j < finding.candidates.len() implies ((
    #[trigger] finding.candidates[i]).score matches Score::Count(a) && (
    #[trigger] finding.candidates[j]).score matches Score::Count(b) && a >= b) by {
        assert(best_first(list)[i].score.rank() >= best_first(list)[j].score.rank());
    }
    assert(finding.candidates.filter(|item: RankedMove| item.score == Score::Count(count as u64))
        == list.filter(|item: RankedMove| item.score == score));
}

/// The candidates are the visited moves with their own visits: each candidate is
/// one, and each one is a candidate.
pub proof fn mcts_candidates_are_the_visited_moves(account: MctsAccount, iterations: u32)
    ensures
        forall|item: RankedMove| #[trigger]
            mcts_finding(account, iterations).candidates.contains(item) ==> exists|k: int|
                0 <= k < account.visits.len() && (#[trigger] account.visits[k]).0 == item.mv
                    && item.score == Score::Count(account.visits[k].1 as u64),
        forall|k: int|
            0 <= k < account.visits.len() ==> mcts_finding(
                account,
                iterations,
            ).candidates.contains(
                (RankedMove {
                    mv: (#[trigger] account.visits[k]).0,
                    score: Score::Count(account.visits[k].1 as u64),
                    unit: Unit::Visits,
                }),
            ),
{
    let finding = mcts_finding(account, iterations);
    let list = account.visits.map_values(|entry: (Placement, u32)| counted(entry));
    best_first_is_a_stable_sort(list);
    assert forall|item: RankedMove| #[trigger] finding.candidates.contains(item) implies exists|
        k: int,
    |
        0 <= k < account.visits.len() && (#[trigger] account.visits[k]).0 == item.mv && item.score
            == Score::Count(account.visits[k].1 as u64) by {
        assert(list.contains(item));
        let k = choose|k: int| 0 <= k < list.len() && list[k] == item;
        assert(list[k] == counted(account.visits[k]));
    }
    assert forall|k: int| 0 <= k < account.visits.len() implies finding.candidates.contains(
        (RankedMove {
            mv: (#[trigger] account.visits[k]).0,
            score: Score::Count(account.visits[k].1 as u64),
            unit: Unit::Visits,
        }),
    ) by {
        assert(list[k] == counted(account.visits[k]));
        assert(list.contains(list[k]));
    }
}

/// A report is looked at with everything that it holds.
pub proof fn a_mcts_report_is_looked_at_whole(report: MctsReport)
    ensures
        report@.best_move == report.best_move,
        report@.win_probability == report.win_probability,
        report@.visits == report.visits@,
{
}

} // verus!
