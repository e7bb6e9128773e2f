//! The minimax engine.
use std::time::Duration;

use quantik_core::bitboard::Bitboard;
use quantik_core::minimax::{MinimaxConfig, MinimaxEngine};
use quantik_core::state::State;
use vstd::prelude::*;

use crate::board::{
    can_finish, finished, is_legal, legal_moves, own_move, placed, Placement, Position,
};
use crate::error::{unfit, ApiError};
use crate::lemmas::{
    lemma_filter_filter, lemma_filter_filter_none, lemma_filter_members, lemma_filter_pairwise,
    lemma_filter_push, lemma_push_members, pairwise,
};
use crate::line::replays;
use crate::model::{Certainty, Evaluation, Score, SearchConfig, Unit};
use crate::outcome::{Finding, Outcome};
use crate::ranking::{
    best_first, best_first_is_a_stable_sort, descending, not_below, rank_best_first, scored_as,
    sorting_moves_items_only_past_worse_ones, within_one, RankedMove,
};
use crate::settings::{
    a_count_is_used_as_given, a_time_limit_is_used_as_given, count_setting, limit_count, limit_time,
    time_in_range, time_setting,
};
use crate::text::{decimal, decimal_text};
use crate::values::{is_proven, Value, ONE};

verus! {

/// What is asked of the engine.
#[derive(Clone, Copy, Debug)]
pub struct MinimaxParams {
    pub max_depth: u32,
    pub time_limit_ms: Option<u64>,
    pub seed: Option<u64>,
}

impl MinimaxParams {
    /// What the engine accepts.
    pub open spec fn in_range(self) -> bool {
        1 <= self.max_depth <= 16 && time_in_range(self.time_limit_ms)
    }
}

/// What a request asks of the engine: a depth of 6 where it gives none, and from
/// 1 to 16.
pub open spec fn minimax_params_of(input: SearchConfig) -> MinimaxParams {
    MinimaxParams {
        max_depth: count_setting(input.max_depth, 6, 1, 16),
        time_limit_ms: time_setting(input.time_limit_ms),
        seed: input.seed,
    }
}

/// What a request asks of the engine.
pub fn minimax_params(input: &SearchConfig) -> (params: MinimaxParams)
    ensures
        params == minimax_params_of(*input),
        params.in_range(),
{
    MinimaxParams {
        max_depth: limit_count(input.max_depth, 6, 1, 16),
        time_limit_ms: limit_time(input.time_limit_ms),
        seed: input.seed,
    }
}

/// The values that the engine gives to the position and to the moves that it
/// compared, seen from the side to move.
#[derive(Clone, Debug)]
pub struct RootValues {
    pub value: Value,
    pub moves: Vec<(Placement, Option<Value>)>,
}

/// What the engine reports.
#[derive(Clone, Debug)]
pub struct MinimaxReport {
    pub best_move: Placement,
    pub depth_reached: u32,
    pub pv: Vec<Placement>,
    pub root: Option<RootValues>,
}

/// A report with its lists as sequences.
pub struct MinimaxAccount {
    pub best_move: Placement,
    pub depth_reached: u32,
    pub pv: Seq<Placement>,
    pub root: Option<(Value, Seq<(Placement, Option<Value>)>)>,
}

impl View for MinimaxReport {
    type V = MinimaxAccount;

    open spec fn view(&self) -> MinimaxAccount {
        MinimaxAccount {
            best_move: self.best_move,
            depth_reached: self.depth_reached,
            pv: self.pv@,
            root: match self.root {
                Some(root) => Some((root.value, root.moves@)),
                None => None,
            },
        }
    }
}

/// Whether a run of the engine can end with this report. Which of them a run
/// ends with may rest on the clock and on the machine.
pub uninterp spec fn minimax_can_report(
    planes: Seq<u16>,
    params: MinimaxParams,
    account: MinimaxAccount,
) -> bool;

/// What holds of every report: the chosen move is legal and heads the line that
/// the engine expects, which can be played; the depth lies between one and what
/// was asked, and is what was asked where no time limit was set; and the moves
/// compared are legal, each with a value that is not above the value of the
/// position, the chosen one among them with that value. Where some move ends the
/// game, the chosen one does, and the value is one. All values lie between minus
/// one and one, and they are proven where the depth is 16: a game has no more
/// moves than the board has squares, so such a search looks at finished games
/// only.
pub open spec fn minimax_report_fits(
    planes: Seq<u16>,
    params: MinimaxParams,
    account: MinimaxAccount,
) -> bool {
    &&& is_legal(planes, account.best_move)
    &&& 1 <= account.depth_reached <= params.max_depth
    &&& params.time_limit_ms is None ==> account.depth_reached == params.max_depth
    &&& account.pv.len() > 0 && account.pv[0] == account.best_move && replays(planes, account.pv)
    &&& account.root matches Some(root) && {
        &&& root.0.magnitude() <= ONE
        &&& account.depth_reached >= 16 ==> root.0.proven()
        &&& forall|i: int|
            0 <= i < root.1.len() ==> is_legal(planes, (#[trigger] root.1[i]).0) && (root.1[i].1
                matches Some(value) && value.magnitude() <= ONE && (account.depth_reached >= 16
                ==> value.proven()) && (value.rank() <= root.0.rank() || value.same_number(root.0)))
        &&& can_finish(planes) ==> root.0 == (Value { bits: ONE }) && finished(
            placed(planes, account.best_move),
        )
        &&& exists|i: int|
            0 <= i < root.1.len() && (#[trigger] root.1[i]).0 == account.best_move
        &&& forall|i: int|
            0 <= i < root.1.len() && (#[trigger] root.1[i]).0 == account.best_move ==> (root.1[i].1
                matches Some(value) && value.same_number(root.0))
    }
}

/// Searches a position.
///
/// Calls `MinimaxEngine::new`, `MinimaxEngine::search` and
/// `MinimaxEngine::telemetry` of `quantik_core::minimax`. Trusted: the search
/// fails exactly where the position has no legal move, with the message given
/// here; otherwise it ends with one of the reports that it can give for these
/// arguments, and such a report fits the position. How the seed and the clock
/// bear on the choice among them is left unsaid. The limit is handed over in
/// seconds.
#[verifier::external_body]
fn run_minimax(
    position: &Position,
    max_depth: u32,
    time_limit_ms: Option<u64>,
    random_seed: Option<u64>,
) -> (res: Result<MinimaxReport, String>)
    requires
        (MinimaxParams { max_depth, time_limit_ms, seed: random_seed }).in_range(),
    ensures
        match res {
            Ok(report) => {
                let params = MinimaxParams { max_depth, time_limit_ms, seed: random_seed };
                &&& legal_moves(position@).len() > 0
                &&& minimax_can_report(position@, params, report@)
                &&& minimax_report_fits(position@, params, report@)
            },
            Err(message) => {
                &&& legal_moves(position@).len() == 0
                &&& message@ == "Cannot search from a state with no legal moves."@
            },
        },
{
    let mut engine = MinimaxEngine::new(MinimaxConfig {
        max_depth,
        time_limit_s: time_limit_ms.map(|ms| Duration::from_millis(ms).as_secs_f64()),
        random_seed,
        ..MinimaxConfig::default()
    });
    let found = engine.search(&State::new(Bitboard::new(position.planes)))?;
    let root = engine.telemetry().map(|t| RootValues {
        value: Value::new(t.root_value.to_bits()),
        moves: t.root_moves.iter().map(|r|
            (own_move(&r.mv), r.q_value.map(|q| Value::new(q.to_bits())))).collect(),
    });
    let pv = found.pv.iter().map(own_move).collect();
    Ok(MinimaxReport { best_move: own_move(&found.best_move),
        depth_reached: found.depth_reached, pv, root })
}

/// A move with a value, as a ranked move.
pub open spec fn valued(entry: (Placement, Option<Value>)) -> Option<RankedMove> {
    match entry.1 {
        Some(value) => Some(
            RankedMove { mv: entry.0, score: Score::Value(value), unit: Unit::Value },
        ),
        None => None,
    }
}

/// Whether a ranked move has a proven value.
pub open spec fn has_proven_value(ranked: RankedMove) -> bool {
    ranked.score matches Score::Value(value) && value.proven()
}

/// The value that the report gives to the position.
pub open spec fn headline(account: MinimaxAccount) -> Option<Value> {
    match account.root {
        Some(root) => Some(root.0),
        None => None,
    }
}

/// The moves of the report that have a value, best first.
pub open spec fn valued_moves(account: MinimaxAccount) -> Seq<RankedMove> {
    match account.root {
        Some(root) => best_first(
            root.1.filter_map(|entry: (Placement, Option<Value>)| valued(entry)),
        ),
        None => Seq::empty(),
    }
}

/// Whether the search was to the end of the game.
pub open spec fn solved(account: MinimaxAccount, max_depth: u32) -> bool {
    account.depth_reached >= 16 && max_depth >= 16
}

/// Whether the value of the position is proven: by a search to the end of the
/// game, or by itself.
pub open spec fn headline_proven(account: MinimaxAccount, max_depth: u32) -> bool {
    solved(account, max_depth) || (headline(account) matches Some(value) && value.proven())
}

/// What a report comes to. It is a proof exactly where the value of the position
/// is proven. A proof that is not a search to the end of the game leaves out
/// the moves whose values are estimates.
pub open spec fn minimax_finding(account: MinimaxAccount, max_depth: u32) -> Finding {
    Finding {
        best_move: account.best_move,
        value: match headline(account) {
            Some(value) => Some(Evaluation::Value(value)),
            None => None,
        },
        certainty: if headline_proven(account, max_depth) {
            Certainty::Proof
        } else {
            Certainty::Estimate
        },
        candidates: if headline_proven(account, max_depth) && !solved(account, max_depth) {
            valued_moves(account).filter(|ranked: RankedMove| has_proven_value(ranked))
        } else {
            valued_moves(account)
        },
        pv: account.pv,
        config: "depth="@ + decimal(max_depth as nat),
    }
}

fn valued_ranked(moves: &Vec<(Placement, Option<Value>)>) -> (res: Vec<RankedMove>)
    ensures
        res@ == moves@.filter_map(|entry: (Placement, Option<Value>)| valued(entry)),
{
    let ghost f = |entry: (Placement, Option<Value>)| valued(entry);
    let mut res: Vec<RankedMove> = Vec::new();
    let mut i: usize = 0;
    while i < moves.len()
        invariant
            i <= moves@.len(),
            f == (|entry: (Placement, Option<Value>)| valued(entry)),
            res@ == moves@.take(i as int).filter_map(f),
        decreases moves@.len() - i,
    {
        let (mv, value) = moves[i];
        proof {
            assert(moves@.take(i + 1).drop_last() =~= moves@.take(i as int));
            reveal(Seq::filter_map);
        }
        if let Some(value) = value {
            res.push(RankedMove { mv, score: Score::Value(value), unit: Unit::Value });
        }
        i += 1;
    }
    assert(moves@.take(moves@.len() as int) =~= moves@);
    res
}

fn proven_only(ranked: &Vec<RankedMove>) -> (res: Vec<RankedMove>)
    ensures
        res@ == ranked@.filter(|r: RankedMove| has_proven_value(r)),
{
    let ghost pred = |r: RankedMove| has_proven_value(r);
    let mut res: Vec<RankedMove> = Vec::new();
    let mut i: usize = 0;
    proof {
        reveal(Seq::filter);
    }
    while i < ranked.len()
        invariant
            i <= ranked@.len(),
            pred == (|r: RankedMove| has_proven_value(r)),
            res@ == ranked@.take(i as int).filter(pred),
        decreases ranked@.len() - i,
    {
        let entry = ranked[i];
        proof {
            assert(ranked@.take(i + 1) =~= ranked@.take(i as int).push(entry));
            lemma_filter_push(ranked@.take(i as int), pred, entry);
        }
        let keep = match entry.score {
            Score::Value(value) => is_proven(value),
            Score::Count(_) => false,
        };
        if keep {
            res.push(entry);
        }
        i += 1;
    }
    assert(ranked@.take(ranked@.len() as int) =~= ranked@);
    res
}

/// Reads a report of the engine.
pub fn minimax_outcome(report: MinimaxReport, max_depth: u32) -> (outcome: Outcome)
    ensures
        outcome@ == minimax_finding(report@, max_depth),
        outcome.best_move == report.best_move,
        outcome.pv@ == report.pv@,
        report.root matches Some(root) ==> outcome.value == Some(Evaluation::Value(root.value)),
        report.root is None ==> outcome.value is None && outcome.candidates@.len() == 0,
{
    let (value, ranked) = match &report.root {
        Some(root) => (Some(root.value), rank_best_first(&valued_ranked(&root.moves))),
        None => (None, Vec::new()),
    };
    let solved = report.depth_reached >= 16 && max_depth >= 16;
    let headline_proven = solved || match value {
        Some(value) => is_proven(value),
        None => false,
    };
    let candidates = if headline_proven && !solved {
        proven_only(&ranked)
    } else {
        ranked
    };
    Outcome {
        best_move: report.best_move,
        value: match value {
            Some(value) => Some(Evaluation::Value(value)),
            None => None,
        },
        certainty: if headline_proven {
            Certainty::Proof
        } else {
            Certainty::Estimate
        },
        candidates,
        pv: report.pv,
        config: "depth=".to_owned().concat(decimal_text(max_depth as u64).as_str()),
    }
}

/// What the engine can come to on a position.
pub open spec fn minimax_can_find(planes: Seq<u16>, input: SearchConfig, finding: Finding) -> bool {
    exists|account: MinimaxAccount|
        {
            &&& #[trigger] minimax_can_report(planes, minimax_params_of(input), account)
            &&& minimax_report_fits(planes, minimax_params_of(input), account)
            &&& finding == minimax_finding(account, minimax_params_of(input).max_depth)
        }
}

/// Runs the engine on a position.
pub fn search_minimax(position: &Position, input: &SearchConfig) -> (res: Result<Outcome, ApiError>)
    ensures
        match res {
            Ok(outcome) => legal_moves(position@).len() > 0 && minimax_can_find(
                position@,
                *input,
                outcome@,
            ),
            Err(error) => legal_moves(position@).len() == 0 && error@ == unfit(
                "Cannot search from a state with no legal moves."@,
            ),
        },
{
    let params = minimax_params(input);
    match run_minimax(position, params.max_depth, params.time_limit_ms, params.seed) {
        Ok(report) => Ok(minimax_outcome(report, params.max_depth)),
        Err(message) => Err(ApiError::unprocessable(message)),
    }
}

proof fn lemma_valued_members(moves: Seq<(Placement, Option<Value>)>, ranked: RankedMove)
    ensures
        moves.filter_map(|entry: (Placement, Option<Value>)| valued(entry)).contains(ranked)
            <==> exists|i: int| 0 <= i < moves.len() && valued(#[trigger] moves[i]) == Some(ranked),
    decreases moves.len(),
{
    reveal(Seq::filter_map);
    let f = |entry: (Placement, Option<Value>)| valued(entry);
    if moves.len() > 0 {
        let front = moves.drop_last();
        let last = moves.last();
        let kept = front.filter_map(f);
        lemma_valued_members(front, ranked);
        match valued(last) {
            Some(item) => {
                assert(moves.filter_map(f) =~= kept.push(item));
                lemma_push_members(kept, item, ranked);
            },
            None => {},
        }
        if exists|i: int| 0 <= i < front.len() && valued(#[trigger] front[i]) == Some(ranked) {
            let i = choose|i: int|
                0 <= i < front.len() && valued(#[trigger] front[i]) == Some(ranked);
            assert(valued(moves[i]) == Some(ranked));
        }
        if valued(last) == Some(ranked) {
            assert(valued(moves[moves.len() - 1]) == Some(ranked));
        }
        if exists|i: int| 0 <= i < moves.len() && valued(#[trigger] moves[i]) == Some(ranked) {
            let i = choose|i: int|
                0 <= i < moves.len() && valued(#[trigger] moves[i]) == Some(ranked);
            if i < front.len() {
                assert(valued(front[i]) == Some(ranked));
            }
        }
    }
}

/// Whatever the engine comes to, its move and its candidates are legal, the move
/// is among the candidates, which are scored by value and come best first, and it
/// has a line that starts with the move and can be played. All values lie between
/// minus one and one, and the move has the value of the position, which no
/// candidate exceeds. Where some move ends the game, this one does, and its value
/// is one.
pub proof fn a_minimax_finding_is_usable(planes: Seq<u16>, input: SearchConfig, finding: Finding)
    requires
        minimax_can_find(planes, input, finding),
    ensures
        is_legal(planes, finding.best_move),
        finding.value matches Some(Evaluation::Value(value)) && value.magnitude() <= ONE,
        descending(finding.candidates),
        finding.pv.len() > 0 && finding.pv[0] == finding.best_move && replays(planes, finding.pv),
        forall|i: int|
            0 <= i < finding.candidates.len() ==> is_legal(
                planes,
                (#[trigger] finding.candidates[i]).mv,
            ) && finding.candidates[i].unit == Unit::Value && finding.candidates[i].score is Value
                && within_one(finding.candidates[i].score),
        exists|i: int|
            0 <= i < finding.candidates.len() && (#[trigger] finding.candidates[i]).mv
                == finding.best_move,
        forall|i: int|
            0 <= i < finding.candidates.len() && (#[trigger] finding.candidates[i]).mv
                == finding.best_move ==> scored_as(finding.candidates[i].score, finding.value),
        forall|i: int, j: int|
            0 <= i < finding.candidates.len() && 0 <= j < finding.candidates.len() && (
            #[trigger] finding.candidates[i]).mv == finding.best_move ==> not_below(
                finding.candidates[i].score,
                (#[trigger] finding.candidates[j]).score,
            ),
        can_finish(planes) ==> finding.value == Some(Evaluation::Value(Value { bits: ONE }))
            && finished(placed(planes, finding.best_move)),
{
    let params = minimax_params_of(input);
    let account = choose|account: MinimaxAccount|
        {
            &&& #[trigger] minimax_can_report(planes, params, account)
            &&& minimax_report_fits(planes, params, account)
            &&& finding == minimax_finding(account, params.max_depth)
        };
    let root = account.root->0;
    let moves = root.1;
    let list = moves.filter_map(|entry: (Placement, Option<Value>)| valued(entry));
    let sorted = best_first(list);
    let pred = |ranked: RankedMove| has_proven_value(ranked);
    best_first_is_a_stable_sort(list);
    lemma_filter_members(sorted, pred);
    let before = |a: RankedMove, b: RankedMove| a.score.rank() >= b.score.rank();
    assert(pairwise(sorted, before));
    lemma_filter_pairwise(sorted, pred, before);
    assert forall|i: int, j: int| 0 <= i < j < finding.candidates.len() implies (
    #[trigger] finding.candidates[i]).score.rank() >= (
    #[trigger] finding.candidates[j]).score.rank() by {
        assert(before(finding.candidates[i], finding.candidates[j]));
    }
    assert(valued_moves(account) == sorted);
    assert forall|i: int| 0 <= i < finding.candidates.len() implies is_legal(
        planes,
        (#[trigger] finding.candidates[i]).mv,
    ) && finding.candidates[i].unit == Unit::Value && within_one(finding.candidates[i].score) && (
    finding.candidates[i].mv == finding.best_move ==> scored_as(
        finding.candidates[i].score,
        finding.value,
    )) && finding.candidates[i].score is Value && not_below(
        Score::Value(root.0),
        finding.candidates[i].score,
    ) by {
        let item = finding.candidates[i];
        assert(finding.candidates.contains(item));
        assert(sorted.contains(item));
        lemma_valued_members(moves, item);
        let k = choose|k: int| 0 <= k < moves.len() && valued(#[trigger] moves[k]) == Some(item);
        assert(is_legal(planes, moves[k].0));
    }
    let k = choose|k: int|
        0 <= k < moves.len() && (#[trigger] moves[k]).0 == account.best_move;
    let item = valued(moves[k])->0;
    lemma_valued_members(moves, item);
    assert(valued(moves[k]) == Some(item));
    assert(sorted.contains(item));
    if headline_proven(account, params.max_depth) && !solved(account, params.max_depth) {
        assert(pred(item));
    }
    assert(finding.candidates.contains(item));
    let i = choose|i: int| 0 <= i < finding.candidates.len() && finding.candidates[i] == item;
    assert(finding.candidates[i].mv == finding.best_move);
}

/// A finding is a proof exactly where the search was to the end of the game or
/// the value of the position is proven by itself. Short of the end of the game
/// a proof holds proven numbers only, and an estimate never has a proven value.
/// A search below depth 16 never counts as one to the end of the game.
pub proof fn a_proof_holds_only_proven_numbers(account: MinimaxAccount, max_depth: u32)
    ensures
        minimax_finding(account, max_depth).certainty == Certainty::Proof <==> headline_proven(
            account,
            max_depth,
        ),
        minimax_finding(account, max_depth).certainty == Certainty::Proof && !solved(
            account,
            max_depth,
        ) ==> {
            let finding = minimax_finding(account, max_depth);
            &&& finding.value matches Some(Evaluation::Value(value)) && value.proven()
            &&& forall|i: int|
                0 <= i < finding.candidates.len() ==> has_proven_value(
                    #[trigger] finding.candidates[i],
                )
        },
        minimax_finding(account, max_depth).certainty == Certainty::Estimate ==> !(minimax_finding(
            account,
            max_depth,
        ).value matches Some(Evaluation::Value(value)) && value.proven()),
        max_depth < 16 ==> !solved(account, max_depth),
{
    let finding = minimax_finding(account, max_depth);
    let pred = |ranked: RankedMove| has_proven_value(ranked);
    lemma_filter_members(valued_moves(account), pred);
    if headline_proven(account, max_depth) && !solved(account, max_depth) {
        assert forall|i: int| 0 <= i < finding.candidates.len() implies has_proven_value(
            #[trigger] finding.candidates[i],
        ) by {
            assert(finding.candidates.contains(finding.candidates[i]));
            assert(pred(finding.candidates[i]));
        }
    }
}

/// What the engine comes to is a proof exactly where the value of the position is
/// proven, and then every candidate is proven too. A search to the end of the
/// game that nothing cuts short is always a proof.
pub proof fn a_minimax_proof_is_proven_throughout(
    planes: Seq<u16>,
    input: SearchConfig,
    finding: Finding,
)
    requires
        minimax_can_find(planes, input, finding),
    ensures
        finding.certainty == Certainty::Proof <==> (finding.value matches Some(
            Evaluation::Value(value),
        ) && value.proven()),
        finding.certainty == Certainty::Proof ==> forall|i: int|
            0 <= i < finding.candidates.len() ==> has_proven_value(
                #[trigger] finding.candidates[i],
            ),
        minimax_params_of(input).max_depth == 16 && input.time_limit_ms is None
            ==> finding.certainty == Certainty::Proof,
{
    let params = minimax_params_of(input);
    let account = choose|account: MinimaxAccount|
        {
            &&& #[trigger] minimax_can_report(planes, params, account)
            &&& minimax_report_fits(planes, params, account)
            &&& finding == minimax_finding(account, params.max_depth)
        };
    a_proof_holds_only_proven_numbers(account, params.max_depth);
    if solved(account, params.max_depth) {
        let moves = (account.root->0).1;
        let list = moves.filter_map(|entry: (Placement, Option<Value>)| valued(entry));
        best_first_is_a_stable_sort(list);
        assert forall|i: int| 0 <= i < finding.candidates.len() implies has_proven_value(
            #[trigger] finding.candidates[i],
        ) by {
            let item = finding.candidates[i];
            assert(best_first(list).contains(item));
            lemma_valued_members(moves, item);
            let k = choose|k: int|
                0 <= k < moves.len() && valued(#[trigger] moves[k]) == Some(item);
            assert(is_legal(planes, moves[k].0));
        }
    }
}

/// What a request asks of the engine reaches it: a depth from 1 to 16, a time limit
/// from 1 to 300000 milliseconds and any seed as they are given, and what lies
/// outside as the limit that it passes. Without them the depth is 6, and there is
/// no time limit and no seed.
pub proof fn what_is_asked_of_minimax_reaches_it(input: SearchConfig)
    ensures
        input.max_depth is None ==> minimax_params_of(input).max_depth == 6,
        input.max_depth matches Some(n) ==> {
            &&& 1 <= n <= 16 ==> minimax_params_of(input).max_depth == n
            &&& n < 1 ==> minimax_params_of(input).max_depth == 1
            &&& n > 16 ==> minimax_params_of(input).max_depth == 16
        },
        input.time_limit_ms is None ==> minimax_params_of(input).time_limit_ms is None,
        input.time_limit_ms matches Some(ms) ==> {
            &&& 1 <= ms <= 300_000 ==> minimax_params_of(input).time_limit_ms == Some(ms)
            &&& ms < 1 ==> minimax_params_of(input).time_limit_ms == Some(1u64)
            &&& ms > 300_000 ==> minimax_params_of(input).time_limit_ms == Some(300_000u64)
        },
        minimax_params_of(input).seed == input.seed,
{
    a_count_is_used_as_given(input.max_depth, 6, 1, 16);
    a_time_limit_is_used_as_given(input.time_limit_ms);
}

/// The moves of one value, before and after the entries without a value are left
/// out.
proof fn lemma_valued_filter(moves: Seq<(Placement, Option<Value>)>, value: Value)
    ensures
        moves.filter_map(|entry: (Placement, Option<Value>)| valued(entry)).filter(
            |item: RankedMove| item.score == Score::Value(value),
        ).map_values(|item: RankedMove| item.mv) == moves.filter(
            |entry: (Placement, Option<Value>)| entry.1 == Some(value),
        ).map_values(|entry: (Placement, Option<Value>)| entry.0),
    decreases moves.len(),
{
    reveal(Seq::filter_map);
    reveal(Seq::filter);
    let f = |entry: (Placement, Option<Value>)| valued(entry);
    let image = |item: RankedMove| item.score == Score::Value(value);
    let read = |item: RankedMove| item.mv;
    let item = |entry: (Placement, Option<Value>)| entry.1 == Some(value);
    let direct = |entry: (Placement, Option<Value>)| entry.0;
    if moves.len() > 0 {
        let front = moves.drop_last();
        let last = moves.last();
        lemma_valued_filter(front, value);
        assert(front.push(last) =~= moves);
        lemma_filter_push(front, item, last);
        let kept = front.filter_map(f);
        let picked = front.filter(item);
        match valued(last) {
            Some(ranked) => {
                assert(moves.filter_map(f) =~= kept.push(ranked));
                lemma_filter_push(kept, image, ranked);
                if item(last) {
                    assert(kept.filter(image).push(ranked).map_values(read) =~= kept.filter(
                        image,
                    ).map_values(read).push(ranked.mv));
                    assert(picked.push(last).map_values(direct) =~= picked.map_values(direct).push(
                        last.0,
                    ));
                }
            },
            None => {
                assert(moves.filter_map(f) =~= kept);
            },
        }
    } else {
        assert(moves.filter_map(f) =~= Seq::<RankedMove>::empty());
        assert(moves.filter_map(f).filter(image).map_values(read) =~= moves.filter(
            item,
        ).map_values(direct));
    }
}

/// What a report comes to has the move, the line and the value of the report as
/// they are. It is a proof exactly where the search went to the end of the game
/// or that value is one or minus one. For each value it has the moves to which the
/// report gives that value, in their order, greater values before smaller ones;
/// only a proof short of the end of the game leaves out the values that are
/// neither one nor minus one.
pub proof fn a_minimax_finding_says_what_was_reported(
    account: MinimaxAccount,
    max_depth: u32,
    value: Value,
)
    ensures
        minimax_finding(account, max_depth).best_move == account.best_move,
        minimax_finding(account, max_depth).pv == account.pv,
        minimax_finding(account, max_depth).config == "depth="@ + decimal(max_depth as nat),
        account.root matches Some(root) ==> minimax_finding(account, max_depth).value == Some(
            Evaluation::Value(root.0),
        ),
        account.root is None ==> minimax_finding(account, max_depth).value is None
            && minimax_finding(account, max_depth).candidates.len() == 0,
        minimax_finding(account, max_depth).certainty == Certainty::Proof <==> (
        account.depth_reached >= 16 && max_depth >= 16) || (account.root matches Some(root) && (
        root.0.bits == 0x3ff0_0000_0000_0000 || root.0.bits == 0xbff0_0000_0000_0000)),
        forall|i: int|
            0 <= i < minimax_finding(account, max_depth).candidates.len() ==> (
            #[trigger] minimax_finding(account, max_depth).candidates[i]).unit == Unit::Value
                && minimax_finding(account, max_depth).candidates[i].score is Value,
        forall|i: int, j: int|
            0 <= i < j < minimax_finding(account, max_depth).candidates.len() ==> ((
            #[trigger] minimax_finding(
                account,
                max_depth,
            ).candidates[i]).score matches Score::Value(a) && (#[trigger] minimax_finding(
                account,
                max_depth,
            ).candidates[j]).score matches Score::Value(b) && a.rank() >= b.rank()),
        account.root matches Some(root) ==> minimax_finding(account, max_depth).candidates.filter(
            |item: RankedMove| item.score == Score::Value(value),
        ).map_values(|item: RankedMove| item.mv) == if !(account.depth_reached >= 16 && max_depth
            >= 16) && (root.0.bits == 0x3ff0_0000_0000_0000 || root.0.bits
            == 0xbff0_0000_0000_0000) && !(value.bits == 0x3ff0_0000_0000_0000 || value.bits
            == 0xbff0_0000_0000_0000) {
            Seq::<Placement>::empty()
        } else {
            root.1.filter(
                |entry: (Placement, Option<Value>)| entry.1 == Some(value),
            ).map_values(|entry: (Placement, Option<Value>)| entry.0)
        },
{
    let finding = minimax_finding(account, max_depth);
    if account.root is Some {
        let root = account.root->0;
        let moves = root.1;
        let list = moves.filter_map(|entry: (Placement, Option<Value>)| valued(entry));
        let sorted = best_first(list);
        let score = Score::Value(value);
        let pred = |ranked: RankedMove| has_proven_value(ranked);
        let image = |item: RankedMove| item.score == Score::Value(value);
        sorting_moves_items_only_past_worse_ones(list, score);
        lemma_valued_filter(moves, value);
        lemma_filter_members(sorted, pred);
        let before = |a: RankedMove, b: RankedMove| a.score.rank() >= b.score.rank();
        assert(pairwise(sorted, before));
        lemma_filter_pairwise(sorted, pred, before);
        assert(sorted.filter(image) == list.filter(image));
        if value.proven() {
            lemma_filter_filter(sorted, pred, image);
        } else {
            lemma_filter_filter_none(sorted, pred, image);
        }
        assert forall|i: int| 0 <= i < finding.candidates.len() implies (
        #[trigger] finding.candidates[i]).unit == Unit::Value
            && finding.candidates[i].score is Value by {
            let item = finding.candidates[i];
            assert(finding.candidates.contains(item));
            assert(sorted.contains(item));
            lemma_valued_members(moves, item);
        }
        assert forall|i: int, j: int| 0 <= i < j < finding.candidates.len() implies ((
        #[trigger] finding.candidates[i]).score matches Score::Value(a) && (
        #[trigger] finding.candidates[j]).score matches Score::Value(b) && a.rank()
            >= b.rank()) by {
            assert(before(finding.candidates[i], finding.candidates[j]));
        }
        assert(Seq::<RankedMove>::empty().map_values(|item: RankedMove| item.mv) =~= Seq::<
            Placement,
        >::empty());
    }
}

/// The candidates are the compared moves with their own values: each candidate is
/// one, and each one that has a value is a candidate, except that a proof short of
/// the end of the game leaves out values that are neither one nor minus one.
pub proof fn minimax_candidates_are_the_compared_moves(account: MinimaxAccount, max_depth: u32)
    requires
        account.root is Some,
    ensures
        forall|item: RankedMove| #[trigger]
            minimax_finding(account, max_depth).candidates.contains(item) ==> exists|k: int|
                0 <= k < (account.root->0).1.len() && (#[trigger] (account.root->0).1[k]).0
                    == item.mv && ((account.root->0).1[k].1 matches Some(value) && item.score
                    == Score::Value(value)),
        forall|k: int|
            0 <= k < (account.root->0).1.len() && ((
            #[trigger] (account.root->0).1[k]).1 matches Some(value) && (minimax_finding(
                account,
                max_depth,
            ).certainty == Certainty::Estimate || value.bits == 0x3ff0_0000_0000_0000 || value.bits
                == 0xbff0_0000_0000_0000)) ==> minimax_finding(
                account,
                max_depth,
            ).candidates.contains(
                (RankedMove {
                    mv: (account.root->0).1[k].0,
                    score: Score::Value((account.root->0).1[k].1->0),
                    unit: Unit::Value,
                }),
            ),
{
    let finding = minimax_finding(account, max_depth);
    let moves = (account.root->0).1;
    let list = moves.filter_map(|entry: (Placement, Option<Value>)| valued(entry));
    let sorted = best_first(list);
    let pred = |ranked: RankedMove| has_proven_value(ranked);
    best_first_is_a_stable_sort(list);
    lemma_filter_members(sorted, pred);
    assert(valued_moves(account) == sorted);
    assert forall|item: RankedMove| #[trigger] finding.candidates.contains(item) implies exists|
        k: int,
    |
        0 <= k < moves.len() && (#[trigger] moves[k]).0 == item.mv && (moves[k].1 matches Some(
            value,
        ) && item.score == Score::Value(value)) by {
        assert(sorted.contains(item));
        lemma_valued_members(moves, item);
        let k = choose|k: int| 0 <= k < moves.len() && valued(#[trigger] moves[k]) == Some(item);
        assert(moves[k].0 == item.mv);
    }
    assert forall|k: int|
        0 <= k < moves.len() && ((#[trigger] moves[k]).1 matches Some(value) && (finding.certainty
            == Certainty::Estimate || value.bits == 0x3ff0_0000_0000_0000 || value.bits
            == 0xbff0_0000_0000_0000)) implies finding.candidates.contains(
        (RankedMove { mv: moves[k].0, score: Score::Value(moves[k].1->0), unit: Unit::Value }),
    ) by {
        let item = RankedMove {
            mv: moves[k].0,
            score: Score::Value(moves[k].1->0),
            unit: Unit::Value,
        };
        assert(valued(moves[k]) == Some(item));
        lemma_valued_members(moves, item);
        assert(sorted.contains(item));
        if finding.certainty == Certainty::Proof {
            assert(pred(item));
        }
    }
}

/// A report is looked at with everything that it holds.
pub proof fn a_minimax_report_is_looked_at_whole(report: MinimaxReport)
    ensures
        report@.best_move == report.best_move,
        report@.depth_reached == report.depth_reached,
        report@.pv == report.pv@,
        report@.root is None <==> report.root is None,
        report.root matches Some(root) ==> report@.root == Some((root.value, root.moves@)),
{
}

} // verus!
