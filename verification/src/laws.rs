//! What holds of every request and every answer.
use vstd::prelude::*;

use crate::board::{
    can_finish, can_win, finished, is_legal, is_qfen, legal_moves, mover, placed, qfen_complaint,
    qfen_planes, won, Placement,
};
use crate::board_laws::{action_index_is_a_bijection, legal_moves_are_the_legal_moves};
use crate::candidates::{
    candidate_of, candidates_are_legal_distinct_and_led_by_the_selected_move, drawn_from,
    first_named, lists, named_before, names, sanitised,
};
use crate::engines::beam::{
    a_beam_finding_is_usable, a_beam_finding_says_what_was_reported, beam_can_report,
    beam_candidates_are_the_ranked_moves, beam_finding, beam_params_of, beam_report_fits,
    BeamAccount,
};
use crate::engines::mcts::{
    a_mcts_finding_is_usable, a_mcts_finding_says_what_was_reported, mcts_can_report,
    mcts_candidates_are_the_visited_moves, mcts_finding, mcts_params_of, mcts_report_fits,
    MctsAccount,
};
use crate::engines::minimax::{
    a_minimax_finding_is_usable, a_minimax_finding_says_what_was_reported,
    a_minimax_proof_is_proven_throughout, has_proven_value, minimax_can_report,
    minimax_candidates_are_the_compared_moves, minimax_finding, minimax_params_of,
    minimax_report_fits, MinimaxAccount,
};
use crate::error::{absent, malformed, unfit, Status};
use crate::line::{
    a_principal_variation_replays_from_the_position, actions, replayable, replays,
};
use crate::model::{Answer, Certainty, Evaluation, MoveRequest, Score, SearchConfig, Unit};
use crate::outcome::Finding;
use crate::ranking::{not_below, scored_as, within_one, RankedMove};
use crate::request::{form_fault, schema_message};
use crate::schema::{REQUEST_SCHEMA, REQUEST_SCHEMA_LEGACY};
use crate::search::{
    a_finding_is_usable, answered, can_answer, engine_can_find, engine_fault, legal_actions,
    position_fault, refusal, same_members, search_fault,
};
use crate::service::engine_names;
use crate::text::{decimal, quoted};
use crate::values::{limiting_is_monotone, opposite_turns_the_order_round, Value, ONE};

verus! {

/// Every answer carries the name of the response schema, the engine that the
/// request went to, the revision of the engines, and a description of how the
/// engine was set.
pub proof fn every_answer_names_its_schema_and_its_engine(
    engine: Seq<char>,
    request: MoveRequest,
    given: Answer,
)
    requires
        can_answer(engine, request, given),
    ensures
        given.schema == "engine-response.v2"@,
        given.engine_kind == engine,
        given.engine_version == "2b35565dddc8e0f77222af2f8fcd382b013f2fee"@,
        given.engine_config is Some,
{
}

/// The engines have different names.
proof fn lemma_names_differ()
    ensures
        "minimax"@ != "mcts"@,
        "minimax"@ != "beam"@,
        "mcts"@ != "beam"@,
{
    reveal_strlit("minimax");
    reveal_strlit("mcts");
    reveal_strlit("beam");
    assert("minimax"@.len() == 7);
    assert("mcts"@.len() == 4);
    assert("beam"@.len() == 4);
    assert("mcts"@[0] != "beam"@[0]);
}

/// Every answer says how its engine was set: `minimax` its depth, `mcts` its
/// iterations, `beam` its width, each as it was limited.
pub proof fn every_answer_states_how_its_engine_was_set(
    engine: Seq<char>,
    request: MoveRequest,
    given: Answer,
)
    requires
        can_answer(engine, request, given),
    ensures
        given.engine_config == Some(
            if engine == "minimax"@ {
                "depth="@ + decimal(minimax_params_of(request.config).max_depth as nat)
            } else if engine == "mcts"@ {
                "iterations="@ + decimal(mcts_params_of(request.config).max_iterations as nat)
            } else {
                "beam_width="@ + decimal(beam_params_of(request.config).beam_width as nat)
            },
        ),
{
}

/// The finding behind an answer.
proof fn lemma_finding_of(engine: Seq<char>, request: MoveRequest, given: Answer) -> (finding:
    Finding)
    requires
        can_answer(engine, request, given),
    ensures
        engine_can_find(engine, qfen_planes(request.qfen@), request.config, finding),
        given == answered(
            engine,
            qfen_planes(request.qfen@),
            legal_actions(qfen_planes(request.qfen@)),
            finding,
            given.elapsed_ms,
        ),
{
    choose|finding: Finding|
        {
            &&& #[trigger] engine_can_find(
                engine,
                qfen_planes(request.qfen@),
                request.config,
                finding,
            )
            &&& given == answered(
                engine,
                qfen_planes(request.qfen@),
                legal_actions(qfen_planes(request.qfen@)),
                finding,
                given.elapsed_ms,
            )
        }
}

/// The action of an answer is legal, and a request that fits its position lists
/// it.
pub proof fn every_answer_selects_a_legal_action(
    engine: Seq<char>,
    request: MoveRequest,
    given: Answer,
)
    requires
        can_answer(engine, request, given),
    ensures
        given.action_index < 64,
        legal_actions(qfen_planes(request.qfen@)).contains(given.action_index),
        position_fault(request) is None ==> request.legal_action_indices@.contains(
            given.action_index,
        ),
{
    let planes = qfen_planes(request.qfen@);
    let finding = lemma_finding_of(engine, request, given);
    a_finding_is_usable(engine, planes, request.config, finding);
    legal_actions_are_the_indices_of_the_legal_moves(planes);
    assert(legal_actions(planes).contains(given.action_index));
}

/// The legal actions are the action indices of the legal moves, each once and
/// ascending.
pub proof fn legal_actions_are_the_indices_of_the_legal_moves(planes: Seq<u16>)
    ensures
        strictly_ascending(legal_actions(planes)),
        forall|m: Placement| #[trigger]
            is_legal(planes, m) ==> legal_actions(planes).contains(m.action() as u8),
        forall|action: u8| #[trigger]
            legal_actions(planes).contains(action) ==> exists|m: Placement| #[trigger]
                is_legal(planes, m) && m.action() == action,
{
    let moves = legal_moves(planes);
    legal_moves_are_the_legal_moves(planes);
    assert forall|i: int| 0 <= i < moves.len() implies is_legal(planes, #[trigger] moves[i])
        && legal_actions(planes)[i] == moves[i].action() by {
        assert(moves.contains(moves[i]));
    }
    assert forall|i: int, j: int| 0 <= i < j < legal_actions(planes).len() implies (
    #[trigger] legal_actions(planes)[i]) < (#[trigger] legal_actions(planes)[j]) by {
        assert(moves[i].action() < moves[j].action());
    }
    assert forall|m: Placement| #[trigger]
        is_legal(planes, m) implies legal_actions(planes).contains(m.action() as u8) by {
        assert(moves.contains(m));
        let i = choose|i: int| 0 <= i < moves.len() && moves[i] == m;
        assert(legal_actions(planes)[i] == m.action() as u8);
    }
    assert forall|action: u8| #[trigger] legal_actions(planes).contains(action) implies exists|
        m: Placement,
    | #[trigger] is_legal(planes, m) && m.action() == action by {
        let i = choose|i: int|
            0 <= i < legal_actions(planes).len() && legal_actions(planes)[i] == action;
        assert(is_legal(planes, moves[i]));
    }
}

/// Every byte is smaller than any later one.
pub open spec fn strictly_ascending(list: Seq<u8>) -> bool {
    forall|i: int, j: int| 0 <= i < j < list.len() ==> #[trigger] list[i] < #[trigger] list[j]
}

/// Two strictly ascending lists with the same members are equal. So the actions
/// of a request that fits its position, sorted and without repetitions, are the
/// legal actions.
pub proof fn ascending_lists_with_the_same_members_are_equal(a: Seq<u8>, b: Seq<u8>)
    requires
        strictly_ascending(a),
        strictly_ascending(b),
        same_members(a, b),
    ensures
        a == b,
    decreases a.len(),
{
    if a.len() == 0 {
        if b.len() > 0 {
            assert(b.contains(b[0]));
            assert(a.contains(b[0]));
        }
        assert(a =~= b);
    } else {
        assert(a.contains(a.last()));
        assert(b.contains(a.last()));
        assert(b.len() > 0);
        assert(b.contains(b.last()));
        assert(a.contains(b.last()));
        let k = choose|k: int| 0 <= k < b.len() && b[k] == a.last();
        let l = choose|l: int| 0 <= l < a.len() && a[l] == b.last();
        assert(a.last() == b.last());
        let front_a = a.drop_last();
        let front_b = b.drop_last();
        assert forall|byte: u8| #[trigger] front_a.contains(byte) <==> front_b.contains(byte) by {
            if front_a.contains(byte) {
                let i = choose|i: int| 0 <= i < front_a.len() && front_a[i] == byte;
                assert(a[i] == byte && a[i] < a.last());
                assert(a.contains(byte));
                assert(b.contains(byte));
                let j = choose|j: int| 0 <= j < b.len() && b[j] == byte;
                assert(front_b[j] == byte);
            }
            if front_b.contains(byte) {
                let j = choose|j: int| 0 <= j < front_b.len() && front_b[j] == byte;
                assert(b[j] == byte && b[j] < b.last());
                assert(b.contains(byte));
                assert(a.contains(byte));
                let i = choose|i: int| 0 <= i < a.len() && a[i] == byte;
                assert(front_a[i] == byte);
            }
        }
        ascending_lists_with_the_same_members_are_equal(front_a, front_b);
        assert(a =~= front_a.push(a.last()));
        assert(b =~= front_b.push(b.last()));
    }
}

/// Every answer has a candidate list that leads with the selected move. It holds
/// at most eight legal, distinct moves, scored in visits by `mcts`
/// and in values from minus one to one by the other engines. They come best
/// first, the selected move among them.
pub proof fn every_answer_lists_the_selected_move_first(
    engine: Seq<char>,
    request: MoveRequest,
    given: Answer,
)
    requires
        can_answer(engine, request, given),
    ensures
        given.candidates matches Some(list) && {
            &&& 1 <= list.len() <= 8
            &&& list[0].action_index == given.action_index
            &&& forall|i: int|
                0 <= i < list.len() ==> legal_actions(qfen_planes(request.qfen@)).contains(
                    (#[trigger] list[i]).action_index,
                ) && list[i].unit == if engine == "mcts"@ {
                    Unit::Visits
                } else {
                    Unit::Value
                } && (list[i].score is Count <==> engine == "mcts"@) && within_one(list[i].score)
            &&& forall|i: int, j: int|
                0 <= i < j < list.len() ==> not_below(
                    (#[trigger] list[i]).score,
                    (#[trigger] list[j]).score,
                )
            &&& forall|i: int, j: int|
                0 <= i < j < list.len() ==> (#[trigger] list[i]).action_index != (
                #[trigger] list[j]).action_index
        },
{
    let planes = qfen_planes(request.qfen@);
    let legal = legal_actions(planes);
    let finding = lemma_finding_of(engine, request, given);
    a_finding_is_usable(engine, planes, request.config, finding);
    lemma_names_differ();
    if engine == "minimax"@ {
        a_minimax_finding_is_usable(planes, request.config, finding);
    } else if engine == "mcts"@ {
        a_mcts_finding_is_usable(planes, request.config, finding);
    } else {
        a_beam_finding_is_usable(planes, request.config, finding);
    }
    legal_actions_are_the_indices_of_the_legal_moves(planes);
    candidates_are_legal_distinct_and_led_by_the_selected_move(
        finding.candidates,
        legal,
        given.action_index,
    );
    let i = choose|i: int|
        0 <= i < finding.candidates.len() && (#[trigger] finding.candidates[i]).mv
            == finding.best_move;
    assert(finding.candidates[i].mv.action() == given.action_index);
    assert(names(finding.candidates, given.action_index));
    let list = given.candidates->0;
    let unit = if engine == "mcts"@ {
        Unit::Visits
    } else {
        Unit::Value
    };
    assert forall|i: int| 0 <= i < list.len() implies legal.contains(
        (#[trigger] list[i]).action_index,
    ) && list[i].unit == unit && (list[i].score is Count <==> engine == "mcts"@) && within_one(
        list[i].score,
    ) by {
        assert(drawn_from(finding.candidates, list[i]));
    }
    assert forall|i: int, j: int| 0 <= i < j < list.len() implies not_below(
        (#[trigger] list[i]).score,
        (#[trigger] list[j]).score,
    ) by {
        let p = choose|p: int| #[trigger]
            first_named(finding.candidates, list[i].action_index, p) && list[i] == candidate_of(
                finding.candidates[p],
            );
        let q = choose|q: int| #[trigger]
            first_named(finding.candidates, list[j].action_index, q) && list[j] == candidate_of(
                finding.candidates[q],
            );
        assert(drawn_from(finding.candidates, list[i]) && drawn_from(finding.candidates, list[j]));
        if i == 0 {
            action_index_is_a_bijection(finding.candidates[p].mv);
            action_index_is_a_bijection(finding.best_move);
        } else {
            assert(named_before(finding.candidates, list[i], list[j]));
            assert(finding.candidates[p].score.rank() >= finding.candidates[q].score.rank());
        }
    }
}

/// An answer of `minimax` or `beam` has a principal variation, which starts with
/// the selected move and can be played. An answer of `mcts` has none.
pub proof fn minimax_and_beam_answer_with_a_line(
    engine: Seq<char>,
    request: MoveRequest,
    given: Answer,
)
    requires
        can_answer(engine, request, given),
    ensures
        given.pv is Some <==> engine != "mcts"@,
        given.pv matches Some(pv) ==> 1 <= pv.len() <= 16 && pv[0] == given.action_index,
        given.pv matches Some(pv) ==> exists|line: Seq<Placement>| #[trigger]
            replays(qfen_planes(request.qfen@), line) && pv == actions(line),
{
    let planes = qfen_planes(request.qfen@);
    let finding = lemma_finding_of(engine, request, given);
    a_finding_is_usable(engine, planes, request.config, finding);
    a_principal_variation_replays_from_the_position(planes, finding.pv, given.action_index);
    lemma_names_differ();
    if engine == "minimax"@ {
        a_minimax_finding_is_usable(planes, request.config, finding);
    } else if engine == "mcts"@ {
        a_mcts_finding_is_usable(planes, request.config, finding);
    } else {
        a_beam_finding_is_usable(planes, request.config, finding);
    }
}

/// Every answer has a value between minus one and one, or a probability of a win
/// between zero and one, the latter from `mcts` alone.
pub proof fn every_answer_has_a_value_in_range(
    engine: Seq<char>,
    request: MoveRequest,
    given: Answer,
)
    requires
        can_answer(engine, request, given),
    ensures
        match given.value {
            Some(Evaluation::Value(value)) => engine != "mcts"@ && value.magnitude() <= ONE,
            Some(Evaluation::WinProbability(p)) => engine == "mcts"@ && !p.negative()
                && p.magnitude() <= ONE,
            None => false,
        },
{
    let planes = qfen_planes(request.qfen@);
    let finding = lemma_finding_of(engine, request, given);
    lemma_names_differ();
    if engine == "minimax"@ {
        a_minimax_finding_is_usable(planes, request.config, finding);
    } else if engine == "mcts"@ {
        a_mcts_finding_is_usable(planes, request.config, finding);
    } else {
        a_beam_finding_is_usable(planes, request.config, finding);
    }
}

/// In an answer of `minimax` or `beam` the selected move has the value of the
/// answer as its score.
pub proof fn the_selected_move_is_scored_with_the_value(
    engine: Seq<char>,
    request: MoveRequest,
    given: Answer,
)
    requires
        can_answer(engine, request, given),
        engine != "mcts"@,
    ensures
        given.candidates matches Some(list) && list.len() > 0 && scored_as(
            list[0].score,
            given.value,
        ),
{
    let planes = qfen_planes(request.qfen@);
    let finding = lemma_finding_of(engine, request, given);
    every_answer_lists_the_selected_move_first(engine, request, given);
    a_finding_is_usable(engine, planes, request.config, finding);
    if engine == "minimax"@ {
        a_minimax_finding_is_usable(planes, request.config, finding);
    } else {
        a_beam_finding_is_usable(planes, request.config, finding);
    }
    candidates_are_legal_distinct_and_led_by_the_selected_move(
        finding.candidates,
        legal_actions(planes),
        given.action_index,
    );
    let list = given.candidates->0;
    assert(drawn_from(finding.candidates, list[0]));
    let place = choose|place: int| #[trigger]
        first_named(finding.candidates, list[0].action_index, place) && list[0] == candidate_of(
            finding.candidates[place],
        );
    action_index_is_a_bijection(finding.candidates[place].mv);
    action_index_is_a_bijection(finding.best_move);
}

/// Only `minimax` answers with a proof.
pub proof fn only_minimax_proves(engine: Seq<char>, request: MoveRequest, given: Answer)
    requires
        can_answer(engine, request, given),
        given.certainty == Certainty::Proof,
    ensures
        engine == "minimax"@,
{
    let planes = qfen_planes(request.qfen@);
    let finding = lemma_finding_of(engine, request, given);
    lemma_names_differ();
    if engine == "mcts"@ {
        a_mcts_finding_is_usable(planes, request.config, finding);
    } else if engine == "beam"@ {
        a_beam_finding_is_usable(planes, request.config, finding);
    }
}

/// An answer of `minimax` is a proof exactly where the value that it sends is
/// proven, and then every score that it sends is proven too.
pub proof fn a_proof_sends_only_proven_numbers(request: MoveRequest, given: Answer)
    requires
        can_answer("minimax"@, request, given),
    ensures
        given.certainty == Certainty::Proof <==> (given.value matches Some(
            Evaluation::Value(value),
        ) && value.proven()),
        given.certainty == Certainty::Proof ==> (given.candidates matches Some(list) && forall|
            i: int,
        |
            0 <= i < list.len() ==> ((#[trigger] list[i]).score matches Score::Value(value)
                && value.proven())),
{
    let planes = qfen_planes(request.qfen@);
    let finding = lemma_finding_of("minimax"@, request, given);
    a_finding_is_usable("minimax"@, planes, request.config, finding);
    a_minimax_proof_is_proven_throughout(planes, request.config, finding);
    every_answer_lists_the_selected_move_first("minimax"@, request, given);
    if given.certainty == Certainty::Proof {
        let list = given.candidates->0;
        candidates_are_legal_distinct_and_led_by_the_selected_move(
            finding.candidates,
            legal_actions(planes),
            given.action_index,
        );
        assert forall|i: int| 0 <= i < list.len() implies ((
        #[trigger] list[i]).score matches Score::Value(value) && value.proven()) by {
            assert(drawn_from(finding.candidates, list[i]));
            let place = choose|place: int| #[trigger]
                first_named(finding.candidates, list[i].action_index, place) && list[i]
                    == candidate_of(finding.candidates[place]);
            assert(has_proven_value(finding.candidates[place]));
        }
    }
}

/// Set to a full game and to no time limit, `minimax` always answers with a
/// proof.
pub proof fn a_full_search_is_a_proof(request: MoveRequest, given: Answer)
    requires
        can_answer("minimax"@, request, given),
        minimax_params_of(request.config).max_depth == 16,
        request.config.time_limit_ms is None,
    ensures
        given.certainty == Certainty::Proof,
{
    let finding = lemma_finding_of("minimax"@, request, given);
    a_minimax_proof_is_proven_throughout(qfen_planes(request.qfen@), request.config, finding);
}

/// Where some legal move ends the game, `minimax` plays one that does, whatever
/// its depth, and answers with a proof and the value one.
pub proof fn minimax_ends_the_game_where_it_can(request: MoveRequest, given: Answer)
    requires
        can_answer("minimax"@, request, given),
        can_finish(qfen_planes(request.qfen@)),
    ensures
        given.certainty == Certainty::Proof,
        given.value == Some(Evaluation::Value(Value { bits: ONE })),
        exists|m: Placement| #[trigger]
            is_legal(qfen_planes(request.qfen@), m) && m.action() == given.action_index
                && finished(placed(qfen_planes(request.qfen@), m)),
{
    let planes = qfen_planes(request.qfen@);
    let finding = lemma_finding_of("minimax"@, request, given);
    a_minimax_finding_is_usable(planes, request.config, finding);
    a_minimax_proof_is_proven_throughout(planes, request.config, finding);
    assert(is_legal(planes, finding.best_move));
}

/// Where some legal move fills a line with all four shapes, `minimax` and `beam`
/// answer with the value one, and `minimax` with a proof.
pub proof fn a_win_in_one_move_is_worth_one(
    engine: Seq<char>,
    request: MoveRequest,
    given: Answer,
)
    requires
        can_answer(engine, request, given),
        engine != "mcts"@,
        can_win(qfen_planes(request.qfen@)),
    ensures
        given.value == Some(Evaluation::Value(Value { bits: ONE })),
        engine == "minimax"@ ==> given.certainty == Certainty::Proof,
{
    let planes = qfen_planes(request.qfen@);
    if engine == "minimax"@ {
        let m = choose|m: Placement| #[trigger] is_legal(planes, m) && won(placed(planes, m));
        assert(is_legal(planes, m) && finished(placed(planes, m)));
        minimax_ends_the_game_where_it_can(request, given);
    } else {
        let finding = lemma_finding_of(engine, request, given);
        a_beam_finding_is_usable(planes, request.config, finding);
    }
}

/// Whether two requests differ at most in their schema and in their actions.
pub open spec fn alike(a: MoveRequest, b: MoveRequest) -> bool {
    &&& a.qfen@ == b.qfen@
    &&& a.side_to_move == b.side_to_move
    &&& a.config == b.config
}

/// The order of the actions in a request and their repetition make no
/// difference.
pub proof fn order_and_repetition_of_actions_make_no_difference(
    engine: Seq<char>,
    a: MoveRequest,
    b: MoveRequest,
    given: Answer,
)
    requires
        alike(a, b),
        a.schema@ == b.schema@,
        same_members(a.legal_action_indices@, b.legal_action_indices@),
    ensures
        refusal(engine, a) == refusal(engine, b),
        can_answer(engine, a, given) == can_answer(engine, b, given),
{
    lemma_same_form(a, b);
    assert forall|byte: u8| #[trigger]
        b.legal_action_indices@.contains(byte) <==> a.legal_action_indices@.contains(byte) by {
        assert(a.legal_action_indices@.contains(byte) <==> b.legal_action_indices@.contains(byte));
    }
    lemma_same_form(b, a);
    let legal = legal_actions(qfen_planes(a.qfen@));
    if same_members(a.legal_action_indices@, legal) {
        assert forall|byte: u8| #[trigger]
            b.legal_action_indices@.contains(byte) <==> legal.contains(byte) by {
            assert(a.legal_action_indices@.contains(byte)
                <==> b.legal_action_indices@.contains(byte));
        }
    }
    if same_members(b.legal_action_indices@, legal) {
        assert forall|byte: u8| #[trigger]
            a.legal_action_indices@.contains(byte) <==> legal.contains(byte) by {
            assert(b.legal_action_indices@.contains(byte) <==> legal.contains(byte));
        }
    }
}

proof fn lemma_same_form(a: MoveRequest, b: MoveRequest)
    requires
        same_members(a.legal_action_indices@, b.legal_action_indices@),
    ensures
        (exists|i: int|
            0 <= i < a.legal_action_indices@.len() && #[trigger] a.legal_action_indices@[i] > 63)
            ==> (exists|i: int|
            0 <= i < b.legal_action_indices@.len() && #[trigger] b.legal_action_indices@[i] > 63),
{
    if exists|i: int|
        0 <= i < a.legal_action_indices@.len() && #[trigger] a.legal_action_indices@[i] > 63 {
        let i = choose|i: int|
            0 <= i < a.legal_action_indices@.len() && #[trigger] a.legal_action_indices@[i] > 63;
        let byte = a.legal_action_indices@[i];
        assert(a.legal_action_indices@.contains(byte));
        assert(b.legal_action_indices@.contains(byte));
        let j = choose|j: int|
            0 <= j < b.legal_action_indices@.len() && b.legal_action_indices@[j] == byte;
        assert(b.legal_action_indices@[j] > 63);
    }
}

/// A request under the longer spelling of the schema fares as it does under the
/// current one.
pub proof fn both_spellings_of_the_schema_fare_alike(
    engine: Seq<char>,
    a: MoveRequest,
    b: MoveRequest,
    given: Answer,
)
    requires
        alike(a, b),
        a.legal_action_indices@ == b.legal_action_indices@,
        a.schema@ == REQUEST_SCHEMA@,
        b.schema@ == REQUEST_SCHEMA_LEGACY@,
    ensures
        refusal(engine, a) == refusal(engine, b),
        can_answer(engine, a, given) == can_answer(engine, b, given),
{
}

/// Whether one text holds the other.
pub open spec fn holds_text(text: Seq<char>, part: Seq<char>) -> bool {
    exists|i: int|
        0 <= i <= text.len() - part.len() && #[trigger] text.subrange(i, i + part.len()) == part
}

/// A request under any other schema is refused with status 400 and a message
/// that names the current spelling and not the longer one.
pub proof fn an_unknown_schema_is_refused(engine: Seq<char>, request: MoveRequest)
    requires
        request.schema@ != REQUEST_SCHEMA@,
        request.schema@ != REQUEST_SCHEMA_LEGACY@,
    ensures
        refusal(engine, request) == Some(malformed(schema_message())),
        holds_text(schema_message(), REQUEST_SCHEMA@),
        !holds_text(schema_message(), REQUEST_SCHEMA_LEGACY@),
{
    reveal_strlit("schema must be ");
    reveal_strlit("engine-request.v1");
    reveal_strlit("quantik.engine-request.v1");
    let message = schema_message();
    assert(message.subrange(15, 32) =~= REQUEST_SCHEMA@);
    if holds_text(message, REQUEST_SCHEMA_LEGACY@) {
        let i = choose|i: int|
            0 <= i <= message.len() - 25 && #[trigger] message.subrange(i, i + 25)
                == REQUEST_SCHEMA_LEGACY@;
        assert(message.subrange(i, i + 25)[0] == 'q');
        assert(message[i] == 'q');
    }
}

/// The engines that the service lists are those that it knows.
pub proof fn the_listed_engines_are_the_known_ones(engine: Seq<char>, planes: Seq<u16>)
    ensures
        engine_names().contains(engine) <==> !(engine_fault(engine, planes) matches Some(refusal)
            && refusal.status == Status::NotFound),
{
    assert(engine_names()[0] == "minimax"@);
    assert(engine_names()[1] == "mcts"@);
    assert(engine_names()[2] == "beam"@);
}

/// A request that is well formed and fits its position is answered by `minimax`
/// always, and by `mcts` and `beam` unless a line carries all four shapes.
pub proof fn a_fitting_request_is_answered(request: MoveRequest)
    requires
        form_fault(request) is None,
        position_fault(request) is None,
    ensures
        refusal("minimax"@, request) is None,
        refusal("mcts"@, request) is None <==> !won(qfen_planes(request.qfen@)),
        refusal("beam"@, request) is None <==> !won(qfen_planes(request.qfen@)),
{
    lemma_names_differ();
}

/// A request is refused with status 400 exactly where its form or its notation
/// is wrong, with 404 exactly where nothing else is wrong than that no engine
/// has the name, and with 422 otherwise. No refusal reports a fault of the
/// service.
pub proof fn every_refusal_has_its_status(engine: Seq<char>, request: MoveRequest)
    ensures
        refusal(engine, request) matches Some(refused) ==> {
            &&& refused.status != Status::InternalServerError
            &&& refused.status == Status::BadRequest <==> form_fault(request) is Some || !is_qfen(
                request.qfen@,
            )
            &&& refused.status == Status::NotFound <==> form_fault(request) is None
                && position_fault(request) is None && !engine_names().contains(engine)
        },
{
    the_listed_engines_are_the_known_ones(engine, qfen_planes(request.qfen@));
}

/// A request fits its position exactly where its notation is QFEN, some move is
/// legal, it names the side to move, and it lists the actions of the legal moves
/// and no others. Otherwise the first of the four that fails is named.
pub proof fn a_request_fits_by_its_legal_moves(request: MoveRequest)
    ensures
        position_fault(request) is None <==> is_qfen(request.qfen@) && (exists|m: Placement|
            #[trigger] is_legal(qfen_planes(request.qfen@), m)) && mover(
            qfen_planes(request.qfen@),
        ) == Some(request.side_to_move) && (forall|action: u8| #[trigger]
            request.legal_action_indices@.contains(action) <==> exists|m: Placement| #[trigger]
                is_legal(qfen_planes(request.qfen@), m) && m.action() == action),
        !is_qfen(request.qfen@) ==> position_fault(request) == Some(
            malformed(qfen_complaint(request.qfen@)),
        ),
        is_qfen(request.qfen@) && !(exists|m: Placement| #[trigger]
            is_legal(qfen_planes(request.qfen@), m)) ==> position_fault(request) == Some(
            unfit("position is terminal or has no legal moves"@),
        ),
        forall|player: u8|
            is_qfen(request.qfen@) && (exists|m: Placement| #[trigger]
                is_legal(qfen_planes(request.qfen@), m)) && mover(qfen_planes(request.qfen@))
                == Some(player) && player != request.side_to_move ==> position_fault(request)
                == Some(
                unfit(
                    "side_to_move is "@ + decimal(request.side_to_move as nat)
                        + ", but core calculated "@ + #[trigger] decimal(player as nat),
                ),
            ),
        is_qfen(request.qfen@) && (exists|m: Placement| #[trigger]
            is_legal(qfen_planes(request.qfen@), m)) && mover(qfen_planes(request.qfen@)) == Some(
            request.side_to_move,
        ) && position_fault(request) is Some ==> position_fault(request) == Some(
            unfit("legal_action_indices do not exactly match quantik-core"@),
        ),
{
    let planes = qfen_planes(request.qfen@);
    let moves = legal_moves(planes);
    let asked = request.legal_action_indices@;
    legal_actions_are_the_indices_of_the_legal_moves(planes);
    legal_moves_are_the_legal_moves(planes);
    if moves.len() > 0 {
        assert(moves.contains(moves[0]));
        assert(is_legal(planes, moves[0]));
    }
    if exists|m: Placement| #[trigger] is_legal(planes, m) {
        let m = choose|m: Placement| #[trigger] is_legal(planes, m);
        assert(moves.contains(m));
    }
    assert forall|action: u8| #[trigger] legal_actions(planes).contains(action) <==> exists|
        m: Placement,
    | #[trigger] is_legal(planes, m) && m.action() == action by {
        if exists|m: Placement| #[trigger] is_legal(planes, m) && m.action() == action {
            let m = choose|m: Placement| #[trigger] is_legal(planes, m) && m.action() == action;
            assert(legal_actions(planes).contains(m.action() as u8));
        }
    }
    if same_members(asked, legal_actions(planes)) {
        assert forall|action: u8| #[trigger] asked.contains(action) <==> exists|
            m: Placement,
        | #[trigger] is_legal(planes, m) && m.action() == action by {
            assert(asked.contains(action) <==> legal_actions(planes).contains(action));
        }
    }
    if forall|action: u8| #[trigger]
        asked.contains(action) <==> exists|m: Placement| #[trigger]
            is_legal(planes, m) && m.action() == action {
        assert forall|action: u8| #[trigger] asked.contains(action) <==> legal_actions(
            planes,
        ).contains(action) by {
            assert(legal_actions(planes).contains(action) <==> exists|m: Placement| #[trigger]
                is_legal(planes, m) && m.action() == action);
        }
    }
}

/// An engine refuses a position only as follows: `minimax` where no move is legal,
/// `mcts` there and where a line carries all four shapes, and `beam` on these and
/// where the piece counts fit no game, the full line first. Any other name is not
/// found.
pub proof fn each_engine_refuses_for_its_own_reasons(engine: Seq<char>, planes: Seq<u16>)
    ensures
        engine_fault("minimax"@, planes) == if exists|m: Placement| #[trigger]
            is_legal(planes, m) {
            None
        } else {
            Some(unfit("Cannot search from a state with no legal moves."@))
        },
        engine_fault("mcts"@, planes) == if (exists|m: Placement| #[trigger] is_legal(planes, m))
            && !won(planes) {
            None
        } else {
            Some(unfit("MCTS found no move"@))
        },
        won(planes) ==> engine_fault("beam"@, planes) == Some(
            unfit("Cannot search from an already-terminal root state."@),
        ),
        !won(planes) && mover(planes) is None ==> engine_fault("beam"@, planes) == Some(
            unfit("Inconsistent root piece counts."@),
        ),
        !won(planes) && mover(planes) is Some && !(exists|m: Placement| #[trigger]
            is_legal(planes, m)) ==> engine_fault("beam"@, planes) == Some(
            unfit("Cannot search from a root state with no legal moves."@),
        ),
        !won(planes) && (exists|m: Placement| #[trigger] is_legal(planes, m)) ==> engine_fault(
            "beam"@,
            planes,
        ) is None,
        engine != "minimax"@ && engine != "mcts"@ && engine != "beam"@ ==> engine_fault(
            engine,
            planes,
        ) == Some(absent("unknown engine "@ + quoted(engine))),
{
    let moves = legal_moves(planes);
    lemma_names_differ();
    legal_moves_are_the_legal_moves(planes);
    if moves.len() > 0 {
        assert(moves.contains(moves[0]));
        assert(is_legal(planes, moves[0]));
    }
    if exists|m: Placement| #[trigger] is_legal(planes, m) {
        let m = choose|m: Placement| #[trigger] is_legal(planes, m);
        assert(moves.contains(m));
    }
}

/// A fault in the form of a request is named before one in its position, and that
/// before one of the engine. A search alone does not ask about the form. Without a
/// fault there is no refusal.
pub proof fn faults_are_named_in_order(engine: Seq<char>, request: MoveRequest)
    ensures
        form_fault(request) is Some ==> refusal(engine, request) == form_fault(request),
        form_fault(request) is None && position_fault(request) is Some ==> refusal(engine, request)
            == position_fault(request),
        form_fault(request) is None && position_fault(request) is None ==> refusal(engine, request)
            == engine_fault(engine, qfen_planes(request.qfen@)),
        position_fault(request) is Some ==> search_fault(engine, request) == position_fault(
            request,
        ),
        position_fault(request) is None ==> search_fault(engine, request) == engine_fault(
            engine,
            qfen_planes(request.qfen@),
        ),
{
}

/// The answer to an outcome has its move, value, certainty and settings as they
/// are, the time that it is given, and the names of the schema, the engine and the
/// revision.
pub proof fn an_answer_carries_its_outcome(
    engine: Seq<char>,
    planes: Seq<u16>,
    legal: Seq<u8>,
    finding: Finding,
    elapsed_ms: u64,
)
    requires
        finding.best_move.action() < 256,
    ensures
        answered(engine, planes, legal, finding, elapsed_ms).schema == "engine-response.v2"@,
        answered(engine, planes, legal, finding, elapsed_ms).action_index
            == finding.best_move.shape * 16 + finding.best_move.position,
        answered(engine, planes, legal, finding, elapsed_ms).engine_kind == engine,
        answered(engine, planes, legal, finding, elapsed_ms).engine_version
            == "2b35565dddc8e0f77222af2f8fcd382b013f2fee"@,
        answered(engine, planes, legal, finding, elapsed_ms).elapsed_ms == elapsed_ms,
        answered(engine, planes, legal, finding, elapsed_ms).certainty == finding.certainty,
        answered(engine, planes, legal, finding, elapsed_ms).value == finding.value,
        answered(engine, planes, legal, finding, elapsed_ms).candidates == sanitised(
            finding.candidates,
            legal,
            (finding.best_move.shape * 16 + finding.best_move.position) as u8,
        ),
        answered(engine, planes, legal, finding, elapsed_ms).pv == replayable(
            planes,
            finding.pv,
            (finding.best_move.shape * 16 + finding.best_move.position) as u8,
        ),
        answered(engine, planes, legal, finding, elapsed_ms).engine_config == Some(finding.config),
{
}

/// A move that an engine ranked is missing from the candidates of an answer only
/// where these are eight, none of them worse than that move.
pub proof fn what_an_answer_leaves_out_is_no_better(
    engine: Seq<char>,
    planes: Seq<u16>,
    input: SearchConfig,
    finding: Finding,
    elapsed_ms: u64,
    j: int,
)
    requires
        engine_can_find(engine, planes, input, finding),
        0 <= j < finding.candidates.len(),
    ensures
        answered(
            engine,
            planes,
            legal_actions(planes),
            finding,
            elapsed_ms,
        ).candidates matches Some(list) && (lists(list, finding.candidates[j].mv.action() as u8)
            || list.len() == 8 && forall|i: int|
            0 <= i < list.len() ==> not_below(
                (#[trigger] list[i]).score,
                finding.candidates[j].score,
            )),
{
    let ranked = finding.candidates;
    let legal = legal_actions(planes);
    let selected = finding.best_move.action() as u8;
    let index = ranked[j].mv.action() as u8;
    a_finding_is_usable(engine, planes, input, finding);
    lemma_names_differ();
    if engine == "minimax"@ {
        a_minimax_finding_is_usable(planes, input, finding);
    } else if engine == "mcts"@ {
        a_mcts_finding_is_usable(planes, input, finding);
    } else {
        a_beam_finding_is_usable(planes, input, finding);
    }
    legal_actions_are_the_indices_of_the_legal_moves(planes);
    candidates_are_legal_distinct_and_led_by_the_selected_move(ranked, legal, selected);
    let b = choose|b: int| 0 <= b < ranked.len() && (#[trigger] ranked[b]).mv == finding.best_move;
    assert(ranked[b].mv.action() == selected);
    assert(names(ranked, selected));
    assert(legal.contains(selected));
    let list = sanitised(ranked, legal, selected)->0;
    assert(is_legal(planes, ranked[j].mv));
    assert(legal.contains(index));
    assert(ranked[j].mv.action() == index);
    assert(names(ranked, index));
    if !lists(list, index) {
        let q = lemma_first_place(ranked, index, j);
        assert forall|i: int| 0 <= i < list.len() implies not_below(
            (#[trigger] list[i]).score,
            ranked[j].score,
        ) by {
            assert(drawn_from(ranked, list[i]));
            let p = choose|p: int| #[trigger]
                first_named(ranked, list[i].action_index, p) && list[i].score == ranked[p].score
                    && list[i].unit == ranked[p].unit;
            if i == 0 {
                action_index_is_a_bijection(ranked[p].mv);
                action_index_is_a_bijection(finding.best_move);
                assert(not_below(ranked[p].score, ranked[j].score));
            } else {
                assert(p < q);
                assert(ranked[p].score.rank() >= ranked[j].score.rank());
            }
        }
    }
}

/// Where a list first names the index of one of its moves.
proof fn lemma_first_place(ranked: Seq<RankedMove>, index: u8, j: int) -> (q: int)
    requires
        0 <= j < ranked.len(),
        ranked[j].mv.action() == index,
    ensures
        q <= j,
        first_named(ranked, index, q),
    decreases j,
{
    if exists|i: int| 0 <= i < j && (#[trigger] ranked[i]).mv.action() == index {
        let i = choose|i: int| 0 <= i < j && (#[trigger] ranked[i]).mv.action() == index;
        lemma_first_place(ranked, index, i)
    } else {
        j
    }
}

/// An answer of `minimax` says what a run of the engine with the request's settings
/// reported: the move and the line, the value bit for bit, and candidates with
/// the values that the report gives to them.
pub proof fn a_minimax_answer_says_what_was_reported(request: MoveRequest, given: Answer)
    requires
        can_answer("minimax"@, request, given),
    ensures
        exists|account: MinimaxAccount|
            {
                &&& #[trigger] minimax_can_report(
                    qfen_planes(request.qfen@),
                    minimax_params_of(request.config),
                    account,
                )
                &&& given.action_index == account.best_move.action()
                &&& given.pv matches Some(pv) && pv.len() == account.pv.len() && forall|i: int|
                    0 <= i < pv.len() ==> #[trigger] pv[i] == account.pv[i].action()
                &&& account.root is Some
                &&& given.value == Some(Evaluation::Value((account.root->0).0))
                &&& given.candidates is Some
                &&& forall|i: int|
                    0 <= i < (given.candidates->0).len() ==> exists|k: int|
                        0 <= k < (account.root->0).1.len() && (
                        #[trigger] (account.root->0).1[k]).0.action() == (
                        #[trigger] (given.candidates->0)[i]).action_index && (
                        (account.root->0).1[k].1 matches Some(value)
                            && (given.candidates->0)[i].score == Score::Value(value))
            },
{
    let planes = qfen_planes(request.qfen@);
    let params = minimax_params_of(request.config);
    let finding = lemma_finding_of("minimax"@, request, given);
    let account = choose|account: MinimaxAccount|
        {
            &&& #[trigger] minimax_can_report(planes, params, account)
            &&& minimax_report_fits(planes, params, account)
            &&& finding == minimax_finding(account, params.max_depth)
        };
    let root = account.root->0;
    let list = given.candidates->0;
    every_answer_lists_the_selected_move_first("minimax"@, request, given);
    a_minimax_finding_is_usable(planes, request.config, finding);
    a_finding_is_usable("minimax"@, planes, request.config, finding);
    a_minimax_finding_says_what_was_reported(account, params.max_depth, root.0);
    a_principal_variation_replays_from_the_position(planes, finding.pv, given.action_index);
    assert forall|i: int| 0 <= i < list.len() implies exists|k: int|
        0 <= k < root.1.len() && (#[trigger] root.1[k]).0.action() == (
        #[trigger] list[i]).action_index && (root.1[k].1 matches Some(value) && list[i].score
            == Score::Value(value)) by {
        candidates_are_legal_distinct_and_led_by_the_selected_move(
            finding.candidates,
            legal_actions(planes),
            given.action_index,
        );
        minimax_candidates_are_the_compared_moves(account, params.max_depth);
        assert(drawn_from(finding.candidates, list[i]));
        let p = choose|p: int| #[trigger]
            first_named(finding.candidates, list[i].action_index, p) && list[i].score
                == finding.candidates[p].score && list[i].unit == finding.candidates[p].unit;
        assert(finding.candidates.contains(finding.candidates[p]));
    }
    assert(minimax_can_report(planes, params, account));
}

/// A move that `minimax` compared is missing from its answer only where there are
/// eight candidates and none is worse, or where the answer is a proof and the
/// move's value is not proven.
pub proof fn a_minimax_answer_leaves_out_no_better_move(request: MoveRequest, given: Answer)
    requires
        can_answer("minimax"@, request, given),
    ensures
        exists|account: MinimaxAccount|
            {
                &&& #[trigger] minimax_can_report(
                    qfen_planes(request.qfen@),
                    minimax_params_of(request.config),
                    account,
                )
                &&& account.root is Some
                &&& given.value == Some(Evaluation::Value((account.root->0).0))
                &&& given.candidates is Some
                &&& forall|k: int|
                    0 <= k < (account.root->0).1.len() ==> ((
                    #[trigger] (account.root->0).1[k]).1 matches Some(value) && (lists(
                        given.candidates->0,
                        (account.root->0).1[k].0.action() as u8,
                    ) || given.certainty == Certainty::Proof && !value.proven() || (
                    given.candidates->0).len() == 8 && forall|i: int|
                        0 <= i < (given.candidates->0).len() ==> not_below(
                            (#[trigger] (given.candidates->0)[i]).score,
                            Score::Value(value),
                        )))
            },
{
    let planes = qfen_planes(request.qfen@);
    let params = minimax_params_of(request.config);
    let finding = lemma_finding_of("minimax"@, request, given);
    let account = choose|account: MinimaxAccount|
        {
            &&& #[trigger] minimax_can_report(planes, params, account)
            &&& minimax_report_fits(planes, params, account)
            &&& finding == minimax_finding(account, params.max_depth)
        };
    let root = account.root->0;
    let list = given.candidates->0;
    assert(given.candidates is Some) by {
        every_answer_lists_the_selected_move_first("minimax"@, request, given);
    }
    assert(given.value == Some(Evaluation::Value(root.0))) by {
        a_minimax_finding_says_what_was_reported(account, params.max_depth, root.0);
    }
    assert forall|k: int| 0 <= k < root.1.len() implies ((
    #[trigger] root.1[k]).1 matches Some(value) && (lists(list, root.1[k].0.action() as u8)
        || given.certainty == Certainty::Proof && !value.proven() || list.len() == 8 && forall|
        i: int,
    |
        0 <= i < list.len() ==> not_below(
            (#[trigger] list[i]).score,
            Score::Value(value),
        ))) by {
        assert(is_legal(planes, root.1[k].0));
        let value = root.1[k].1->0;
        if given.certainty == Certainty::Estimate || value.proven() {
            let item = RankedMove {
                mv: root.1[k].0,
                score: Score::Value(value),
                unit: Unit::Value,
            };
            minimax_candidates_are_the_compared_moves(account, params.max_depth);
            assert(finding.candidates.contains(item));
            let j = choose|j: int|
                0 <= j < finding.candidates.len() && finding.candidates[j] == item;
            what_an_answer_leaves_out_is_no_better(
                "minimax"@,
                planes,
                request.config,
                finding,
                given.elapsed_ms,
                j,
            );
        }
    }
    assert(minimax_can_report(planes, params, account));
}

/// An answer of `mcts` says what a run of the engine with the request's settings
/// reported: the move, the probability bit for bit, and candidates with the
/// visits that the report gives to them. A visited move is missing only where
/// there are eight candidates and none has fewer visits.
pub proof fn a_mcts_answer_says_what_was_reported(request: MoveRequest, given: Answer)
    requires
        can_answer("mcts"@, request, given),
    ensures
        exists|account: MctsAccount|
            {
                &&& #[trigger] mcts_can_report(
                    qfen_planes(request.qfen@),
                    mcts_params_of(request.config),
                    account,
                )
                &&& given.action_index == account.best_move.action()
                &&& given.value == Some(Evaluation::WinProbability(account.win_probability))
                &&& given.candidates is Some
                &&& forall|i: int|
                    0 <= i < (given.candidates->0).len() ==> exists|k: int|
                        0 <= k < account.visits.len() && (#[trigger] account.visits[k]).0.action()
                            == (#[trigger] (given.candidates->0)[i]).action_index
                            && (given.candidates->0)[i].score == Score::Count(
                            account.visits[k].1 as u64,
                        )
                &&& forall|k: int|
                    0 <= k < account.visits.len() ==> lists(
                        given.candidates->0,
                        (#[trigger] account.visits[k]).0.action() as u8,
                    ) || (given.candidates->0).len() == 8 && forall|i: int|
                        0 <= i < (given.candidates->0).len() ==> not_below(
                            (#[trigger] (given.candidates->0)[i]).score,
                            Score::Count(account.visits[k].1 as u64),
                        )
            },
{
    let planes = qfen_planes(request.qfen@);
    let params = mcts_params_of(request.config);
    let finding = lemma_finding_of("mcts"@, request, given);
    lemma_names_differ();
    let account = choose|account: MctsAccount|
        {
            &&& #[trigger] mcts_can_report(planes, params, account)
            &&& mcts_report_fits(planes, account)
            &&& finding == mcts_finding(account, params.max_iterations)
        };
    a_finding_is_usable("mcts"@, planes, request.config, finding);
    every_answer_lists_the_selected_move_first("mcts"@, request, given);
    a_mcts_finding_says_what_was_reported(account, params.max_iterations, 0);
    mcts_candidates_are_the_visited_moves(account, params.max_iterations);
    candidates_are_legal_distinct_and_led_by_the_selected_move(
        finding.candidates,
        legal_actions(planes),
        given.action_index,
    );
    let list = given.candidates->0;
    assert forall|i: int| 0 <= i < list.len() implies exists|k: int|
        0 <= k < account.visits.len() && (#[trigger] account.visits[k]).0.action() == (
        #[trigger] list[i]).action_index && list[i].score == Score::Count(
            account.visits[k].1 as u64,
        ) by {
        assert(drawn_from(finding.candidates, list[i]));
        let p = choose|p: int| #[trigger]
            first_named(finding.candidates, list[i].action_index, p) && list[i].score
                == finding.candidates[p].score && list[i].unit == finding.candidates[p].unit;
        assert(finding.candidates.contains(finding.candidates[p]));
    }
    assert forall|k: int| 0 <= k < account.visits.len() implies lists(
        list,
        (#[trigger] account.visits[k]).0.action() as u8,
    ) || list.len() == 8 && forall|i: int|
        0 <= i < list.len() ==> not_below(
            (#[trigger] list[i]).score,
            Score::Count(account.visits[k].1 as u64),
        ) by {
        let item = RankedMove {
            mv: account.visits[k].0,
            score: Score::Count(account.visits[k].1 as u64),
            unit: Unit::Visits,
        };
        assert(finding.candidates.contains(item));
        let j = choose|j: int| 0 <= j < finding.candidates.len() && finding.candidates[j] == item;
        what_an_answer_leaves_out_is_no_better(
            "mcts"@,
            planes,
            request.config,
            finding,
            given.elapsed_ms,
            j,
        );
    }
    assert(mcts_can_report(planes, params, account));
}

/// An answer of `beam` says what a run of the engine with the request's settings
/// reported: the whole best line and its first move, the value of the line seen
/// from the side to move, and candidates with the values that the report gives to
/// them. A ranked move is missing only where there are eight candidates and none
/// is worse.
pub proof fn a_beam_answer_says_what_was_reported(request: MoveRequest, given: Answer)
    requires
        can_answer("beam"@, request, given),
    ensures
        exists|account: BeamAccount|
            {
                &&& #[trigger] beam_can_report(
                    qfen_planes(request.qfen@),
                    beam_params_of(request.config),
                    account,
                )
                &&& account.best_leaf is Some
                &&& (account.best_leaf->0).0.len() > 0
                &&& given.action_index == (account.best_leaf->0).0[0].action()
                &&& given.pv matches Some(pv) && pv.len() == (account.best_leaf->0).0.len()
                    && forall|i: int|
                    0 <= i < pv.len() ==> #[trigger] pv[i] == (account.best_leaf->0).0[i].action()
                &&& mover(qfen_planes(request.qfen@)) == Some(0u8) ==> given.value == Some(
                    Evaluation::Value((account.best_leaf->0).1),
                )
                &&& mover(qfen_planes(request.qfen@)) == Some(1u8) ==> given.value == Some(
                    Evaluation::Value((account.best_leaf->0).1.opposite()),
                )
                &&& given.candidates is Some
                &&& forall|i: int|
                    0 <= i < (given.candidates->0).len() ==> exists|k: int|
                        0 <= k < account.ranked.len() && (#[trigger] account.ranked[k]).0.action()
                            == (#[trigger] (given.candidates->0)[i]).action_index
                            && (given.candidates->0)[i].score == Score::Value(account.ranked[k].1)
                &&& forall|k: int|
                    0 <= k < account.ranked.len() ==> lists(
                        given.candidates->0,
                        (#[trigger] account.ranked[k]).0.action() as u8,
                    ) || (given.candidates->0).len() == 8 && forall|i: int|
                        0 <= i < (given.candidates->0).len() ==> not_below(
                            (#[trigger] (given.candidates->0)[i]).score,
                            Score::Value(account.ranked[k].1),
                        )
            },
{
    let planes = qfen_planes(request.qfen@);
    let params = beam_params_of(request.config);
    let finding = lemma_finding_of("beam"@, request, given);
    lemma_names_differ();
    let account = choose|account: BeamAccount|
        {
            &&& #[trigger] beam_can_report(planes, params, account)
            &&& beam_report_fits(planes, account)
            &&& beam_finding(account, params.beam_width) == Some(finding)
        };
    let leaf = account.best_leaf->0;
    a_finding_is_usable("beam"@, planes, request.config, finding);
    a_beam_finding_is_usable(planes, request.config, finding);
    every_answer_lists_the_selected_move_first("beam"@, request, given);
    a_beam_finding_says_what_was_reported(account, params.beam_width);
    a_principal_variation_replays_from_the_position(planes, finding.pv, given.action_index);
    assert forall|k: int| 0 <= k < account.ranked.len() implies (
    #[trigger] finding.candidates[k]).mv == account.ranked[k].0 && finding.candidates[k].score
        == Score::Value(account.ranked[k].1) by {
        beam_candidates_are_the_ranked_moves(account, params.beam_width, k);
        limiting_is_monotone(account.ranked[k].1, account.ranked[k].1);
        assert(account.ranked[k].1.magnitude() <= ONE);
    }
    if account.root_player != 0 {
        opposite_turns_the_order_round(leaf.1, leaf.1);
        opposite_turns_the_order_round(
            finding.value->0->Value_0,
            finding.value->0->Value_0,
        );
    }
    candidates_are_legal_distinct_and_led_by_the_selected_move(
        finding.candidates,
        legal_actions(planes),
        given.action_index,
    );
    let list = given.candidates->0;
    assert forall|i: int| 0 <= i < list.len() implies exists|k: int|
        0 <= k < account.ranked.len() && (#[trigger] account.ranked[k]).0.action() == (
        #[trigger] list[i]).action_index && list[i].score == Score::Value(
            account.ranked[k].1,
        ) by {
        assert(drawn_from(finding.candidates, list[i]));
        let p = choose|p: int| #[trigger]
            first_named(finding.candidates, list[i].action_index, p) && list[i].score
                == finding.candidates[p].score && list[i].unit == finding.candidates[p].unit;
        assert(account.ranked[p].0.action() == list[i].action_index);
    }
    assert forall|k: int| 0 <= k < account.ranked.len() implies lists(
        list,
        (#[trigger] account.ranked[k]).0.action() as u8,
    ) || list.len() == 8 && forall|i: int|
        0 <= i < list.len() ==> not_below(
            (#[trigger] list[i]).score,
            Score::Value(account.ranked[k].1),
        ) by {
        assert(finding.candidates[k].mv == account.ranked[k].0);
        what_an_answer_leaves_out_is_no_better(
            "beam"@,
            planes,
            request.config,
            finding,
            given.elapsed_ms,
            k,
        );
    }
    assert(beam_can_report(planes, params, account));
}

} // verus!
