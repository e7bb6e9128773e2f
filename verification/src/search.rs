//! Answering a request.
use std::time::Instant;

use vstd::prelude::*;

use crate::board::{
    generate_legal_moves, is_legal, is_qfen, legal_moves, mover, parse_qfen, qfen_complaint,
    qfen_planes, won, Placement, Position,
};
use crate::board_laws::legal_moves_are_the_legal_moves;
use crate::candidates::{contains_byte, indexable, sanitise_candidates, sanitised};
use crate::clock::bounded_millis;
use crate::engines::beam::{a_beam_finding_is_usable, beam_can_find, beam_complaint, search_beam};
use crate::engines::mcts::{a_mcts_finding_is_usable, mcts_can_find, search_mcts};
use crate::engines::minimax::{a_minimax_finding_is_usable, minimax_can_find, search_minimax};
use crate::error::{absent, faulty, malformed, unfit, ApiError, Refusal};
use crate::line::{action_indices, actions, replayable, replayable_pv};
use crate::model::{Answer, MoveRequest, MoveResponse, SearchConfig};
use crate::outcome::{Finding, Outcome};
use crate::request::{form_fault, validate_request};
use crate::schema::{CORE_REVISION, RESPONSE_SCHEMA};
use crate::text::{decimal, decimal_text, quote, quoted, same_text};

verus! {

/// The action indices of the legal moves, ascending.
pub open spec fn legal_actions(planes: Seq<u16>) -> Seq<u8> {
    actions(legal_moves(planes))
}

/// Whether two lists have the same members, however often and in whatever
/// order.
pub open spec fn same_members(a: Seq<u8>, b: Seq<u8>) -> bool {
    forall|byte: u8| #[trigger] a.contains(byte) <==> b.contains(byte)
}

/// The message to a request that has the wrong side to move.
pub open spec fn turn_message(claimed: u8, actual: u8) -> Seq<char> {
    "side_to_move is "@ + decimal(claimed as nat) + ", but core calculated "@ + decimal(
        actual as nat,
    )
}

/// What does not fit between a request and its position, if anything: first the
/// notation, then whether there is a legal move at all, then the side to move,
/// then the set of legal actions. A line that carries all four shapes is not
/// asked about here.
pub open spec fn position_fault(request: MoveRequest) -> Option<Refusal> {
    let planes = qfen_planes(request.qfen@);
    if !is_qfen(request.qfen@) {
        Some(malformed(qfen_complaint(request.qfen@)))
    } else if legal_moves(planes).len() == 0 {
        Some(unfit("position is terminal or has no legal moves"@))
    } else if mover(planes) != Some(request.side_to_move) {
        Some(unfit(turn_message(request.side_to_move, mover(planes)->0)))
    } else if !same_members(request.legal_action_indices@, legal_actions(planes)) {
        Some(unfit("legal_action_indices do not exactly match quantik-core"@))
    } else {
        None
    }
}

/// Whether every member of one list is a member of the other.
fn all_listed(a: &Vec<u8>, b: &Vec<u8>) -> (res: bool)
    ensures
        res == forall|byte: u8| #[trigger] a@.contains(byte) ==> b@.contains(byte),
{
    let mut i: usize = 0;
    while i < a.len()
        invariant
            i <= a@.len(),
            forall|j: int| 0 <= j < i ==> b@.contains(#[trigger] a@[j]),
        decreases a@.len() - i,
    {
        if !contains_byte(b.as_slice(), a[i]) {
            assert(a@.contains(a@[i as int]));
            return false;
        }
        i += 1;
    }
    true
}

/// Checks a request against its position. What comes back is the board and the
/// legal actions on it.
pub fn screen_position(request: &MoveRequest) -> (res: Result<(Position, Vec<u8>), ApiError>)
    ensures
        match res {
            Ok((position, legal)) => {
                &&& position_fault(*request) is None
                &&& position@ == qfen_planes(request.qfen@)
                &&& legal@ == legal_actions(position@)
            },
            Err(error) => position_fault(*request) == Some(error@),
        },
{
    let position = match parse_qfen(request.qfen.as_str()) {
        Ok(position) => position,
        Err(message) => {
            return Err(ApiError::bad_request(message));
        },
    };
    let moves = generate_legal_moves(&position);
    if moves.len() == 0 {
        return Err(
            ApiError::unprocessable("position is terminal or has no legal moves".to_owned()),
        );
    }
    proof {
        legal_moves_are_the_legal_moves(position@);
        assert forall|i: int| 0 <= i < moves@.len() implies is_legal(
            position@,
            #[trigger] moves@[i],
        ) by {
            assert(legal_moves(position@).contains(moves@[i]));
        }
    }
    let current_player: u8 = moves[0].player;
    if current_player != request.side_to_move {
        let message = "side_to_move is ".to_owned().concat(
            decimal_text(request.side_to_move as u64).as_str(),
        ).concat(", but core calculated ").concat(decimal_text(current_player as u64).as_str());
        return Err(ApiError::unprocessable(message));
    }
    let legal = action_indices(moves.as_slice());
    if !all_listed(&request.legal_action_indices, &legal) || !all_listed(
        &legal,
        &request.legal_action_indices,
    ) {
        return Err(
            ApiError::unprocessable(
                "legal_action_indices do not exactly match quantik-core".to_owned(),
            ),
        );
    }
    Ok((position, legal))
}

/// Why an engine does not search a position, if it does not. A name that no
/// engine has is such a reason.
pub open spec fn engine_fault(engine: Seq<char>, planes: Seq<u16>) -> Option<Refusal> {
    if engine == "minimax"@ {
        if legal_moves(planes).len() == 0 {
            Some(unfit("Cannot search from a state with no legal moves."@))
        } else {
            None
        }
    } else if engine == "mcts"@ {
        if legal_moves(planes).len() == 0 || won(planes) {
            Some(unfit("MCTS found no move"@))
        } else {
            None
        }
    } else if engine == "beam"@ {
        match beam_complaint(planes) {
            Some(message) => Some(unfit(message)),
            None => None,
        }
    } else {
        Some(absent("unknown engine "@ + quoted(engine)))
    }
}

/// What the engine of the given name can come to on a position.
pub open spec fn engine_can_find(
    engine: Seq<char>,
    planes: Seq<u16>,
    input: SearchConfig,
    finding: Finding,
) -> bool {
    if engine == "minimax"@ {
        minimax_can_find(planes, input, finding)
    } else if engine == "mcts"@ {
        mcts_can_find(planes, input, finding)
    } else {
        engine == "beam"@ && beam_can_find(planes, input, finding)
    }
}

/// Runs the engine of the given name on a position.
pub fn run_engine(engine: &str, position: &Position, input: &SearchConfig) -> (res: Result<
    Outcome,
    ApiError,
>)
    ensures
        match res {
            Ok(outcome) => engine_fault(engine@, position@) is None && engine_can_find(
                engine@,
                position@,
                *input,
                outcome@,
            ),
            Err(error) => engine_fault(engine@, position@) == Some(error@),
        },
{
    if same_text(engine, "minimax") {
        search_minimax(position, input)
    } else if same_text(engine, "mcts") {
        search_mcts(position, input)
    } else if same_text(engine, "beam") {
        search_beam(position, input)
    } else {
        Err(
            ApiError::not_found(
                "unknown engine ".to_owned().concat(quote(engine).as_str()),
            ),
        )
    }
}

/// The answer that an outcome gives.
pub open spec fn answered(
    engine: Seq<char>,
    planes: Seq<u16>,
    legal: Seq<u8>,
    finding: Finding,
    elapsed_ms: u64,
) -> Answer {
    let selected = finding.best_move.action() as u8;
    Answer {
        schema: RESPONSE_SCHEMA@,
        action_index: selected,
        engine_kind: engine,
        engine_version: CORE_REVISION@,
        elapsed_ms,
        certainty: finding.certainty,
        value: finding.value,
        candidates: sanitised(finding.candidates, legal, selected),
        pv: replayable(planes, finding.pv, selected),
        engine_config: Some(finding.config),
    }
}

/// Whether every action index that an answer to the outcome needs fits a byte.
pub open spec fn usable(finding: Finding) -> bool {
    &&& finding.best_move.action() <= u8::MAX
    &&& indexable(finding.candidates)
    &&& finding.pv.len() > 0 ==> finding.pv[0].action() <= u8::MAX
}

/// Turns an outcome into an answer. An outcome whose move is not legal gives
/// none.
pub fn answer(
    engine: &str,
    position: &Position,
    legal: &Vec<u8>,
    outcome: Outcome,
    elapsed_ms: u64,
) -> (res: Result<MoveResponse, ApiError>)
    requires
        usable(outcome@),
    ensures
        match res {
            Ok(response) => {
                &&& legal@.contains(outcome.best_move.action() as u8)
                &&& response@ == answered(engine@, position@, legal@, outcome@, elapsed_ms)
                &&& response.action_index == outcome.best_move.shape * 16
                    + outcome.best_move.position
                &&& response.elapsed_ms == elapsed_ms
                &&& response.certainty == outcome.certainty
                &&& response.value == outcome.value
            },
            Err(error) => {
                &&& !legal@.contains(outcome.best_move.action() as u8)
                &&& error@ == faulty(
                    "engine returned an action that quantik-core considers illegal"@,
                )
            },
        },
{
    let selected: u8 = crate::board::action_index(&outcome.best_move);
    if !contains_byte(legal.as_slice(), selected) {
        return Err(
            ApiError::internal(
                "engine returned an action that quantik-core considers illegal".to_owned(),
            ),
        );
    }
    Ok(
        MoveResponse {
            schema: RESPONSE_SCHEMA,
            action_index: selected,
            engine_kind: engine.to_owned(),
            engine_version: CORE_REVISION,
            elapsed_ms,
            certainty: outcome.certainty,
            value: outcome.value,
            candidates: sanitise_candidates(
                outcome.candidates.as_slice(),
                legal.as_slice(),
                selected,
            ),
            pv: replayable_pv(position, outcome.pv.as_slice(), selected),
            engine_config: Some(outcome.config),
        },
    )
}

/// Why a request to an engine gets no answer, if it gets none.
pub open spec fn search_fault(engine: Seq<char>, request: MoveRequest) -> Option<Refusal> {
    match position_fault(request) {
        Some(refusal) => Some(refusal),
        None => engine_fault(engine, qfen_planes(request.qfen@)),
    }
}

/// Whether the answer is one that the engine can give to the request.
pub open spec fn can_answer(engine: Seq<char>, request: MoveRequest, given: Answer) -> bool {
    let planes = qfen_planes(request.qfen@);
    exists|finding: Finding|
        {
            &&& #[trigger] engine_can_find(engine, planes, request.config, finding)
            &&& given == answered(
                engine,
                planes,
                legal_actions(planes),
                finding,
                given.elapsed_ms,
            )
        }
}

/// Searches a position for a move. A request that fits its position, to an
/// engine that searches it, is always answered, with one of the actions that the
/// request lists. Which report the engine gives, and how many milliseconds it took
/// as the clock has them, is left open.
pub fn run_search(engine: &str, request: MoveRequest) -> (res: Result<MoveResponse, ApiError>)
    ensures
        match res {
            Ok(response) => {
                &&& search_fault(engine@, request) is None
                &&& can_answer(engine@, request, response@)
                &&& request.legal_action_indices@.contains(response.action_index)
            },
            Err(error) => search_fault(engine@, request) == Some(error@),
        },
{
    let (position, legal) = match screen_position(&request) {
        Ok(screened) => screened,
        Err(error) => {
            return Err(error);
        },
    };
    let started = Instant::now();
    let outcome = match run_engine(engine, &position, &request.config) {
        Ok(outcome) => outcome,
        Err(error) => {
            return Err(error);
        },
    };
    let elapsed_ms: u64 = bounded_millis(started.elapsed().as_millis());
    proof {
        a_finding_is_usable(engine@, position@, request.config, outcome@);
        lemma_legal_action(position@, outcome@.best_move);
    }
    let ghost finding = outcome@;
    let res = answer(engine, &position, &legal, outcome, elapsed_ms);
    proof {
        assert(engine_can_find(engine@, qfen_planes(request.qfen@), request.config, finding));
        assert(legal@.contains(finding.best_move.action() as u8));
        assert(request.legal_action_indices@.contains(finding.best_move.action() as u8));
    }
    res
}

/// Why a request gets no answer, if it gets none: the form of the request, then
/// its position, then the engine.
pub open spec fn refusal(engine: Seq<char>, request: MoveRequest) -> Option<Refusal> {
    match form_fault(request) {
        Some(refusal) => Some(refusal),
        None => search_fault(engine, request),
    }
}

/// Answers a request for a move. As with `run_search`, which report the engine
/// gives and how many milliseconds it took is left open.
pub fn choose_move(engine: &str, request: MoveRequest) -> (res: Result<MoveResponse, ApiError>)
    ensures
        match res {
            Ok(response) => {
                &&& refusal(engine@, request) is None
                &&& can_answer(engine@, request, response@)
                &&& request.legal_action_indices@.contains(response.action_index)
            },
            Err(error) => refusal(engine@, request) == Some(error@),
        },
{
    match validate_request(&request) {
        Ok(()) => run_search(engine, request),
        Err(error) => Err(error),
    }
}

/// A legal move has its action index among the legal actions.
proof fn lemma_legal_action(planes: Seq<u16>, m: Placement)
    requires
        is_legal(planes, m),
    ensures
        legal_actions(planes).contains(m.action() as u8),
{
    legal_moves_are_the_legal_moves(planes);
    assert(legal_moves(planes).contains(m));
    let i = choose|i: int| 0 <= i < legal_moves(planes).len() && legal_moves(planes)[i] == m;
    assert(legal_actions(planes)[i] == m.action() as u8);
}

/// Whatever an engine comes to, its move is legal, every candidate is legal, and
/// the chosen move is among the candidates.
pub proof fn a_finding_is_usable(
    engine: Seq<char>,
    planes: Seq<u16>,
    input: SearchConfig,
    finding: Finding,
)
    requires
        engine_can_find(engine, planes, input, finding),
    ensures
        is_legal(planes, finding.best_move),
        forall|i: int|
            0 <= i < finding.candidates.len() ==> is_legal(
                planes,
                (#[trigger] finding.candidates[i]).mv,
            ),
        exists|i: int|
            0 <= i < finding.candidates.len() && (#[trigger] finding.candidates[i]).mv
                == finding.best_move,
        usable(finding),
{
    if engine == "minimax"@ {
        a_minimax_finding_is_usable(planes, input, finding);
    } else if engine == "mcts"@ {
        a_mcts_finding_is_usable(planes, input, finding);
    } else {
        a_beam_finding_is_usable(planes, input, finding);
    }
    assert forall|i: int| 0 <= i < finding.candidates.len() implies (
    #[trigger] finding.candidates[i]).mv.action() <= u8::MAX by {
        assert(is_legal(planes, finding.candidates[i].mv));
    }
}

} // verus!
