//! Requests and answers, from the request to the answer.
use quantik_api::error::{ApiError, Status};
use quantik_api::model::{
    Certainty, Evaluation, MoveRequest, MoveResponse, Score, SearchConfig, Unit,
};
use quantik_api::schema::{
    API_VERSION, CORE_REVISION, MAX_CANDIDATES, REQUEST_SCHEMA, REQUEST_SCHEMA_LEGACY,
};
use quantik_api::search::{choose_move, run_search};
use quantik_api::service::{health, list_engines};
use quantik_api::values::Value;
use quantik_core::game::has_winning_line;
use quantik_core::moves::{apply_move, generate_legal_moves};
use quantik_core::state::State;

const OPENING_QFEN: &str = "AbC./..../..../....";
/// Row 0 holds A, b, C and the side to move (player 1) completes the line
/// with `d`: a mate in one, so minimax proves it at any depth.
const MATE_IN_ONE_QFEN: &str = OPENING_QFEN;
/// One piece down: no forced result within a shallow search.
const QUIET_QFEN: &str = "A.../..../..../....";
/// Row 0 holds all four shapes and player 0 still has moves.
const WON_QFEN: &str = "AbCd/..../..../....";
const ENGINES: [&str; 3] = ["minimax", "mcts", "beam"];

fn legal_actions(qfen: &str) -> Vec<u8> {
    generate_legal_moves(&State::from_qfen(qfen).expect("valid QFEN").bb)
        .iter()
        .map(|mv| mv.shape * 16 + mv.position)
        .collect()
}

fn shallow() -> SearchConfig {
    SearchConfig {
        max_depth: Some(2),
        iterations: Some(50),
        beam_width: Some(4),
        seed: Some(7),
        ..SearchConfig::default()
    }
}

fn minimax_config(depth: u32) -> SearchConfig {
    SearchConfig { max_depth: Some(depth), seed: Some(7), ..SearchConfig::default() }
}

fn request(schema: &str, qfen: &str, side: u8, legal: Vec<u8>, config: SearchConfig) -> MoveRequest {
    MoveRequest {
        schema: schema.to_owned(),
        qfen: qfen.to_owned(),
        side_to_move: side,
        legal_action_indices: legal,
        config,
    }
}

fn fitting(qfen: &str, config: SearchConfig) -> MoveRequest {
    let state = State::from_qfen(qfen).unwrap();
    let side = generate_legal_moves(&state.bb)[0].player;
    request(REQUEST_SCHEMA, qfen, side, legal_actions(qfen), config)
}

fn answer_to(engine: &str, qfen: &str, config: SearchConfig) -> MoveResponse {
    choose_move(engine, fitting(qfen, config)).unwrap_or_else(|e| panic!("{engine}: {}", e.message))
}

fn post_move(schema: &str) -> Result<MoveResponse, ApiError> {
    choose_move(
        "minimax",
        request(schema, OPENING_QFEN, 1, legal_actions(OPENING_QFEN), minimax_config(2)),
    )
}

fn refusal(engine: &str, request: MoveRequest) -> (u16, String) {
    let error = choose_move(engine, request).expect_err("refused");
    (error.status.code(), error.message)
}

/// The value of an answer as a number.
fn value_of(response: &MoveResponse) -> f64 {
    match response.value.expect("a value") {
        Evaluation::Value(value) => f64::from_bits(value.bits),
        Evaluation::WinProbability(p) => 2.0 * f64::from_bits(p.bits) - 1.0,
    }
}

fn score_of(score: Score) -> f64 {
    match score {
        Score::Value(value) => f64::from_bits(value.bits),
        Score::Count(_) => panic!("a value"),
    }
}

fn assert_contract_extras(engine: &str, qfen: &str, body: &MoveResponse) {
    let legal = legal_actions(qfen);
    if let Some(pv) = &body.pv {
        assert_eq!(pv[0], body.action_index, "{engine}: pv[0]");
    }
    if let Some(list) = &body.candidates {
        assert!(list.len() <= MAX_CANDIDATES, "{engine}: too many");
        let indices: Vec<u8> = list.iter().map(|c| c.action_index).collect();
        assert_eq!(indices[0], body.action_index, "{engine}: rank 0 is the selected move");
        let mut unique = indices.clone();
        unique.sort_unstable();
        unique.dedup();
        assert_eq!(unique.len(), indices.len(), "{engine}: duplicates");
        assert!(indices.iter().all(|i| legal.contains(i)), "{engine}: legal");
    }
}

fn assert_legal(engine: &str, action: u64, legal: &[u8]) {
    assert!(
        legal.iter().any(|l| u64::from(*l) == action),
        "{engine} returned action {action}, which is not in legal_action_indices {legal:?}"
    );
}

#[test]
fn health_identifies_service_and_core_revision() {
    let body = health();
    assert_eq!(body.status, "ok");
    assert_eq!(body.service, "quantik-api");
    assert_eq!(body.version, API_VERSION);
    assert_eq!(body.core_revision, CORE_REVISION);
}

#[test]
fn the_engines_are_listed_in_order() {
    let engines = list_engines();
    let kinds: Vec<&str> = engines.iter().map(|e| e.kind).collect();
    assert_eq!(kinds, ENGINES);
    assert!(engines.iter().all(|e| e.core_revision == CORE_REVISION));
}

#[test]
fn minimax_returns_a_legal_portable_action() {
    let qfen = "AbC./..../..../....";
    let response = choose_move(
        "minimax",
        request(REQUEST_SCHEMA, qfen, 1, legal_actions(qfen), minimax_config(2)),
    )
    .expect("answered");
    assert_eq!(response.action_index, 51);
}

#[test]
fn legacy_request_schema_is_still_accepted() {
    assert!(post_move(REQUEST_SCHEMA_LEGACY).is_ok());
}

#[test]
fn unknown_request_schema_version_is_rejected() {
    let error = post_move("engine-request.v2").expect_err("rejected");
    assert_eq!(error.status, Status::BadRequest);
    assert!(error.message.contains(REQUEST_SCHEMA));
    assert!(!error.message.contains(REQUEST_SCHEMA_LEGACY));
    assert_eq!(error.message, "schema must be engine-request.v1");
}

#[test]
fn response_carries_the_bare_registered_schema_name() {
    let response = post_move(REQUEST_SCHEMA_LEGACY).expect("answered");
    assert_eq!(response.schema, "engine-response.v2");
}

#[test]
fn every_engine_states_its_certainty_and_config() {
    for engine in ENGINES {
        let body = answer_to(engine, OPENING_QFEN, shallow());
        assert!(matches!(body.certainty, Certainty::Estimate | Certainty::Proof), "{engine}");
        assert!(body.engine_config.as_ref().is_some_and(|c| !c.is_empty()));
        assert_eq!(body.engine_version, CORE_REVISION);
        assert_eq!(body.engine_kind, engine);
        assert_contract_extras(engine, OPENING_QFEN, &body);
    }
}

#[test]
fn minimax_returns_its_principal_variation_and_value_candidates() {
    let body = answer_to("minimax", QUIET_QFEN, minimax_config(3));
    let pv = body.pv.as_ref().expect("minimax carries a pv");
    assert!(!pv.is_empty());
    assert_eq!(pv[0], body.action_index);
    let candidates = body.candidates.as_ref().unwrap();
    assert!(candidates.iter().all(|c| c.unit == Unit::Value));
    assert_eq!(score_of(candidates[0].score), value_of(&body));
    assert_eq!(body.certainty, Certainty::Estimate, "depth 3 is heuristic");
    assert_eq!(body.engine_config.as_deref(), Some("depth=3"));
}

#[test]
fn mcts_returns_visit_candidates_and_no_pv() {
    let config = SearchConfig { iterations: Some(200), seed: Some(7), ..SearchConfig::default() };
    let body = answer_to("mcts", OPENING_QFEN, config);
    let candidates = body.candidates.as_ref().unwrap();
    assert!(candidates.iter().all(|c| c.unit == Unit::Visits));
    assert!(candidates.iter().all(|c| matches!(c.score, Score::Count(_))), "integer counts");
    assert_eq!(body.certainty, Certainty::Estimate);
    assert!(body.pv.is_none());
    assert_eq!(body.engine_config.as_deref(), Some("iterations=200"));
}

#[test]
fn beam_returns_a_pv_and_an_estimate() {
    let config = SearchConfig { beam_width: Some(4), seed: Some(7), ..SearchConfig::default() };
    let body = answer_to("beam", OPENING_QFEN, config);
    assert_eq!(body.pv.as_ref().unwrap()[0], body.action_index);
    assert_eq!(body.certainty, Certainty::Estimate);
    assert_eq!(body.engine_config.as_deref(), Some("beam_width=4"));
}

#[test]
fn a_mate_in_range_is_a_proof_and_drops_heuristic_candidates() {
    let body = answer_to("minimax", MATE_IN_ONE_QFEN, minimax_config(2));
    assert_eq!(body.certainty, Certainty::Proof);
    assert_eq!(value_of(&body), 1.0);
    for c in body.candidates.as_ref().unwrap() {
        assert_eq!(score_of(c.score).abs(), 1.0, "only proven entries");
    }
    assert_contract_extras("minimax", MATE_IN_ONE_QFEN, &body);
}

#[test]
fn a_full_search_is_a_proof_of_every_number() {
    // Six squares are left and nobody has won.
    let qfen = "BA.C/..dC/ccBd/.b..";
    for depth in [16, 99] {
        let body = answer_to("minimax", qfen, minimax_config(depth));
        assert_eq!(body.certainty, Certainty::Proof);
        assert_eq!(value_of(&body).abs(), 1.0);
        for c in body.candidates.as_ref().unwrap() {
            assert_eq!(score_of(c.score).abs(), 1.0);
        }
        assert_eq!(body.engine_config.as_deref(), Some("depth=16"));
        assert_contract_extras("minimax", qfen, &body);
    }
}

#[test]
fn a_heuristic_search_is_never_a_proof() {
    let body = answer_to("minimax", QUIET_QFEN, minimax_config(2));
    assert_eq!(body.certainty, Certainty::Estimate);
    assert!(value_of(&body).abs() < 1.0);
    assert_contract_extras("minimax", QUIET_QFEN, &body);
}

#[test]
fn request_legality_must_match_core() {
    let error = choose_move(
        "mcts",
        request(REQUEST_SCHEMA, "..../..../..../....", 0, vec![0], SearchConfig::default()),
    )
    .expect_err("refused");
    assert_eq!(error.status, Status::UnprocessableEntity);
    assert_eq!(error.message, "legal_action_indices do not exactly match quantik-core");
}

#[test]
#[should_panic(expected = "not in legal_action_indices")]
fn legality_assertion_rejects_an_illegal_index() {
    let legal = legal_actions(OPENING_QFEN);
    let illegal = (0..64u64)
        .find(|a| !legal.contains(&(*a as u8)))
        .expect("some index is illegal");
    assert_legal("probe", illegal, &legal);
}

#[test]
fn every_advertised_engine_returns_a_legal_move() {
    let kinds: Vec<String> = list_engines().iter().map(|e| e.kind.to_owned()).collect();
    assert!(!kinds.is_empty(), "no engines advertised");
    let legal = legal_actions(OPENING_QFEN);
    for kind in &kinds {
        let body = choose_move(
            kind,
            request("engine-request.v1", OPENING_QFEN, 1, legal.clone(), shallow()),
        )
        .unwrap_or_else(|e| panic!("{kind}: {}", e.message));
        assert_eq!(body.engine_kind, kind.as_str());
        assert_legal(kind, u64::from(body.action_index), &legal);
    }
}

#[test]
fn a_side_that_does_not_exist_is_refused() {
    let mut bad = fitting(QUIET_QFEN, shallow());
    bad.side_to_move = 2;
    assert_eq!(refusal("mcts", bad), (400, "side_to_move must be 0 or 1".to_owned()));
}

#[test]
fn an_action_off_the_board_is_refused() {
    let mut bad = fitting(QUIET_QFEN, shallow());
    bad.legal_action_indices.push(64);
    assert_eq!(
        refusal("beam", bad),
        (400, "legal_action_indices must contain values from 0 through 63".to_owned())
    );
}

#[test]
fn the_schema_is_looked_at_first_and_the_engine_last() {
    let bad = request("nothing", "nonsense", 9, vec![200], SearchConfig::default());
    assert_eq!(refusal("greedy", bad).1, "schema must be engine-request.v1");
    let bad = request(REQUEST_SCHEMA, "nonsense", 9, vec![200], SearchConfig::default());
    assert_eq!(refusal("greedy", bad).1, "side_to_move must be 0 or 1");
    let bad = request(REQUEST_SCHEMA, WON_QFEN, 1, vec![], SearchConfig::default());
    assert_eq!(refusal("greedy", bad).1, "side_to_move is 1, but core calculated 0");
}

#[test]
fn a_malformed_position_is_refused_in_the_words_of_the_core() {
    let texts = ["", "A.../..../....", "A..../..../..../....", "A.../..E./..../....", "AbC"];
    for text in texts {
        let words = match State::from_qfen(text) {
            Ok(_) => panic!("accepted {text}"),
            Err(words) => words,
        };
        let bad = request(REQUEST_SCHEMA, text, 0, vec![], SearchConfig::default());
        assert_eq!(refusal("minimax", bad), (400, words));
    }
}

#[test]
fn a_position_without_a_side_to_move_is_refused() {
    for engine in ENGINES {
        let bad =
            request(REQUEST_SCHEMA, "A..A/..../..../....", 0, vec![], SearchConfig::default());
        assert_eq!(
            refusal(engine, bad),
            (422, "position is terminal or has no legal moves".to_owned())
        );
    }
}

#[test]
fn the_wrong_side_to_move_is_refused() {
    let mut bad = fitting(QUIET_QFEN, shallow());
    bad.side_to_move = 0;
    assert_eq!(
        refusal("minimax", bad),
        (422, "side_to_move is 0, but core calculated 1".to_owned())
    );
}

#[test]
fn a_missing_and_a_surplus_action_are_refused() {
    let message = "legal_action_indices do not exactly match quantik-core".to_owned();
    let mut missing = fitting(QUIET_QFEN, shallow());
    missing.legal_action_indices.pop();
    assert_eq!(refusal("minimax", missing), (422, message.clone()));
    let mut surplus = fitting(QUIET_QFEN, shallow());
    let illegal = (0..64u8).find(|a| !surplus.legal_action_indices.contains(a)).unwrap();
    surplus.legal_action_indices.push(illegal);
    assert_eq!(refusal("minimax", surplus), (422, message));
}

#[test]
fn an_unknown_engine_is_refused_by_its_quoted_name() {
    assert_eq!(
        refusal("greedy", fitting(QUIET_QFEN, shallow())),
        (404, "unknown engine \"greedy\"".to_owned())
    );
    let name = "a \"b\"\n\\";
    assert_eq!(
        refusal(name, fitting(QUIET_QFEN, shallow())),
        (404, format!("unknown engine {name:?}"))
    );
}

#[test]
fn a_won_position_with_moves_left_is_searched_by_minimax_alone() {
    let body = answer_to("minimax", WON_QFEN, minimax_config(2));
    assert!(legal_actions(WON_QFEN).contains(&body.action_index));
    assert_eq!(
        refusal("mcts", fitting(WON_QFEN, shallow())),
        (422, "MCTS found no move".to_owned())
    );
    assert_eq!(
        refusal("beam", fitting(WON_QFEN, shallow())),
        (422, "Cannot search from an already-terminal root state.".to_owned())
    );
}

#[test]
fn run_search_leaves_the_form_of_a_request_alone() {
    let mut odd = fitting(QUIET_QFEN, minimax_config(1));
    odd.schema = "nothing".to_owned();
    assert!(run_search("minimax", odd.clone()).is_ok());
    assert_eq!(refusal("minimax", odd).0, 400);
}

#[test]
fn order_and_repetition_of_actions_do_not_matter() {
    let plain = answer_to("minimax", QUIET_QFEN, minimax_config(2));
    let mut shuffled = fitting(QUIET_QFEN, minimax_config(2));
    shuffled.legal_action_indices.reverse();
    let first = shuffled.legal_action_indices[0];
    shuffled.legal_action_indices.push(first);
    let other = choose_move("minimax", shuffled).expect("answered");
    assert_eq!(plain.action_index, other.action_index);
    assert_eq!(plain.value, other.value);
    assert_eq!(plain.candidates, other.candidates);
    assert_eq!(plain.pv, other.pv);
}

#[test]
fn both_spellings_of_the_schema_get_the_same_answer() {
    let bare = post_move(REQUEST_SCHEMA).expect("answered");
    let long = post_move(REQUEST_SCHEMA_LEGACY).expect("answered");
    assert_eq!(bare.action_index, long.action_index);
    assert_eq!(bare.value, long.value);
    assert_eq!(bare.candidates, long.candidates);
    assert_eq!(bare.pv, long.pv);
}

#[test]
fn candidates_come_best_first() {
    for engine in ENGINES {
        let body = answer_to(engine, QUIET_QFEN, shallow());
        let list = body.candidates.expect("candidates");
        for pair in list.windows(2) {
            match (pair[0].score, pair[1].score) {
                (Score::Count(a), Score::Count(b)) => assert!(a >= b, "{engine}"),
                (a, b) => assert!(score_of(a) >= score_of(b), "{engine}"),
            }
        }
    }
}

#[test]
fn values_lie_between_minus_one_and_one() {
    for engine in ENGINES {
        for qfen in [OPENING_QFEN, QUIET_QFEN] {
            let body = answer_to(engine, qfen, shallow());
            assert!((-1.0..=1.0).contains(&value_of(&body)), "{engine}");
            assert_eq!(
                matches!(body.value, Some(Evaluation::WinProbability(_))),
                engine == "mcts"
            );
            if engine != "mcts" {
                for c in body.candidates.expect("candidates") {
                    assert!((-1.0..=1.0).contains(&score_of(c.score)), "{engine}");
                }
            }
        }
    }
}

#[test]
fn the_selected_move_is_scored_with_the_value_of_the_answer() {
    for engine in ["minimax", "beam"] {
        for qfen in [OPENING_QFEN, QUIET_QFEN, "AbC./..../.a../...D"] {
            let body = answer_to(engine, qfen, shallow());
            let list = body.candidates.as_ref().expect("candidates");
            assert_eq!(score_of(list[0].score), value_of(&body), "{engine} on {qfen}");
        }
    }
}

#[test]
fn minimax_ends_the_game_at_any_depth() {
    for depth in 1..=4 {
        let body = answer_to("minimax", MATE_IN_ONE_QFEN, minimax_config(depth));
        assert_eq!(body.action_index, 51);
        assert_eq!(body.certainty, Certainty::Proof);
        assert_eq!(body.value, Some(Evaluation::Value(Value::new(1.0f64.to_bits()))));
    }
    // Player 0 can fill no line, and can leave player 1 without a move.
    let qfen = "BA.C/..dC/ccBd/.b..";
    let body = answer_to("minimax", qfen, minimax_config(1));
    let board = State::from_qfen(qfen).unwrap().bb;
    let played = generate_legal_moves(&board)
        .into_iter()
        .find(|m| m.shape * 16 + m.position == body.action_index)
        .unwrap();
    let next = apply_move(&board, &played);
    assert!(has_winning_line(&next) || generate_legal_moves(&next).is_empty());
    assert_eq!(body.certainty, Certainty::Proof);
    assert_eq!(value_of(&body), 1.0);
}

#[test]
fn beam_sees_a_mate_from_the_side_to_move() {
    let body = answer_to("beam", MATE_IN_ONE_QFEN, shallow());
    assert_eq!(body.action_index, 51);
    assert_eq!(value_of(&body), 1.0);
    assert_eq!(body.certainty, Certainty::Estimate);
}

#[test]
fn mcts_finds_the_mate_in_one() {
    let config = SearchConfig { iterations: Some(2_000), seed: Some(7), ..SearchConfig::default() };
    let body = answer_to("mcts", MATE_IN_ONE_QFEN, config);
    assert_eq!(body.action_index, 51);
    assert!(value_of(&body) > 0.9);
}

#[test]
fn a_principal_variation_can_be_played() {
    for engine in ["minimax", "beam"] {
        let body = answer_to(engine, QUIET_QFEN, shallow());
        let pv = body.pv.expect("a line");
        assert!(pv.len() <= 16);
        let mut board = State::from_qfen(QUIET_QFEN).unwrap().bb;
        for action in pv {
            let moves = generate_legal_moves(&board);
            let played = moves
                .iter()
                .find(|m| m.shape * 16 + m.position == action)
                .unwrap_or_else(|| panic!("{engine}: {action} is not legal"));
            board = apply_move(&board, played);
        }
    }
}

#[test]
fn settings_out_of_range_are_limited() {
    let config = SearchConfig {
        max_depth: Some(0),
        time_limit_ms: Some(0),
        iterations: Some(0),
        beam_width: Some(0),
        rollouts: Some(0),
        seed: Some(7),
    };
    let configs: Vec<String> = ENGINES
        .iter()
        .map(|engine| answer_to(engine, QUIET_QFEN, config.clone()).engine_config.unwrap())
        .collect();
    assert_eq!(configs, ["depth=1", "iterations=1", "beam_width=1"]);
}

#[test]
fn settings_left_out_have_defaults() {
    let config = SearchConfig { time_limit_ms: Some(50), seed: Some(7), ..SearchConfig::default() };
    let configs: Vec<String> = ENGINES
        .iter()
        .map(|engine| answer_to(engine, QUIET_QFEN, config.clone()).engine_config.unwrap())
        .collect();
    assert_eq!(configs, ["depth=6", "iterations=1500", "beam_width=64"]);
}

#[test]
fn a_seed_fixes_the_answer() {
    for engine in ENGINES {
        let a = answer_to(engine, QUIET_QFEN, shallow());
        let b = answer_to(engine, QUIET_QFEN, shallow());
        assert_eq!(a.action_index, b.action_index, "{engine}");
        assert_eq!(a.value, b.value, "{engine}");
        assert_eq!(a.candidates, b.candidates, "{engine}");
        assert_eq!(a.pv, b.pv, "{engine}");
    }
}
