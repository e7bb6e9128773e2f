//! The parts of the service, one by one.
use quantik_api::board::{action_index, Placement, Position};
use quantik_api::candidates::sanitise_candidates;
use quantik_api::clock::bounded_millis;
use quantik_api::engines::beam::{
    beam_outcome, beam_params, beam_refusal, search_beam, BeamFailure, BeamReport, Leaf,
};
use quantik_api::engines::mcts::{mcts_outcome, mcts_params, search_mcts, MctsReport};
use quantik_api::engines::minimax::{
    minimax_outcome, minimax_params, search_minimax, MinimaxReport, RootValues,
};
use quantik_api::error::Status;
use quantik_api::line::replayable_pv;
use quantik_api::model::{Certainty, Evaluation, MoveRequest, Score, SearchConfig, Unit};
use quantik_api::outcome::Outcome;
use quantik_api::ranking::{rank_best_first, RankedMove};
use quantik_api::request::validate_request;
use quantik_api::schema::{CORE_REVISION, MAX_CANDIDATES, REQUEST_SCHEMA};
use quantik_api::search::{answer, run_engine, screen_position};
use quantik_api::text::decimal_text;
use quantik_api::values::{is_proven, Value};
use quantik_core::moves::generate_legal_moves;
use quantik_core::state::State;

const EMPTY_QFEN: &str = "..../..../..../....";

fn position(qfen: &str) -> Position {
    Position { planes: State::from_qfen(qfen).unwrap().bb.planes }
}

fn value(x: f64) -> Value {
    Value { bits: x.to_bits() }
}

fn by_value(position: u8, x: f64) -> RankedMove {
    RankedMove { mv: Placement::new(0, 0, position), score: Score::Value(value(x)), unit: Unit::Value }
}

fn by_count(position: u8, n: u64) -> RankedMove {
    RankedMove { mv: Placement::new(0, 0, position), score: Score::Count(n), unit: Unit::Visits }
}

fn squares(list: &[RankedMove]) -> Vec<u8> {
    list.iter().map(|r| r.mv.position).collect()
}

fn empty_request(legal: Vec<u8>) -> MoveRequest {
    MoveRequest {
        schema: REQUEST_SCHEMA.to_owned(),
        qfen: EMPTY_QFEN.to_owned(),
        side_to_move: 0,
        legal_action_indices: legal,
        config: SearchConfig::default(),
    }
}

#[test]
fn candidates_are_legal_distinct_capped_and_lead_with_the_selected_move() {
    let mv = |shape, position| Placement {
        player: 0,
        shape,
        position,
    };
    let ranked: Vec<RankedMove> = (0..12u8)
        .map(|i| RankedMove {
            mv: mv(0, i),
            score: Score::Count(100 - u64::from(i)),
            unit: Unit::Visits,
        })
        .chain([RankedMove { mv: mv(0, 3), score: Score::Count(1), unit: Unit::Visits }])
        .collect();
    let legal: Vec<u8> = (0..12).filter(|i| *i != 1).collect();
    let list = sanitise_candidates(&ranked, &legal, 4).unwrap();
    assert_eq!(list.len(), MAX_CANDIDATES);
    assert_eq!(list[0].action_index, 4);
    assert!(list.iter().all(|c| c.action_index != 1), "illegal dropped");
    let mut seen: Vec<u8> = list.iter().map(|c| c.action_index).collect();
    seen.sort_unstable();
    seen.dedup();
    assert_eq!(seen.len(), list.len());
    assert!(sanitise_candidates(&ranked, &legal, 40).is_none());
}

#[test]
fn candidates_keep_the_order_and_the_first_score() {
    let ranked = vec![by_count(5, 9), by_count(2, 8), by_count(5, 7), by_count(7, 6)];
    let list = sanitise_candidates(&ranked, &[2, 5, 7], 7).unwrap();
    let pairs: Vec<(u8, Score)> = list.iter().map(|c| (c.action_index, c.score)).collect();
    assert_eq!(pairs, [(7, Score::Count(6)), (5, Score::Count(9)), (2, Score::Count(8))]);
    assert!(list.iter().all(|c| c.unit == Unit::Visits));
}

#[test]
fn candidates_without_the_selected_move_are_dropped() {
    assert!(sanitise_candidates(&[], &[0], 0).is_none());
    assert!(sanitise_candidates(&[by_count(3, 1)], &[4], 3).is_none());
    assert!(sanitise_candidates(&[by_count(3, 1)], &[3, 4], 4).is_none());
}

#[test]
fn an_action_index_is_shape_times_sixteen_plus_square() {
    for action in 0..64u8 {
        let mv = Placement::new(action % 2, action / 16, action % 16);
        assert_eq!(action_index(&mv), action);
    }
    assert_eq!(action_index(&Placement::new(1, 3, 3)), 51);
}

#[test]
fn a_value_behaves_as_its_number() {
    let numbers = [
        f64::NEG_INFINITY,
        -2.0,
        -1.0,
        -0.5,
        -0.0,
        0.0,
        f64::MIN_POSITIVE,
        0.25,
        1.0,
        1.0 + f64::EPSILON,
        7.5,
        f64::INFINITY,
        f64::NAN,
        -f64::NAN,
    ];
    for a in numbers {
        assert_eq!(value(a).negated().bits, (-a).to_bits());
        assert_eq!(value(a).negated().negated(), value(a));
        assert_eq!(value(a).clamped().bits, a.clamp(-1.0, 1.0).to_bits());
        assert_eq!(is_proven(value(a)), a.abs() == 1.0);
        for b in numbers {
            assert_eq!(value(a).above(value(b)), a.total_cmp(&b).is_gt(), "{a} {b}");
            if value(a).above(value(b)) {
                assert!(value(b).negated().above(value(a).negated()));
            }
        }
    }
}

#[test]
fn numbers_are_written_in_decimal() {
    for n in [0, 7, 9, 10, 99, 100, 1_000_000, u64::MAX] {
        assert_eq!(decimal_text(n), n.to_string());
    }
}

#[test]
fn milliseconds_are_cut_at_the_largest_number() {
    assert_eq!(bounded_millis(0), 0);
    assert_eq!(bounded_millis(1_234), 1_234);
    assert_eq!(bounded_millis(u128::from(u64::MAX)), u64::MAX);
    assert_eq!(bounded_millis(u128::from(u64::MAX) + 1), u64::MAX);
}

#[test]
fn every_status_has_its_code() {
    assert_eq!(Status::BadRequest.code(), 400);
    assert_eq!(Status::NotFound.code(), 404);
    assert_eq!(Status::UnprocessableEntity.code(), 422);
    assert_eq!(Status::InternalServerError.code(), 500);
}

#[test]
fn ranking_is_stable_and_descends() {
    let list = vec![
        by_value(0, 0.5),
        by_value(1, -1.0),
        by_value(2, 1.0),
        by_value(3, 0.5),
        by_value(4, -0.0),
        by_value(5, 0.0),
    ];
    assert_eq!(squares(&rank_best_first(&list)), [2, 0, 3, 5, 4, 1]);
    let list = vec![by_count(0, 3), by_count(1, 9), by_count(2, 3), by_count(3, 0)];
    assert_eq!(squares(&rank_best_first(&list)), [1, 0, 2, 3]);
    assert!(rank_best_first(&Vec::new()).is_empty());
}

#[test]
fn scores_compare_within_their_unit() {
    assert!(Score::Count(2).outranks(Score::Count(1)));
    assert!(!Score::Count(1).outranks(Score::Count(1)));
    assert!(Score::Value(value(0.1)).outranks(Score::Value(value(-0.9))));
    assert!(!Score::Value(value(-0.9)).outranks(Score::Value(value(0.1))));
}

#[test]
fn a_line_is_kept_only_if_it_can_be_played() {
    let board = position(EMPTY_QFEN);
    let good = vec![Placement::new(0, 0, 0), Placement::new(1, 1, 1), Placement::new(0, 2, 2)];
    assert_eq!(replayable_pv(&board, &good, 0), Some(vec![0, 17, 34]));
    assert_eq!(replayable_pv(&board, &good, 1), None, "another move was selected");
    assert_eq!(replayable_pv(&board, &[], 0), None, "an empty line");
    let turn = vec![Placement::new(0, 0, 0), Placement::new(0, 1, 1)];
    assert_eq!(replayable_pv(&board, &turn, 0), None, "the same side twice");
    let blocked = vec![Placement::new(0, 0, 0), Placement::new(1, 0, 3)];
    assert_eq!(replayable_pv(&board, &blocked, 0), None, "the shape stands in the row");
    let taken = vec![Placement::new(0, 0, 0), Placement::new(1, 1, 0)];
    assert_eq!(replayable_pv(&board, &taken, 0), None, "the square is taken");
    let long = vec![Placement::new(0, 0, 0); 65];
    assert_eq!(replayable_pv(&board, &long, 0), None, "too long");
}

#[test]
fn no_line_has_more_than_sixteen_moves() {
    let mut board = State::from_qfen(EMPTY_QFEN).unwrap().bb;
    let mut line: Vec<Placement> = Vec::new();
    while let Some(m) = generate_legal_moves(&board).first().copied() {
        line.push(Placement::new(m.player, m.shape, m.position));
        board = quantik_core::moves::apply_move(&board, &m);
    }
    assert!(line.len() <= 16);
    let first = action_index(&line[0]);
    let replayed = replayable_pv(&position(EMPTY_QFEN), &line, first).expect("playable");
    assert_eq!(replayed.len(), line.len());
}

#[test]
fn the_form_of_a_request_is_checked() {
    assert!(validate_request(&empty_request(vec![])).is_ok());
    assert!(validate_request(&empty_request(vec![63, 0])).is_ok());
    let error = validate_request(&empty_request(vec![0, 64])).unwrap_err();
    assert_eq!(error.status, Status::BadRequest);
    assert_eq!(error.message, "legal_action_indices must contain values from 0 through 63");
}

#[test]
fn a_screened_position_comes_with_its_legal_actions() {
    let all: Vec<u8> = (0..64).collect();
    let (board, legal) = screen_position(&empty_request(all.clone())).unwrap();
    assert_eq!(board.planes, [0u16; 8]);
    assert_eq!(legal, all);

    let request = MoveRequest {
        qfen: "A.../..../.d../....".to_owned(),
        legal_action_indices: generate_legal_moves(
            &State::from_qfen("A.../..../.d../....").unwrap().bb,
        )
        .iter()
        .map(|m| m.shape * 16 + m.position)
        .collect(),
        ..empty_request(vec![])
    };
    let (board, legal) = screen_position(&request).unwrap();
    assert_eq!(board.planes, [1, 0, 0, 0, 0, 0, 0, 1 << 9]);
    assert!(!legal.contains(&0) && !legal.contains(&9), "taken squares");
    assert!(!legal.contains(&(48 + 8)) && !legal.contains(&(48 + 1)), "row and column of d");
    assert!(legal.contains(&(48 + 6)) && legal.contains(&1));
}

#[test]
fn settings_are_limited_and_have_defaults() {
    let none = SearchConfig::default();
    let high = SearchConfig {
        max_depth: Some(99),
        time_limit_ms: Some(u64::MAX),
        iterations: Some(u32::MAX),
        beam_width: Some(usize::MAX),
        rollouts: Some(u32::MAX),
        seed: Some(5),
    };
    let low = SearchConfig {
        max_depth: Some(0),
        time_limit_ms: Some(0),
        iterations: Some(0),
        beam_width: Some(0),
        rollouts: Some(0),
        seed: None,
    };
    let inside = SearchConfig {
        max_depth: Some(7),
        time_limit_ms: Some(250),
        iterations: Some(321),
        beam_width: Some(12),
        rollouts: Some(3),
        seed: Some(1),
    };
    let minimax = |c: &SearchConfig| {
        let p = minimax_params(c);
        (p.max_depth, p.time_limit_ms, p.seed)
    };
    assert_eq!(minimax(&none), (6, None, None));
    assert_eq!(minimax(&high), (16, Some(300_000), Some(5)));
    assert_eq!(minimax(&low), (1, Some(1), None));
    assert_eq!(minimax(&inside), (7, Some(250), Some(1)));
    let mcts = |c: &SearchConfig| {
        let p = mcts_params(c);
        (p.max_iterations, p.max_depth, p.time_limit_ms, p.seed)
    };
    assert_eq!(mcts(&none), (1_500, 16, None, None));
    assert_eq!(mcts(&high), (1_000_000, 16, Some(300_000), Some(5)));
    assert_eq!(mcts(&low), (1, 1, Some(1), None));
    assert_eq!(mcts(&inside), (321, 7, Some(250), Some(1)));
    let beam = |c: &SearchConfig| {
        let p = beam_params(c);
        (p.beam_width, p.max_depth, p.rollouts, p.time_limit_ms, p.seed)
    };
    assert_eq!(beam(&none), (64, 8, 8, None, None));
    assert_eq!(beam(&high), (100_000, 16, 100_000, Some(300_000), Some(5)));
    assert_eq!(beam(&low), (1, 1, 1, Some(1), None));
    assert_eq!(beam(&inside), (12, 7, 3, Some(250), Some(1)));
}

fn minimax_report(depth_reached: u32, headline: f64) -> MinimaxReport {
    MinimaxReport {
        best_move: Placement::new(0, 0, 1),
        depth_reached,
        pv: vec![Placement::new(0, 0, 1)],
        root: Some(RootValues {
            value: value(headline),
            moves: vec![
                (Placement::new(0, 0, 0), Some(value(0.25))),
                (Placement::new(0, 0, 1), Some(value(headline))),
                (Placement::new(0, 0, 2), None),
                (Placement::new(0, 0, 3), Some(value(-1.0))),
            ],
        }),
    }
}

#[test]
fn a_proven_headline_drops_the_estimates() {
    let outcome = minimax_outcome(minimax_report(3, 1.0), 5);
    assert_eq!(outcome.certainty, Certainty::Proof);
    assert_eq!(outcome.value, Some(Evaluation::Value(value(1.0))));
    assert_eq!(squares(&outcome.candidates), [1, 3]);
    assert_eq!(outcome.config, "depth=5");
    assert_eq!(outcome.pv, [Placement::new(0, 0, 1)]);
}

#[test]
fn a_search_to_the_end_of_the_game_keeps_every_candidate() {
    let outcome = minimax_outcome(minimax_report(16, 0.5), 16);
    assert_eq!(outcome.certainty, Certainty::Proof);
    assert_eq!(squares(&outcome.candidates), [1, 0, 3]);
    assert_eq!(outcome.config, "depth=16");
    let outcome = minimax_outcome(minimax_report(15, 0.5), 16);
    assert_eq!(outcome.certainty, Certainty::Estimate);
}

#[test]
fn an_unproven_headline_is_an_estimate() {
    let outcome = minimax_outcome(minimax_report(4, 0.5), 4);
    assert_eq!(outcome.certainty, Certainty::Estimate);
    assert_eq!(squares(&outcome.candidates), [1, 0, 3]);
    assert!(outcome.candidates.iter().all(|c| c.unit == Unit::Value));
}

#[test]
fn a_report_without_values_is_an_estimate_without_candidates() {
    let report = MinimaxReport { root: None, ..minimax_report(2, 1.0) };
    let outcome = minimax_outcome(report, 2);
    assert_eq!(outcome.value, None);
    assert_eq!(outcome.certainty, Certainty::Estimate);
    assert!(outcome.candidates.is_empty());
}

#[test]
fn visits_are_ranked_by_their_number() {
    let report = MctsReport {
        best_move: Placement::new(1, 2, 3),
        win_probability: value(0.75),
        visits: vec![
            (Placement::new(1, 0, 4), 3),
            (Placement::new(1, 2, 3), 90),
            (Placement::new(1, 0, 5), 3),
        ],
    };
    let outcome = mcts_outcome(report, 96);
    assert_eq!(outcome.best_move, Placement::new(1, 2, 3));
    assert_eq!(outcome.value, Some(Evaluation::WinProbability(value(0.75))));
    assert_eq!(outcome.certainty, Certainty::Estimate);
    assert_eq!(squares(&outcome.candidates), [3, 4, 5]);
    assert_eq!(outcome.candidates[0].score, Score::Count(90));
    assert!(outcome.pv.is_empty());
    assert_eq!(outcome.config, "iterations=96");
}

fn beam_report(root_player: u8, best_leaf: Option<Leaf>) -> BeamReport {
    BeamReport {
        root_player,
        best_leaf,
        ranked: vec![
            (Placement::new(root_player, 1, 6), value(1.5)),
            (Placement::new(root_player, 1, 7), value(-0.25)),
        ],
    }
}

#[test]
fn the_value_of_a_beam_line_is_seen_from_the_side_to_move() {
    for (player, expected) in [(0u8, -0.5), (1u8, 0.5)] {
        let leaf = Leaf { moves: vec![Placement::new(player, 1, 7)], value: value(-0.5) };
        let outcome = beam_outcome(beam_report(player, Some(leaf)), 9).unwrap();
        assert_eq!(outcome.best_move, Placement::new(player, 1, 7));
        assert_eq!(outcome.value, Some(Evaluation::Value(value(expected))));
        assert_eq!(outcome.pv, [Placement::new(player, 1, 7)]);
        assert_eq!(outcome.certainty, Certainty::Estimate);
        assert_eq!(outcome.config, "beam_width=9");
        let scores: Vec<Score> = outcome.candidates.iter().map(|c| c.score).collect();
        assert_eq!(scores, [Score::Value(value(1.0)), Score::Value(value(-0.25))]);
    }
}

#[test]
fn beam_falls_back_on_its_best_first_move() {
    let empty = Leaf { moves: Vec::new(), value: value(0.0) };
    for leaf in [None, Some(empty)] {
        let outcome = beam_outcome(beam_report(1, leaf), 2).unwrap();
        assert_eq!(outcome.best_move, Placement::new(1, 1, 6));
        assert_eq!(outcome.value, Some(Evaluation::Value(value(1.5))));
        assert!(outcome.pv.is_empty());
        assert_eq!(outcome.candidates.len(), 2);
    }
}

#[test]
fn beam_without_any_move_is_refused() {
    let report = BeamReport { root_player: 0, best_leaf: None, ranked: Vec::new() };
    let error = beam_outcome(report, 2).unwrap_err();
    assert_eq!(error.status, Status::UnprocessableEntity);
    assert_eq!(error.message, "beam search found no move");
}

#[test]
fn beam_failures_have_their_status() {
    let error = beam_refusal(BeamFailure::Settings("width".to_owned()));
    assert_eq!((error.status.code(), error.message), (400, "width".to_owned()));
    let error = beam_refusal(BeamFailure::Position("board".to_owned()));
    assert_eq!((error.status.code(), error.message), (422, "board".to_owned()));
}

#[test]
fn engines_refuse_a_board_without_a_side_to_move() {
    let board = position("A..A/..../..../....");
    let config = SearchConfig::default();
    let error = search_minimax(&board, &config).unwrap_err();
    assert_eq!(error.status, Status::UnprocessableEntity);
    assert_eq!(error.message, "Cannot search from a state with no legal moves.");
    let error = search_mcts(&board, &config).unwrap_err();
    assert_eq!(error.message, "MCTS found no move");
    let error = search_beam(&board, &config).unwrap_err();
    assert_eq!(error.message, "Inconsistent root piece counts.");
}

#[test]
fn engines_refuse_a_board_without_legal_moves() {
    // Player 1 is to move, has no square left, and no line carries all four shapes.
    let qfen = "BA.C/..dC/ccBd/Ab..";
    let board = position(qfen);
    assert!(generate_legal_moves(&State::from_qfen(qfen).unwrap().bb).is_empty());
    let config = SearchConfig::default();
    let error = search_beam(&board, &config).unwrap_err();
    assert_eq!(error.status, Status::UnprocessableEntity);
    assert_eq!(error.message, "Cannot search from a root state with no legal moves.");
    let error = search_mcts(&board, &config).unwrap_err();
    assert_eq!(error.message, "MCTS found no move");
    let error = search_minimax(&board, &config).unwrap_err();
    assert_eq!(error.message, "Cannot search from a state with no legal moves.");
}

#[test]
fn minimax_searches_a_board_with_two_pieces_on_a_square() {
    // A and b share the first square, and row 0 lacks one shape and one square.
    let board = Position { planes: [1, 0, 2, 0, 0, 1, 4, 0] };
    let config = SearchConfig { max_depth: Some(3), seed: Some(7), ..SearchConfig::default() };
    let outcome = search_minimax(&board, &config).expect("searched");
    assert_eq!(outcome.best_move.player, 0);
    assert_eq!(outcome.config, "depth=3");
}

#[test]
fn the_engine_is_found_by_its_name() {
    let board = position("AbC./..../..../....");
    let config = SearchConfig {
        max_depth: Some(2),
        iterations: Some(50),
        beam_width: Some(4),
        rollouts: Some(2),
        seed: Some(7),
        ..SearchConfig::default()
    };
    let configs: Vec<String> = ["minimax", "mcts", "beam"]
        .iter()
        .map(|engine| run_engine(engine, &board, &config).unwrap().config)
        .collect();
    assert_eq!(configs, ["depth=2", "iterations=50", "beam_width=4"]);
    let error = run_engine("Minimax", &board, &config).unwrap_err();
    assert_eq!(error.status, Status::NotFound);
    assert_eq!(error.message, "unknown engine \"Minimax\"");
}

fn outcome(best_move: Placement, pv: Vec<Placement>) -> Outcome {
    Outcome {
        best_move,
        value: Some(Evaluation::Value(value(0.5))),
        certainty: Certainty::Estimate,
        candidates: vec![by_value(2, 0.75), by_value(1, 0.5), by_value(9, 0.25)],
        pv,
        config: "depth=2".to_owned(),
    }
}

#[test]
fn an_illegal_move_of_an_engine_is_a_fault() {
    let board = position(EMPTY_QFEN);
    let error =
        answer("minimax", &board, &vec![0, 1], outcome(Placement::new(0, 0, 5), Vec::new()), 3)
            .unwrap_err();
    assert_eq!(error.status, Status::InternalServerError);
    assert_eq!(error.message, "engine returned an action that quantik-core considers illegal");
}

#[test]
fn an_outcome_becomes_an_answer() {
    let board = position(EMPTY_QFEN);
    let line = vec![Placement::new(0, 0, 1), Placement::new(1, 1, 0)];
    let response =
        answer("minimax", &board, &vec![0, 1, 2], outcome(Placement::new(0, 0, 1), line), 42).unwrap();
    assert_eq!(response.schema, "engine-response.v2");
    assert_eq!(response.action_index, 1);
    assert_eq!(response.engine_kind, "minimax");
    assert_eq!(response.engine_version, CORE_REVISION);
    assert_eq!(response.elapsed_ms, 42);
    assert_eq!(response.certainty, Certainty::Estimate);
    assert_eq!(response.value, Some(Evaluation::Value(value(0.5))));
    let indices: Vec<u8> =
        response.candidates.unwrap().iter().map(|c| c.action_index).collect();
    assert_eq!(indices, [1, 2]);
    assert_eq!(response.pv, Some(vec![1, 16]));
    assert_eq!(response.engine_config.as_deref(), Some("depth=2"));
}

#[test]
fn an_unusable_list_and_line_are_left_out() {
    let board = position(EMPTY_QFEN);
    let line = vec![Placement::new(0, 0, 2)];
    let response =
        answer("minimax", &board, &vec![0, 1, 2], outcome(Placement::new(0, 0, 0), line), 0).unwrap();
    assert_eq!(response.action_index, 0);
    assert!(response.candidates.is_none());
    assert!(response.pv.is_none());
}
