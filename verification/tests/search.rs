use grob::game::Game;
use grob::score::Score;
use grob::search::{
    evaluate, quiescence, run_job, search, Job, SearchConstraints, SearchRequest,
};
use grob::transposition::{Transposition, TranspositionTableBase};
use std::sync::atomic::AtomicBool;
use std::time::{Duration, Instant};

fn unlimited() -> SearchConstraints {
    SearchConstraints { nodes_max: None, deadline: None }
}

#[test]
fn evaluate_counts_material() {
    let mut game = Game::initial_position();
    let result = evaluate(&mut game, false);
    assert_eq!(result.score, Score::Cp(0));
    assert_eq!(result.nodes, 1);
    assert!(!result.is_canceled);
    assert!(result.best_move.is_some());
    // Black is short of a knight: three pawns for white.
    let mut game = Game::try_from_fen("rnbqkb1r/pppppppp/8/8/8/8/PPPPPPPP/RNBQKBNR w KQkq - 0 1").ok().unwrap();
    assert_eq!(evaluate(&mut game, true).score, Score::Cp(300));
    let mut game = Game::try_from_fen("rnbqkb1r/pppppppp/8/8/8/8/PPPPPPPP/RNBQKBNR b KQkq - 0 1").ok().unwrap();
    let result = evaluate(&mut game, true);
    assert_eq!(result.score, Score::Cp(-300));
    assert!(result.is_canceled);
    let mut game = Game::try_from_fen("4k3/8/8/8/8/8/8/QQ2K3 w - - 0 1").ok().unwrap();
    assert_eq!(evaluate(&mut game, false).score, Score::Cp(1800));
}

#[test]
fn evaluate_endings() {
    let mut game =
        Game::try_from_fen("rnb1kbnr/pppp1ppp/8/4p3/6Pq/5P2/PPPPP2P/RNBQKBNR w KQkq - 1 3").ok().unwrap();
    let result = evaluate(&mut game, false);
    assert_eq!(result.best_move, None);
    assert_eq!(result.score, Score::Mated(0));
    let mut game = Game::try_from_fen("7k/5Q2/6K1/8/8/8/8/8 b - - 0 1").ok().unwrap();
    let result = evaluate(&mut game, false);
    assert_eq!(result.best_move, None);
    assert_eq!(result.score, Score::Cp(0));
}

#[test]
fn quiescence_marks_stops() {
    let mut game = Game::initial_position();
    let stop = AtomicBool::new(true);
    assert!(quiescence(&stop, &mut game, Score::Mated(0), Score::Mating(1)).is_canceled);
    let stop = AtomicBool::new(false);
    assert!(!quiescence(&stop, &mut game, Score::Mated(0), Score::Mating(1)).is_canceled);
}

#[test]
fn search_keeps_the_game_and_fills_the_table() {
    let mut tt: TranspositionTableBase<Transposition> = TranspositionTableBase::new(1024);
    let stop = AtomicBool::new(false);
    let mut game = Game::initial_position();
    let hash = game.zobrist();
    let result = search(&mut tt, &stop, &mut game, 2, unlimited(), Score::Mated(0), Score::Mating(1));
    assert_eq!(game.zobrist(), hash);
    assert!(game.is_history_empty());
    assert!(result.nodes > 20);
    assert!(!result.is_canceled);
    let best = result.best_move.unwrap();
    let entry = tt.get(hash).unwrap();
    assert!(entry.is_exact());
    assert_eq!(entry.get().best_move, best);
    assert_eq!(entry.get().depth, 2);
    // The entry's move is pseudo-legal here, so the same search runs again.
    let again = search(&mut tt, &stop, &mut game, 2, unlimited(), Score::Mated(0), Score::Mating(1));
    assert_eq!(again.nodes, result.nodes);
    assert_eq!(again.best_move, Some(best));
    assert_eq!(again.score, result.score);
}

#[test]
fn search_stops_when_asked() {
    let mut tt: TranspositionTableBase<Transposition> = TranspositionTableBase::new(16);
    let stop = AtomicBool::new(true);
    let mut game = Game::initial_position();
    let result = search(&mut tt, &stop, &mut game, 3, unlimited(), Score::Mated(0), Score::Mating(1));
    assert!(result.is_canceled);
    assert_eq!(result.nodes, 1);
    let stop = AtomicBool::new(false);
    let past = Instant::now().checked_sub(Duration::from_secs(1)).unwrap();
    let constraints = SearchConstraints { nodes_max: None, deadline: Some(past) };
    assert!(constraints.time_fails());
    let result = search(&mut tt, &stop, &mut game, 3, constraints, Score::Mated(0), Score::Mating(1));
    assert!(result.is_canceled);
    assert_eq!(result.nodes, 1);
}

#[test]
fn search_node_limit_cancels() {
    let mut tt: TranspositionTableBase<Transposition> = TranspositionTableBase::new(16);
    let stop = AtomicBool::new(false);
    let mut game = Game::initial_position();
    let constraints = SearchConstraints { nodes_max: Some(2), deadline: None };
    assert!(!constraints.nodes_fail(2));
    assert!(constraints.nodes_fail(3));
    assert!(!unlimited().nodes_fail(u64::MAX));
    assert!(!unlimited().time_fails());
    let result = search(&mut tt, &stop, &mut game, 1, constraints, Score::Mated(0), Score::Mating(1));
    assert!(result.is_canceled);
    assert_eq!(result.nodes, 3);
}

#[test]
fn search_without_moves_scores_the_ending() {
    let mut tt: TranspositionTableBase<Transposition> = TranspositionTableBase::new(16);
    let stop = AtomicBool::new(false);
    let mut game =
        Game::try_from_fen("rnb1kbnr/pppp1ppp/8/4p3/6Pq/5P2/PPPPP2P/RNBQKBNR w KQkq - 1 3").ok().unwrap();
    let result = search(&mut tt, &stop, &mut game, 2, unlimited(), Score::Mated(0), Score::Mating(1));
    assert_eq!(result.best_move, None);
    assert_eq!(result.score, Score::Mated(0));
}

#[test]
fn job_keeps_its_batch_index() {
    let mut tt: TranspositionTableBase<Transposition> = TranspositionTableBase::new(64);
    let stop = AtomicBool::new(false);
    let job = Job {
        request: SearchRequest { game: Game::initial_position(), depth: 1, nodes: None, deadline: None },
        batch_index: 7,
    };
    let response = run_job(&mut tt, &stop, job);
    assert_eq!(response.batch_index, 7);
    assert_eq!(response.result.nodes, 21);
    assert!(response.result.best_move.is_some());
}
