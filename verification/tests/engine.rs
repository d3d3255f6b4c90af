use grob::engine::{
    check_action, collect, command_action, depth_limit, merge_result, root_moves, time_budget, CheckAction,
    SearchLimits, ServerAction,
};
use grob::game::Game;
use grob::movegen::{ChessMove, ChessMoveHint};
use grob::score::Score;
use grob::search::SearchResult;
use grob::uci::{Command, Go};
use grob::{Color, Square};

fn mv(from: u8, to: u8) -> ChessMove {
    ChessMove {
        from: Square::from_repr(from).unwrap(),
        to: Square::from_repr(to).unwrap(),
        hint: ChessMoveHint::Quiet,
    }
}

fn res(score: Score, nodes: u64, is_canceled: bool) -> SearchResult {
    SearchResult { score, nodes, best_move: None, is_canceled }
}

fn no_limits() -> SearchLimits {
    SearchLimits { depth: None, nodes: None, mate: None, deadline: None }
}

#[test]
fn actions_for_commands() {
    assert_eq!(command_action(&Command::Uci, false), ServerAction::Identify);
    assert_eq!(command_action(&Command::IsReady, true), ServerAction::ReadyOk);
    assert_eq!(command_action(&Command::UciNewGame, false), ServerAction::ClearHash);
    assert_eq!(command_action(&Command::UciNewGame, true), ServerAction::Defer);
    let position = Command::Position(Game::initial_position());
    assert_eq!(command_action(&position, false), ServerAction::SetPosition);
    assert_eq!(command_action(&position, true), ServerAction::Defer);
    assert_eq!(command_action(&Command::Go(Go::default()), false), ServerAction::StartSearch);
    assert_eq!(command_action(&Command::Go(Go::default()), true), ServerAction::Defer);
    assert_eq!(command_action(&Command::Stop, true), ServerAction::StopSearch);
    assert_eq!(command_action(&Command::Stop, false), ServerAction::Ignore);
    assert_eq!(command_action(&Command::PonderHit, true), ServerAction::PonderHit);
    assert_eq!(command_action(&Command::PonderHit, false), ServerAction::Ignore);
    assert_eq!(command_action(&Command::Quit, true), ServerAction::Quit { stop_search: true });
    assert_eq!(command_action(&Command::Quit, false), ServerAction::Quit { stop_search: false });
}

#[test]
fn time_budgets() {
    let mut go = Go::default();
    assert_eq!(time_budget(&go, Color::White), None);
    go.wtime = Some(1000);
    go.btime = Some(2000);
    go.winc = Some(10);
    assert_eq!(time_budget(&go, Color::White), Some(1010));
    assert_eq!(time_budget(&go, Color::Black), Some(2000));
    go.wtime = Some(u64::MAX);
    assert_eq!(time_budget(&go, Color::White), Some(u64::MAX));
    go.movetime = Some(5);
    assert_eq!(time_budget(&go, Color::Black), Some(5));
}

#[test]
fn depth_limits() {
    let mut go = Go::default();
    assert_eq!(depth_limit(&go), None);
    go.depth = Some(4);
    assert_eq!(depth_limit(&go), Some(3));
    go.infinite = true;
    assert_eq!(depth_limit(&go), None);
}

#[test]
fn collect_picks_the_first_best_move() {
    let moves = vec![
        (mv(12, 28), Some(res(Score::Cp(10), 5, false))),
        (mv(11, 27), Some(res(Score::Cp(-30), 7, false))),
        (mv(6, 21), Some(res(Score::Cp(-30), 1, false))),
    ];
    assert_eq!(collect(&moves, no_limits(), 1, false, false), (Some(mv(11, 27)), false, false));
    // The node limit is reached by the sum of the nodes.
    let limits = SearchLimits { nodes: Some(13), ..no_limits() };
    assert_eq!(collect(&moves, limits, 1, false, false), (Some(mv(11, 27)), true, false));
    let limits = SearchLimits { nodes: Some(14), ..no_limits() };
    assert_eq!(collect(&moves, limits, 1, false, false), (Some(mv(11, 27)), false, false));
    // A pondering search holds its result back.
    assert_eq!(collect(&moves, no_limits(), 1, true, true), (Some(mv(11, 27)), true, true));
    // Depth limit and the deepest round.
    let limits = SearchLimits { depth: Some(1), ..no_limits() };
    assert_eq!(collect(&moves, limits, 1, false, false), (Some(mv(11, 27)), true, false));
    assert_eq!(collect(&moves, no_limits(), 255, false, false), (Some(mv(11, 27)), true, true));
}

#[test]
fn collect_picks_the_move_best_for_the_side_to_move() {
    // A root move's result scores the position after it, for the opponent.
    let moves = vec![
        (mv(12, 28), Some(res(Score::Cp(10), 1, false))),
        (mv(11, 27), Some(res(Score::Cp(-10), 1, false))),
    ];
    assert_eq!(collect(&moves, no_limits(), 1, false, false).0, Some(mv(11, 27)));
}

#[test]
fn collect_stops_on_mates_and_cancels() {
    let mate = vec![
        (mv(12, 28), Some(res(Score::Cp(10), 1, false))),
        (mv(11, 27), Some(res(Score::Mated(1), 1, false))),
    ];
    let limits = SearchLimits { mate: Some(3), ..no_limits() };
    assert_eq!(collect(&mate, limits, 1, false, false), (Some(mv(11, 27)), true, false));
    let limits = SearchLimits { mate: Some(1), ..no_limits() };
    assert_eq!(collect(&mate, limits, 1, false, false), (Some(mv(11, 27)), false, false));
    let canceled = vec![(mv(12, 28), Some(res(Score::Cp(10), 1, true)))];
    assert_eq!(collect(&canceled, no_limits(), 1, false, false), (Some(mv(12, 28)), true, false));
    assert_eq!(collect(&Vec::new(), no_limits(), 1, true, false), (None, true, true));
}

#[test]
fn results_merge() {
    let first = res(Score::Cp(1), 1, true);
    let later = res(Score::Cp(2), 2, false);
    let canceled = res(Score::Cp(3), 3, true);
    assert_eq!(merge_result(None, canceled), canceled);
    assert_eq!(merge_result(Some(first), later), later);
    assert_eq!(merge_result(Some(later), canceled), later);
}

#[test]
fn check_actions() {
    assert_eq!(check_action(2, true, true, false), CheckAction::Wait);
    assert_eq!(check_action(0, false, false, false), CheckAction::Deepen);
    assert_eq!(check_action(0, false, true, true), CheckAction::Finish { report: false });
    assert_eq!(check_action(0, false, true, false), CheckAction::Finish { report: true });
    assert_eq!(check_action(0, true, false, true), CheckAction::Finish { report: true });
}

#[test]
fn root_moves_follow_searchmoves() {
    let mut game = Game::initial_position();
    let all = root_moves(&mut game, &Go::default());
    assert_eq!(all.len(), 20);
    let mut go = Go::default();
    go.searchmoves = Some(vec!["e2e4".parse().unwrap(), "e2e5".parse().unwrap(), "g1f3".parse().unwrap()]);
    let listed = root_moves(&mut game, &go);
    let names: Vec<String> = listed.iter().map(|m| m.lan().name()).collect();
    assert_eq!(names, vec!["E2E4".to_string(), "G1F3".to_string()]);
    // None of the listed moves names a move: all legal moves are searched.
    go.searchmoves = Some(vec!["e2e5".parse().unwrap()]);
    assert_eq!(root_moves(&mut game, &go).len(), 20);
    assert!(game.is_history_empty());
}

#[test]
fn reports_name_the_best_move() {
    let report = grob::engine::SearchResult::from_best_move(Some(mv(12, 28)));
    assert_eq!(report.best_move, Some("e2e4".parse().unwrap()));
    assert_eq!(report.ponder, None);
    assert_eq!(grob::engine::SearchResult::from_best_move(None).best_move, None);
}

#[test]
fn root_moves_keep_only_legal_listed_moves() {
    let mut game = Game::try_from_fen("4k3/4r3/8/8/8/8/4B3/4K3 w - - 0 1").ok().unwrap();
    let mut go = Go::default();
    go.searchmoves = Some(vec!["e2d3".parse().unwrap(), "e1d1".parse().unwrap()]);
    let moves = root_moves(&mut game, &go);
    assert_eq!(moves.len(), 1);
    assert_eq!(moves[0].lan(), "e1d1".parse().unwrap());
}
