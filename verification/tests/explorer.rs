use grob::explorer::GameExplorer;
use grob::game::{Game, GameEnding};
use grob::lan::LanMove;
use grob::ChessMoveHint;

#[derive(Debug, Clone, Copy, PartialEq, Eq, Default)]
struct Counts {
    nodes: u64,
    captures: u64,
    ep: u64,
    castles: u64,
    promotions: u64,
    checks: u64,
    checkmates: u64,
}

fn walk(result: &mut Counts, node: &mut GameExplorer, depth: u8) {
    let _ = node.for_each_legal_child_node(|node, chess_move| {
        if depth != 0 {
            walk(result, node, depth - 1);
            return;
        }
        let hint = chess_move.hint;
        result.nodes += 1;
        if matches!(hint, ChessMoveHint::EnPassantCapture) {
            result.ep += 1;
        }
        if matches!(hint, ChessMoveHint::KingCastle | ChessMoveHint::QueenCastle) {
            result.castles += 1;
        }
        if hint.is_capture() {
            result.captures += 1;
        }
        if hint.is_promotion() {
            result.promotions += 1;
        }
        if !node.game().is_check() {
            return;
        }
        result.checks += 1;
        if node.check_ending().is_err() {
            result.checkmates += 1;
        }
    });
}

fn walk_fen(fen: &str, depth: u8) -> Counts {
    let mut result = Counts::default();
    let mut game = Game::try_from_fen(fen).ok().expect("Incorrect FEN!");
    let hash = game.zobrist();
    walk(&mut result, &mut game.explore(), depth - 1);
    assert_eq!(game.zobrist(), hash);
    assert!(game.is_history_empty());
    result
}

const INITIAL: &str = "rnbqkbnr/pppppppp/8/8/8/8/PPPPPPPP/RNBQKBNR w KQkq - 0 1";
const KIWIPETE: &str = "r3k2r/p1ppqpb1/bn2pnp1/3PN3/1p2P3/2N2Q1p/PPPBBPPP/R3K2R w KQkq - 0 1";
const CPW3: &str = "8/2p5/3p4/KP5r/1R3p1k/8/4P1P1/8 w - - 0 1";
const FOOLS_MATE: &str = "rnb1kbnr/pppp1ppp/8/4p3/6Pq/5P2/PPPPP2P/RNBQKBNR w KQkq - 1 3";
const STALEMATE: &str = "7k/5Q2/6K1/8/8/8/8/8 b - - 0 1";

#[test]
fn explorer_walk_initial_depth3() {
    let expected = Counts {
        nodes: 8_902,
        captures: 34,
        ep: 0,
        castles: 0,
        promotions: 0,
        checks: 12,
        checkmates: 0,
    };
    assert_eq!(walk_fen(INITIAL, 3), expected);
}

#[test]
fn explorer_walk_kiwipete_depth2() {
    let expected = Counts {
        nodes: 2_039,
        captures: 351,
        ep: 1,
        castles: 91,
        promotions: 0,
        checks: 3,
        checkmates: 0,
    };
    assert_eq!(walk_fen(KIWIPETE, 2), expected);
}

#[test]
fn explorer_walk_initial_depth4() {
    let expected = Counts {
        nodes: 197_281,
        captures: 1_576,
        ep: 0,
        castles: 0,
        promotions: 0,
        checks: 469,
        checkmates: 8,
    };
    assert_eq!(walk_fen(INITIAL, 4), expected);
}

#[test]
fn explorer_walk_kiwipete_depth3() {
    let expected = Counts {
        nodes: 97_862,
        captures: 17_102,
        ep: 45,
        castles: 3_162,
        promotions: 0,
        checks: 993,
        checkmates: 1,
    };
    assert_eq!(walk_fen(KIWIPETE, 3), expected);
}

#[test]
fn explorer_walk_mirrored_depth3() {
    let expected = Counts {
        nodes: 9_467,
        captures: 1_021,
        ep: 4,
        castles: 0,
        promotions: 120,
        checks: 38,
        checkmates: 22,
    };
    assert_eq!(walk_fen("r3k2r/Pppp1ppp/1b3nbN/nP6/BBP1P3/q4N2/Pp1P2PP/R2Q1RK1 w kq - 0 1", 3), expected);
    assert_eq!(walk_fen("r2q1rk1/pP1p2pp/Q4n2/bbp1p3/Np6/1B3NBn/pPPP1PPP/R3K2R b KQ - 0 1", 3), expected);
}

#[test]
fn explorer_walk_cpw3_depth4() {
    let expected = Counts {
        nodes: 43_238,
        captures: 3_348,
        ep: 123,
        castles: 0,
        promotions: 0,
        checks: 1_680,
        checkmates: 17,
    };
    assert_eq!(walk_fen(CPW3, 4), expected);
}

#[test]
fn explorer_walk_cpw5_depth3() {
    assert_eq!(walk_fen("rnbq1k1r/pp1Pbppp/2p5/8/2B5/8/PPP1NnPP/RNBQK2R w KQ - 1 8", 3).nodes, 62_379);
}

#[test]
fn explorer_walk_cpw3_depth3() {
    assert_eq!(walk_fen(CPW3, 3).nodes, 2_812);
}

#[test]
fn explorer_counts_legal_moves() {
    let mut game = Game::initial_position();
    let mut explorer = game.explore();
    let mut count = 0;
    let ending = explorer.for_each_legal_child_node(|_, _| count += 1);
    assert_eq!(count, 20);
    assert_eq!(ending, None);
}

#[test]
fn explorer_exhaust_moves_ends_the_walk() {
    let mut game = Game::initial_position();
    let mut explorer = game.explore();
    let mut count = 0;
    let ending = explorer.for_each_legal_child_node(|node, _| {
        count += 1;
        node.exhaust_moves();
    });
    assert_eq!(count, 1);
    assert_eq!(ending, None);
}

#[test]
fn explorer_reports_endings() {
    let mut game = Game::try_from_fen(FOOLS_MATE).ok().unwrap();
    let mut explorer = game.explore();
    let mut count = 0;
    assert_eq!(explorer.for_each_legal_child_node(|_, _| count += 1), Some(GameEnding::Checkmate));
    assert_eq!(count, 0);
    assert_eq!(explorer.check_ending(), Err(GameEnding::Checkmate));

    let mut game = Game::try_from_fen(STALEMATE).ok().unwrap();
    let mut explorer = game.explore();
    assert_eq!(explorer.for_each_legal_child_node(|_, _| {}), Some(GameEnding::Stalemate));
    assert_eq!(explorer.check_ending(), Err(GameEnding::Stalemate));
}

#[test]
fn explorer_check_ending_gives_a_legal_move() {
    let mut game = Game::initial_position();
    let mut explorer = game.explore();
    let chess_move = explorer.check_ending().ok().unwrap();
    let mut legal = Game::initial_position().legal_moves();
    assert_eq!(Some(chess_move), legal.pop());
}

#[test]
fn explorer_maps_legal_moves_only() {
    let mut game = Game::initial_position();
    let hash = game.zobrist();
    let e2e4 = game.lan_move("e2e4".parse::<LanMove>().unwrap()).unwrap();
    let mut explorer = game.explore();
    let mut seen = None;
    assert!(explorer.map_move_if_legal(e2e4, |node| seen = Some(node.game().zobrist())));
    assert!(seen.is_some());
    assert_ne!(seen, Some(hash));
    assert_eq!(explorer.game().zobrist(), hash);

    let mut called = false;
    let mut illegal = e2e4;
    illegal.hint = ChessMoveHint::DoublePawn;
    illegal.to = illegal.from;
    assert!(!explorer.map_move_if_legal(illegal, |_| called = true));
    assert!(!called);
    assert_eq!(explorer.game().zobrist(), hash);
}
