use grob::game::{Game, GameEnding};
use grob::lan::LanMove;
use grob::{ChessMoveHint, Color, File};

#[derive(Debug, Clone, Copy, PartialEq, Eq, Default)]
struct PerftResult {
    nodes: u64,
    captures: u64,
    ep: u64,
    castles: u64,
    promotions: u64,
    checks: u64,
    checkmates: u64,
}

fn collect_detailed(result: &mut PerftResult, game: &mut Game, depth: u8) {
    for chess_move in game.legal_moves() {
        game.make_move(chess_move);
        if depth != 0 {
            collect_detailed(result, game, depth - 1);
        } else {
            let hint = chess_move.hint;
            result.nodes += 1;
            if matches!(hint, ChessMoveHint::EnPassantCapture) {
                result.ep += 1;
            }
            if matches!(hint, ChessMoveHint::KingCastle | ChessMoveHint::QueenCastle) {
                result.castles += 1;
            }
            if hint.is_capture() {
                result.captures += 1;
            }
            if hint.is_promotion() {
                result.promotions += 1;
            }
            if game.is_check() {
                result.checks += 1;
                if game.check_ending().is_err() {
                    result.checkmates += 1;
                }
            }
        }
        game.unmake_move();
    }
}

fn perft_detailed(fen: &str, depth: u8, expected: PerftResult) {
    let mut result = PerftResult::default();
    let mut game = Game::try_from_fen(fen).ok().expect("Incorrect FEN!");
    let hash = game.zobrist();
    collect_detailed(&mut result, &mut game, depth - 1);
    assert_eq!(result, expected, "Incorrect perft results!");
    assert_eq!(game.zobrist(), hash);
    assert!(game.is_history_empty());
}

fn perft(fen: &str, depth: u8, expected: u64) {
    let mut result = PerftResult::default();
    let mut game = Game::try_from_fen(fen).ok().expect("Incorrect FEN!");
    collect_detailed(&mut result, &mut game, depth - 1);
    assert_eq!(result.nodes, expected, "Incorrect perft results!");
}

const INITIAL: &str = "rnbqkbnr/pppppppp/8/8/8/8/PPPPPPPP/RNBQKBNR w KQkq - 0 1";
const KIWIPETE: &str = "r3k2r/p1ppqpb1/bn2pnp1/3PN3/1p2P3/2N2Q1p/PPPBBPPP/R3K2R w KQkq - 0 1";
const MIRRORED_WHITE: &str = "r3k2r/Pppp1ppp/1b3nbN/nP6/BBP1P3/q4N2/Pp1P2PP/R2Q1RK1 w kq - 0 1";
const MIRRORED_BLACK: &str = "r2q1rk1/pP1p2pp/Q4n2/bbp1p3/Np6/1B3NBn/pPPP1PPP/R3K2R b KQ - 0 1";
const CPW3: &str = "8/2p5/3p4/KP5r/1R3p1k/8/4P1P1/8 w - - 0 1";
const CPW5: &str = "rnbq1k1r/pp1Pbppp/2p5/8/2B5/8/PPP1NnPP/RNBQK2R w KQ - 1 8";

#[test]
fn perft_depth1() {
    let expected = PerftResult { nodes: 20, ..PerftResult::default() };
    perft_detailed(INITIAL, 1, expected);
}

#[test]
fn perft_depth2() {
    let expected = PerftResult { nodes: 400, ..PerftResult::default() };
    perft_detailed(INITIAL, 2, expected);
}

#[test]
fn perft_depth3() {
    let expected = PerftResult { nodes: 8_902, captures: 34, checks: 12, ..PerftResult::default() };
    perft_detailed(INITIAL, 3, expected);
}

#[test]
fn perft_kiwipete_depth1() {
    let expected = PerftResult { nodes: 48, captures: 8, castles: 2, ..PerftResult::default() };
    perft_detailed(KIWIPETE, 1, expected);
}

#[test]
fn perft_kiwipete_depth2() {
    let expected = PerftResult {
        nodes: 2039,
        captures: 351,
        ep: 1,
        castles: 91,
        promotions: 0,
        checks: 3,
        checkmates: 0,
    };
    perft_detailed(KIWIPETE, 2, expected);
}

#[test]
fn perft_mirrored_depth1() {
    let expected = PerftResult { nodes: 6, ..PerftResult::default() };
    perft_detailed(MIRRORED_WHITE, 1, expected);
    perft_detailed(MIRRORED_BLACK, 1, expected);
}

#[test]
fn perft_mirrored_depth2() {
    let expected = PerftResult {
        nodes: 264,
        captures: 87,
        ep: 0,
        castles: 6,
        promotions: 48,
        checks: 10,
        checkmates: 0,
    };
    perft_detailed(MIRRORED_WHITE, 2, expected);
    perft_detailed(MIRRORED_BLACK, 2, expected);
}

#[test]
fn perft_cpw3_depth1() {
    let expected = PerftResult { nodes: 14, captures: 1, checks: 2, ..PerftResult::default() };
    perft_detailed(CPW3, 1, expected);
}

#[test]
fn perft_cpw3_depth2() {
    let expected = PerftResult { nodes: 191, captures: 14, checks: 10, ..PerftResult::default() };
    perft_detailed(CPW3, 2, expected);
}

#[test]
fn perft_cpw3_depth3() {
    let expected = PerftResult { nodes: 2812, captures: 209, ep: 2, checks: 267, ..PerftResult::default() };
    perft_detailed(CPW3, 3, expected);
}

#[test]
fn perft_cpw5_depth1() {
    perft(CPW5, 1, 44);
}

#[test]
fn perft_cpw5_depth2() {
    perft(CPW5, 2, 1_486);
}

#[test]
fn fen_fields() {
    let game = Game::try_from_fen(KIWIPETE).ok().unwrap();
    assert_eq!(game.turn(), Color::White);
    assert_eq!(game.castling_rights().bits(), 15);
    assert_eq!(game.en_passant(), None);
    assert_eq!(game.halfmove_clock(), 0);
    let game = Game::try_from_fen(CPW5).ok().unwrap();
    assert_eq!(game.halfmove_clock(), 1);
    assert_eq!(game.move_index(), 14);
    // The en passant field names the file alone.
    let game = Game::try_from_fen("rnbqkbnr/ppp1pppp/8/3pP3/8/8/PPPP1PPP/RNBQKBNR w KQkq d 0 3").ok().unwrap();
    assert_eq!(game.en_passant(), Some(File::from_repr(3).unwrap()));
    assert!(Game::try_from_fen("rnbqkbnr/ppp1pppp/8/3pP3/8/8/PPPP1PPP/RNBQKBNR w KQkq d6 0 3").is_err());
    // An en passant file without a pawn to capture is refused.
    assert!(Game::try_from_fen("rnbqkbnr/ppp1pppp/8/3pP3/8/8/PPPP1PPP/RNBQKBNR w KQkq a 0 3").is_err());
}

#[test]
fn fen_errors() {
    assert!(Game::try_from_fen("").is_err());
    assert!(Game::try_from_fen("rnbqkbnr/pppppppp/8/8/8/8/PPPPPPPP/RNBQKBNR w KQkq - 0").is_err());
    assert!(Game::try_from_fen("rnbqkbnr/pppppppp/8/8/8/8/PPPPPPPP/RNBQKBNR x KQkq - 0 1").is_err());
    assert!(Game::try_from_fen("rnbqkbnr/pppppppp/8/8/8/8/PPPPPPPP w KQkq - 0 1").is_err());
    assert!(Game::try_from_fen("rnbqkbnr/pppppppp/9/8/8/8/PPPPPPPP/RNBQKBNR w KQkq - 0 1").is_err());
    assert!(Game::try_from_fen("rnbqkbnr/pppppppp/8/8/8/8/PPPPPPPP/RNBQKBNR w KQkq - 0 0").is_err());
    assert!(Game::try_from_fen("rnbqkbnr/pppppppp/8/8/8/8/PPPPPPPP/RNBQKBNR w KQkq e9 0 1").is_err());
    // Two white kings.
    assert!(Game::try_from_fen("rnbqkbnr/pppppppp/8/8/8/8/PPPPPPPP/RNBKKBNR w - - 0 1").is_err());
    // Castling rights without the rook in the corner.
    assert!(Game::try_from_fen("rnbqkbn1/pppppppp/8/8/8/8/PPPPPPPP/RNBQKBNR w KQkq - 0 1").is_err());
}

#[test]
fn initial_position_matches_fen() {
    let a = Game::initial_position();
    let b = Game::try_from_fen(INITIAL).ok().unwrap();
    assert!(a.is_same_position(&b));
    assert_eq!(a.zobrist(), b.zobrist());
}

#[test]
fn make_unmake_restores_the_game() {
    let mut game = Game::try_from_fen(KIWIPETE).ok().unwrap();
    let hash = game.zobrist();
    let reference = Game::try_from_fen(KIWIPETE).ok().unwrap();
    for chess_move in game.legal_moves() {
        assert!(game.try_make_move(chess_move));
        assert_ne!(game.zobrist(), hash);
        assert!(game.try_unmake_move());
        assert_eq!(game.zobrist(), hash);
        assert!(game.is_same_position(&reference));
    }
    assert!(!game.try_unmake_move());
}

#[test]
fn illegal_move_is_refused() {
    let mut game = Game::initial_position();
    let lan: LanMove = "e2e5".parse().unwrap();
    if let Some(chess_move) = game.lan_move(lan) {
        assert!(!game.try_make_move(chess_move));
    }
    assert!(game.is_history_empty());
    let lan: LanMove = "e2e4".parse().unwrap();
    let chess_move = game.lan_move(lan).unwrap();
    assert_eq!(chess_move.hint, ChessMoveHint::DoublePawn);
    assert!(game.try_make_move(chess_move));
    assert_eq!(game.turn(), Color::Black);
    assert_eq!(game.en_passant(), Some(File::from_repr(4).unwrap()));
}

#[test]
fn repetitions_are_counted() {
    let mut game = Game::initial_position();
    for name in ["g1f3", "g8f6", "f3g1", "f6g8", "g1f3", "g8f6", "f3g1", "f6g8"] {
        let lan: LanMove = name.parse().unwrap();
        let chess_move = game.lan_move(lan).unwrap();
        assert!(game.try_make_move(chess_move));
    }
    assert_eq!(game.count_repetitions(), 2);
}

#[test]
fn endings_are_detected() {
    // Fool's mate.
    let mut game =
        Game::try_from_fen("rnb1kbnr/pppp1ppp/8/4p3/6Pq/5P2/PPPPP2P/RNBQKBNR w KQkq - 1 3").ok().unwrap();
    assert!(game.is_check());
    assert_eq!(game.check_ending().err(), Some(GameEnding::Checkmate));
    assert!(game.legal_moves().is_empty());
    // Stalemate.
    let mut game = Game::try_from_fen("7k/5Q2/6K1/8/8/8/8/8 b - - 0 1").ok().unwrap();
    assert!(!game.is_check());
    assert_eq!(game.check_ending().err(), Some(GameEnding::Stalemate));
    let mut game = Game::initial_position();
    assert!(game.check_ending().is_ok());
}

#[test]
fn lan_roundtrip() {
    for name in ["E2E4", "A7A8q", "H1H8", "B7B8n"] {
        let lan: LanMove = name.parse().unwrap();
        assert_eq!(lan.name(), name);
        let lower: LanMove = name.to_lowercase().parse().unwrap();
        assert_eq!(lower, lan);
    }
    assert!("e2e".parse::<LanMove>().is_err());
    assert!("e2e4k".parse::<LanMove>().is_err());
    assert!("z2e4".parse::<LanMove>().is_err());
}

#[test]
fn castling_moves() {
    let mut game = Game::try_from_fen(KIWIPETE).ok().unwrap();
    let lan: LanMove = "e1g1".parse().unwrap();
    let chess_move = game.lan_move(lan).unwrap();
    assert_eq!(chess_move.hint, ChessMoveHint::KingCastle);
    assert!(game.try_make_move(chess_move));
    assert_eq!(game.castling_rights().bits() & 3, 0);
}

#[test]
fn every_legal_move_is_found_by_its_lan() {
    for fen in [INITIAL, KIWIPETE, MIRRORED_WHITE, MIRRORED_BLACK, CPW3, CPW5] {
        let mut game = Game::try_from_fen(fen).ok().unwrap();
        for chess_move in game.legal_moves() {
            assert_eq!(game.lan_move(chess_move.lan()), Some(chess_move));
        }
    }
}
