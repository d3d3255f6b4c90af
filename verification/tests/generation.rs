use grob::game::Game;
use grob::score::Score;
use grob::search::{evaluate, search, SearchConstraints};
use grob::transposition::{Transposition, TranspositionTableBase};
use grob::zobrist::get_square_zobrist;
use grob::{ChessMove, ChessMoveHint, Color, Piece, Square};
use std::collections::HashSet;
use std::sync::atomic::AtomicBool;

fn sq(i: u8) -> Square {
    Square::from_repr(i).unwrap()
}

fn position_of(fen: &str) -> grob::Position {
    let g = Game::try_from_fen(fen).ok().unwrap();
    grob::Position::from_parts(*g.board(), g.turn(), g.castling_rights(), g.en_passant()).unwrap()
}

const KIWIPETE: &str = "r3k2r/p1ppqpb1/bn2pnp1/3PN3/1p2P3/2N2Q1p/PPPBBPPP/R3K2R w KQkq - 0 1";

#[test]
fn castling_must_end_on_its_square() {
    let game = Game::try_from_fen("4k3/8/8/8/8/8/8/4K2R w K - 0 1").ok().unwrap();
    let castle = ChessMove { from: sq(4), to: sq(6), hint: ChessMoveHint::KingCastle };
    assert!(game.is_move_pseudo_legal(castle));
    let wrong = ChessMove { from: sq(4), to: sq(12), hint: ChessMoveHint::KingCastle };
    assert!(!game.is_move_pseudo_legal(wrong));
    let wrong_from = ChessMove { from: sq(5), to: sq(6), hint: ChessMoveHint::KingCastle };
    assert!(!game.is_move_pseudo_legal(wrong_from));
}

#[test]
fn every_piece_square_has_its_own_key() {
    let mut keys = HashSet::new();
    for color in [Color::White, Color::Black] {
        for piece in [Piece::Pawn, Piece::Knight, Piece::Bishop, Piece::Rook, Piece::Queen, Piece::King] {
            for i in 0..64u8 {
                keys.insert(get_square_zobrist(color, piece, sq(i)));
            }
        }
    }
    assert_eq!(keys.len(), 768);
    assert_ne!(
        get_square_zobrist(Color::White, Piece::Knight, sq(1)),
        get_square_zobrist(Color::White, Piece::Queen, sq(3))
    );
}

#[test]
fn moving_a_piece_changes_the_hash() {
    let mut game = Game::initial_position();
    let before = game.zobrist();
    let knight = ChessMove { from: sq(6), to: sq(21), hint: ChessMoveHint::Quiet };
    assert!(game.try_make_move(knight));
    assert_ne!(game.zobrist(), before);
}

#[test]
fn pawn_quiets_are_exactly_the_pushes() {
    let mut moves = Vec::new();
    let position = position_of("rnbqkbnr/pppppppp/8/8/8/8/PPPPPPPP/RNBQKBNR w KQkq - 0 1");
    position.push_pawn_quiets(&mut moves);
    assert_eq!(moves.len(), 16);
    let set: HashSet<(u8, u8, bool)> =
        moves.iter().map(|m| (m.from.repr(), m.to.repr(), m.hint == ChessMoveHint::DoublePawn)).collect();
    assert_eq!(set.len(), 16);
    for f in 0..8u8 {
        assert!(set.contains(&(8 + f, 16 + f, false)));
        assert!(set.contains(&(8 + f, 24 + f, true)));
    }
}

#[test]
fn pawn_attacks_are_only_pawn_captures() {
    let position = position_of(KIWIPETE);
    let mut moves = Vec::new();
    position.push_pawn_attacks(&mut moves);
    let board = position.board();
    for m in &moves {
        assert_eq!(board.get_piece_at(m.from), Some(Piece::Pawn));
        assert!(m.hint.is_capture());
    }
    let set: HashSet<(u8, u8)> = moves.iter().map(|m| (m.from.repr(), m.to.repr())).collect();
    assert_eq!(set.len(), moves.len());
}

#[test]
fn generated_moves_appear_once() {
    for fen in [
        "rnbqkbnr/pppppppp/8/8/8/8/PPPPPPPP/RNBQKBNR w KQkq - 0 1",
        KIWIPETE,
        "r3k2r/Pppp1ppp/1b3nbN/nP6/BBP1P3/q4N2/Pp1P2PP/R2Q1RK1 w kq - 0 1",
        "4k3/8/8/8/8/8/8/Q3K3 w - - 0 1",
    ] {
        let mut game = Game::try_from_fen(fen).ok().unwrap();
        let mut moves = Vec::new();
        game.push_moves(&mut moves);
        let set: HashSet<ChessMove> = moves.iter().copied().collect();
        assert_eq!(set.len(), moves.len());
        let legal = game.legal_moves();
        let set: HashSet<ChessMove> = legal.iter().copied().collect();
        assert_eq!(set.len(), legal.len());
    }
}

#[test]
fn double_check_gives_king_moves_only() {
    // The black king is checked by the rook on e1 and the knight on f6.
    let game = Game::try_from_fen("4k3/8/5N2/8/8/8/3q4/4R1K1 b - - 0 1").ok().unwrap();
    let mut moves = Vec::new();
    game.push_moves(&mut moves);
    assert!(!moves.is_empty());
    for m in &moves {
        assert_eq!(m.from, sq(60));
    }
}

#[test]
fn evaluate_gives_a_move_with_legal_moves() {
    let mut w = Game::try_from_fen("4k3/8/8/8/8/8/8/3QK3 w - - 0 1").ok().unwrap();
    let r = evaluate(&mut w, false);
    assert_eq!(r.score, Score::Cp(900));
    assert!(r.best_move.is_some());
    let mut b = Game::try_from_fen("4k3/8/8/8/8/8/8/3QK3 b - - 0 1").ok().unwrap();
    let r = evaluate(&mut b, false);
    assert_eq!(r.score, Score::Cp(-900));
    assert_eq!(r.nodes, 1);
    assert!(!r.is_canceled);
    assert!(r.best_move.is_some());
}

#[test]
fn search_takes_a_deep_enough_table_entry_whose_move_is_not_pseudo_legal() {
    let mut game = Game::initial_position();
    let mut tt: TranspositionTableBase<Transposition> = TranspositionTableBase::new(16);
    let stop = AtomicBool::new(false);
    let e2e5 = ChessMove { from: sq(12), to: sq(36), hint: ChessMoveHint::Quiet };
    let _ = tt.insert(game.zobrist(), Transposition { best_move: e2e5, score: Score::Cp(42), depth: 5 });
    let constraints = SearchConstraints { nodes_max: None, deadline: None };
    let r = search(&mut tt, &stop, &mut game, 3, constraints, Score::Mated(0), Score::Mating(1));
    assert_eq!(r.best_move, Some(e2e5));
    assert_eq!(r.score, Score::Cp(42));
    assert_eq!(r.nodes, 1);
}

#[test]
fn search_passes_over_a_table_entry_whose_move_is_pseudo_legal() {
    let mut game = Game::initial_position();
    let mut tt: TranspositionTableBase<Transposition> = TranspositionTableBase::new(16);
    let stop = AtomicBool::new(false);
    let e2e4 = ChessMove { from: sq(12), to: sq(28), hint: ChessMoveHint::DoublePawn };
    let _ = tt.insert(game.zobrist(), Transposition { best_move: e2e4, score: Score::Cp(42), depth: 5 });
    let constraints = SearchConstraints { nodes_max: None, deadline: None };
    let r = search(&mut tt, &stop, &mut game, 1, constraints, Score::Mated(0), Score::Mating(1));
    assert_eq!(r.nodes, 21);
    assert!(!r.is_canceled);
    assert_ne!(r.score, Score::Cp(42));
}
