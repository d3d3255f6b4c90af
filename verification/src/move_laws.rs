//! What making and rolling back a move keep: a consistent position, and the
//! position itself once the move is rolled back.

use vstd::prelude::*;

use crate::attacks::pawn_push_spec;
use crate::bitboard::bit;
use crate::board::Board;
use crate::castling_rights::CastlingRights;
use crate::make_unmake::{
    en_passant_victim, lemma_move_squares, pieces_back_ok, promoted, spec_lost_rights, spec_make,
    spec_make_pieces, spec_move_applicable, spec_resets_clock, spec_unmake, spec_unmake_ok,
    spec_unmake_pieces,
};
use crate::move_generation::lemma_castling_squares;
use crate::movegen::{spec_pseudo_legal, ChessMove, ChessMoveHint};
use crate::pieces::{Color, Piece};
use crate::position::{king_at, lemma_bits_are_contents, lemma_position_equal, one_king, spec_castling_allowed, spec_castling_max, Position};
use crate::square::{File, Square};

verus! {

broadcast use Position::lemma_mk;

/// The bits of an occupied square of a consistent board.
proof fn lemma_occupied_bits(b: Board, sq: Square, c: Color, pc: Piece)
    requires
        b.wf(),
        b.spec_color_at(sq) == Some(c),
        b.spec_piece_at(sq) == Some(pc),
    ensures
        bit(b.color_bb(c), sq.idx()),
        bit(b.piece_bb(pc), sq.idx()),
{
    sq.lemma_repr_roundtrip();
    lemma_bits_are_contents(b, sq.idx());
}

/// The bits of an empty square of a consistent board.
proof fn lemma_empty_bits(b: Board, sq: Square, c: Color, pc: Piece)
    requires
        b.wf(),
        b.spec_color_at(sq) is None,
    ensures
        !bit(b.color_bb(c), sq.idx()),
        !bit(b.piece_bb(pc), sq.idx()),
{
    sq.lemma_repr_roundtrip();
    lemma_bits_are_contents(b, sq.idx());
    b.lemma_color_iff_piece(sq);
}

/// Moving a piece back undoes moving it.
proof fn lemma_move_back(p: Position, s: Position, c: Color, pc: Piece, from: Square, to: Square)
    requires
        s.sboard() == p.spec_move(c, pc, from, to).sboard(),
    ensures
        s.spec_move(c, pc, to, from).sboard() == p.sboard(),
{
    p.sboard().lemma_xor_twice(c, pc, 1u64 << (from.idx() as u64), 1u64 << (to.idx() as u64));
}

/// Adding a piece back undoes removing it.
proof fn lemma_remove_back(p: Position, s: Position, c: Color, pc: Piece, sq: Square)
    requires
        p.sboard().wf(),
        p.sboard().spec_color_at(sq) == Some(c),
        p.sboard().spec_piece_at(sq) == Some(pc),
        s.sboard() == p.spec_remove(c, pc, sq).sboard(),
    ensures
        s.spec_add(c, pc, sq).sboard() == p.sboard(),
{
    lemma_occupied_bits(p.sboard(), sq, c, pc);
    sq.lemma_repr_roundtrip();
    p.sboard().lemma_clear_then_set(c, pc, sq.idx());
}

/// Removing a piece again undoes adding it.
proof fn lemma_add_back(p: Position, s: Position, c: Color, pc: Piece, sq: Square)
    requires
        p.sboard().wf(),
        p.sboard().spec_color_at(sq) is None,
        s.sboard() == p.spec_add(c, pc, sq).sboard(),
    ensures
        s.spec_remove(c, pc, sq).sboard() == p.sboard(),
{
    lemma_empty_bits(p.sboard(), sq, c, pc);
    sq.lemma_repr_roundtrip();
    p.sboard().lemma_set_then_clear(c, pc, sq.idx());
}

/// A board whose king squares are those of a board with one king of the
/// color has one king of the color.
proof fn lemma_kings_kept(b1: Board, b2: Board, c: Color)
    requires
        one_king(b1, c),
        forall|s: Square| #[trigger] king_at(b2, c, s) <==> king_at(b1, c, s),
    ensures
        one_king(b2, c),
{
    let k = choose|s: Square| #[trigger] king_at(b1, c, s) && forall|s2: Square| #[trigger] king_at(b1, c, s2) ==> s2 == s;
    assert(king_at(b2, c, k));
    assert forall|s2: Square| #[trigger] king_at(b2, c, s2) implies s2 == k by {
        assert(king_at(b1, c, s2));
    }
}

/// A board whose only king square of the color is `to` has one king of the color.
proof fn lemma_king_moved(b2: Board, c: Color, to: Square)
    requires
        forall|s: Square| #[trigger] king_at(b2, c, s) <==> s == to,
    ensures
        one_king(b2, c),
{
    assert(king_at(b2, c, to));
}

/// Moving a piece keeps one king of each color.
proof fn lemma_move_kings(p: Position, c: Color, pc: Piece, from: Square, to: Square)
    requires
        p.sboard().wf(),
        p.sboard().spec_color_at(from) == Some(c),
        p.sboard().spec_piece_at(from) == Some(pc),
        p.sboard().spec_color_at(to) is None,
        one_king(p.sboard(), Color::White),
        one_king(p.sboard(), Color::Black),
    ensures
        one_king(p.spec_move(c, pc, from, to).sboard(), Color::White),
        one_king(p.spec_move(c, pc, from, to).sboard(), Color::Black),
{
    p.lemma_move(c, pc, from, to);
    let b1 = p.sboard();
    let b2 = p.spec_move(c, pc, from, to).sboard();
    b1.lemma_color_iff_piece(to);
    assert forall|cc: Color| one_king(b1, cc) implies #[trigger] one_king(b2, cc) by {
        if pc == Piece::King && cc == c {
            let k = choose|s: Square| #[trigger] king_at(b1, cc, s) && forall|s2: Square| #[trigger] king_at(b1, cc, s2) ==> s2 == s;
            assert(king_at(b1, cc, from));
            assert forall|s: Square| #[trigger] king_at(b2, cc, s) <==> s == to by {
                if s != from && s != to && king_at(b2, cc, s) {
                    assert(king_at(b1, cc, s));
                }
            }
            lemma_king_moved(b2, cc, to);
        } else {
            assert forall|s: Square| #[trigger] king_at(b2, cc, s) <==> king_at(b1, cc, s) by {}
            lemma_kings_kept(b1, b2, cc);
        }
    }
}

/// Removing a piece other than a king keeps one king of each color.
proof fn lemma_remove_kings(p: Position, c: Color, pc: Piece, sq: Square)
    requires
        p.sboard().wf(),
        p.sboard().spec_color_at(sq) == Some(c),
        p.sboard().spec_piece_at(sq) == Some(pc),
        pc != Piece::King,
        one_king(p.sboard(), Color::White),
        one_king(p.sboard(), Color::Black),
    ensures
        one_king(p.spec_remove(c, pc, sq).sboard(), Color::White),
        one_king(p.spec_remove(c, pc, sq).sboard(), Color::Black),
{
    p.lemma_remove(c, pc, sq);
    let b1 = p.sboard();
    let b2 = p.spec_remove(c, pc, sq).sboard();
    assert forall|cc: Color| one_king(b1, cc) implies #[trigger] one_king(b2, cc) by {
        assert forall|s: Square| #[trigger] king_at(b2, cc, s) <==> king_at(b1, cc, s) by {}
        lemma_kings_kept(b1, b2, cc);
    }
}

/// Adding a piece other than a king keeps one king of each color.
proof fn lemma_add_kings(p: Position, c: Color, pc: Piece, sq: Square)
    requires
        p.sboard().wf(),
        p.sboard().spec_color_at(sq) is None,
        pc != Piece::King,
        one_king(p.sboard(), Color::White),
        one_king(p.sboard(), Color::Black),
    ensures
        one_king(p.spec_add(c, pc, sq).sboard(), Color::White),
        one_king(p.spec_add(c, pc, sq).sboard(), Color::Black),
{
    p.lemma_add(c, pc, sq);
    let b1 = p.sboard();
    let b2 = p.spec_add(c, pc, sq).sboard();
    b1.lemma_color_iff_piece(sq);
    assert forall|cc: Color| one_king(b1, cc) implies #[trigger] one_king(b2, cc) by {
        assert forall|s: Square| #[trigger] king_at(b2, cc, s) <==> king_at(b1, cc, s) by {}
        lemma_kings_kept(b1, b2, cc);
    }
}

/// The squares whose contents a move changes: its origin and destination, the
/// square of the pawn taken en passant, and the squares of a castling rook.
pub open spec fn touched(m: ChessMove, t: Color, s: Square) -> bool {
    ||| s == m.from
    ||| s == m.to
    ||| m.hint == ChessMoveHint::EnPassantCapture && s == en_passant_victim(m)
    ||| m.hint == ChessMoveHint::KingCastle && (s == t.spec_mirror_square(Square::H1) || s
        == t.spec_mirror_square(Square::F1))
    ||| m.hint == ChessMoveHint::QueenCastle && (s == t.spec_mirror_square(Square::A1) || s
        == t.spec_mirror_square(Square::D1))
}

/// What the pieces of a move look like once moved, from the pieces before.
proof fn lemma_make_pieces_facts(p: Position, m: ChessMove)
    requires
        p.wf(),
        spec_pseudo_legal(p, m),
        spec_move_applicable(p, m),
    ensures
        ({
            let piece = p.sboard().spec_piece_at(m.from).unwrap();
            let capture = p.sboard().spec_piece_at(m.to);
            let x = spec_make_pieces(p, m, piece, capture);
            &&& x.sboard().wf()
            &&& one_king(x.sboard(), Color::White)
            &&& one_king(x.sboard(), Color::Black)
            &&& x.hash_ok()
            &&& x.sturn() == p.sturn()
            &&& x.scastling() == p.scastling()
            &&& x.sen_passant() == p.sen_passant()
            &&& x.smove_index() == p.smove_index()
            &&& x.srule_50() == p.srule_50()
            &&& pieces_back_ok(x.sboard(), p.sturn(), m, capture)
            &&& (m.hint == ChessMoveHint::Quiet || m.hint == ChessMoveHint::Caputre) ==> x.sboard().spec_piece_at(m.to) == Some(piece)
            &&& forall|s: Square| !touched(m, p.sturn(), s) ==> x.sboard().spec_color_at(s) == p.sboard().spec_color_at(s)
                && x.sboard().spec_piece_at(s) == p.sboard().spec_piece_at(s)
        }),
{
    lemma_move_squares(p, m);
    let b = p.sboard();
    let t = p.sturn();
    let o = t.opp();
    let piece = b.spec_piece_at(m.from).unwrap();
    let capture = b.spec_piece_at(m.to);
    let from = m.from;
    let to = m.to;
    b.lemma_color_iff_piece(to);
    match m.hint {
        ChessMoveHint::Quiet | ChessMoveHint::DoublePawn => {
            p.lemma_move(t, piece, from, to);
            lemma_move_kings(p, t, piece, from, to);
        },
        ChessMoveHint::Caputre => {
            let cap = capture.unwrap();
            p.lemma_remove(o, cap, to);
            lemma_remove_kings(p, o, cap, to);
            let x1 = p.spec_remove(o, cap, to);
            x1.lemma_move(t, piece, from, to);
            lemma_move_kings(x1, t, piece, from, to);
        },
        ChessMoveHint::EnPassantCapture => {
            let v = en_passant_victim(m);
            p.lemma_remove(o, Piece::Pawn, v);
            lemma_remove_kings(p, o, Piece::Pawn, v);
            let x1 = p.spec_remove(o, Piece::Pawn, v);
            x1.lemma_move(t, Piece::Pawn, from, to);
            lemma_move_kings(x1, t, Piece::Pawn, from, to);
        },
        ChessMoveHint::KingCastle | ChessMoveHint::QueenCastle => {
            let rf = if m.hint == ChessMoveHint::KingCastle { t.spec_mirror_square(Square::H1) } else { t.spec_mirror_square(Square::A1) };
            let rt = if m.hint == ChessMoveHint::KingCastle { t.spec_mirror_square(Square::F1) } else { t.spec_mirror_square(Square::D1) };
            p.lemma_move(t, Piece::King, from, to);
            lemma_move_kings(p, t, Piece::King, from, to);
            let x1 = p.spec_move(t, Piece::King, from, to);
            x1.lemma_move(t, Piece::Rook, rf, rt);
            lemma_move_kings(x1, t, Piece::Rook, rf, rt);
        },
        ChessMoveHint::BishopPromotion | ChessMoveHint::KnightPromotion
        | ChessMoveHint::RookPromotion | ChessMoveHint::QueenPromotion => {
            p.lemma_remove(t, Piece::Pawn, from);
            lemma_remove_kings(p, t, Piece::Pawn, from);
            let x1 = p.spec_remove(t, Piece::Pawn, from);
            x1.lemma_add(t, promoted(m.hint), to);
            lemma_add_kings(x1, t, promoted(m.hint), to);
        },
        _ => {
            let cap = capture.unwrap();
            p.lemma_remove(t, Piece::Pawn, from);
            lemma_remove_kings(p, t, Piece::Pawn, from);
            let x1 = p.spec_remove(t, Piece::Pawn, from);
            x1.lemma_remove(o, cap, to);
            lemma_remove_kings(x1, o, cap, to);
            let x2 = x1.spec_remove(o, cap, to);
            x2.lemma_add(t, promoted(m.hint), to);
            lemma_add_kings(x2, t, promoted(m.hint), to);
        },
    }
}

/// Moving the pieces back, in a position with the board that making the move
/// left and the mover to move, gives the board before the move back.
proof fn lemma_unmake_pieces_facts(p: Position, m: ChessMove, s: Position)
    requires
        p.wf(),
        spec_pseudo_legal(p, m),
        spec_move_applicable(p, m),
        s.sboard() == spec_make_pieces(
            p,
            m,
            p.sboard().spec_piece_at(m.from).unwrap(),
            p.sboard().spec_piece_at(m.to),
        ).sboard(),
        s.sturn() == p.sturn(),
        s.hash_ok(),
    ensures
        ({
            let piece = p.sboard().spec_piece_at(m.from).unwrap();
            let capture = p.sboard().spec_piece_at(m.to);
            let y = spec_unmake_pieces(s, m, s.sboard().spec_piece_at(m.to).unwrap(), capture);
            &&& y.sboard() == p.sboard()
            &&& y.hash_ok()
            &&& y.sturn() == s.sturn()
            &&& y.scastling() == s.scastling()
            &&& y.sen_passant() == s.sen_passant()
            &&& y.smove_index() == s.smove_index()
            &&& y.srule_50() == s.srule_50()
        }),
{
    lemma_move_squares(p, m);
    lemma_make_pieces_facts(p, m);
    let b = p.sboard();
    let t = p.sturn();
    let o = t.opp();
    let piece = b.spec_piece_at(m.from).unwrap();
    let capture = b.spec_piece_at(m.to);
    let from = m.from;
    let to = m.to;
    b.lemma_color_iff_piece(to);
    match m.hint {
        ChessMoveHint::Quiet | ChessMoveHint::DoublePawn => {
            p.lemma_move(t, piece, from, to);
            s.lemma_move(t, piece, to, from);
            lemma_move_back(p, s, t, piece, from, to);
        },
        ChessMoveHint::Caputre => {
            let cap = capture.unwrap();
            p.lemma_remove(o, cap, to);
            let x1 = p.spec_remove(o, cap, to);
            x1.lemma_move(t, piece, from, to);
            s.lemma_move(t, piece, to, from);
            let y1 = s.spec_move(t, piece, to, from);
            lemma_move_back(x1, s, t, piece, from, to);
            y1.lemma_add(o, cap, to);
            lemma_remove_back(p, y1, o, cap, to);
        },
        ChessMoveHint::EnPassantCapture => {
            let v = en_passant_victim(m);
            p.lemma_remove(o, Piece::Pawn, v);
            let x1 = p.spec_remove(o, Piece::Pawn, v);
            x1.lemma_move(t, Piece::Pawn, from, to);
            s.lemma_move(t, Piece::Pawn, to, from);
            let y1 = s.spec_move(t, Piece::Pawn, to, from);
            lemma_move_back(x1, s, t, Piece::Pawn, from, to);
            y1.lemma_add(o, Piece::Pawn, v);
            lemma_remove_back(p, y1, o, Piece::Pawn, v);
        },
        ChessMoveHint::KingCastle | ChessMoveHint::QueenCastle => {
            let rf = if m.hint == ChessMoveHint::KingCastle { t.spec_mirror_square(Square::H1) } else { t.spec_mirror_square(Square::A1) };
            let rt = if m.hint == ChessMoveHint::KingCastle { t.spec_mirror_square(Square::F1) } else { t.spec_mirror_square(Square::D1) };
            p.lemma_move(t, Piece::King, from, to);
            let x1 = p.spec_move(t, Piece::King, from, to);
            x1.lemma_move(t, Piece::Rook, rf, rt);
            s.lemma_move(t, Piece::King, to, from);
            let y1 = s.spec_move(t, Piece::King, to, from);
            y1.lemma_move(t, Piece::Rook, rt, rf);
            b.lemma_color_iff_piece(rt);
            let z = y1.spec_move(t, Piece::Rook, rt, rf);
            assert forall|sq: Square|
                z.sboard().spec_color_at(sq) == b.spec_color_at(sq) && z.sboard().spec_piece_at(sq)
                    == b.spec_piece_at(sq) by {
                if sq != from && sq != to && sq != rf && sq != rt {
                    assert(x1.sboard().spec_color_at(sq) == b.spec_color_at(sq));
                }
            }
            crate::position::lemma_board_contents_equal(z.sboard(), b);
        },
        ChessMoveHint::BishopPromotion | ChessMoveHint::KnightPromotion
        | ChessMoveHint::RookPromotion | ChessMoveHint::QueenPromotion => {
            let pr = promoted(m.hint);
            p.lemma_remove(t, Piece::Pawn, from);
            let x1 = p.spec_remove(t, Piece::Pawn, from);
            x1.lemma_add(t, pr, to);
            s.lemma_remove(t, pr, to);
            let y1 = s.spec_remove(t, pr, to);
            lemma_add_back(x1, s, t, pr, to);
            y1.lemma_add(t, Piece::Pawn, from);
            lemma_remove_back(p, y1, t, Piece::Pawn, from);
        },
        _ => {
            let cap = capture.unwrap();
            let pr = promoted(m.hint);
            p.lemma_remove(t, Piece::Pawn, from);
            let x1 = p.spec_remove(t, Piece::Pawn, from);
            x1.lemma_remove(o, cap, to);
            let x2 = x1.spec_remove(o, cap, to);
            x2.lemma_add(t, pr, to);
            s.lemma_remove(t, pr, to);
            let y1 = s.spec_remove(t, pr, to);
            lemma_add_back(x2, s, t, pr, to);
            y1.lemma_add(o, cap, to);
            let y2 = y1.spec_add(o, cap, to);
            lemma_remove_back(x1, y1, o, cap, to);
            y2.lemma_add(t, Piece::Pawn, from);
            lemma_remove_back(p, y2, t, Piece::Pawn, from);
        },
    }
}

/// Making a pseudo-legal, applicable move keeps the position consistent, and
/// rolling it back with the data that making it returned gives the position
/// before the move back: pieces, side to move, castling rights, en passant
/// file, hash and move counters.
pub proof fn lemma_make_unmake(p: Position, m: ChessMove)
    requires
        p.wf(),
        spec_pseudo_legal(p, m),
        spec_move_applicable(p, m),
        p.smove_index() < u32::MAX,
    ensures
        spec_make(p, m).0.wf(),
        spec_unmake_ok(spec_make(p, m).0, spec_make(p, m).1),
        spec_unmake(spec_make(p, m).0, spec_make(p, m).1) == p,
{
    reveal(spec_make);
    reveal(spec_unmake);
    lemma_make_pieces_facts(p, m);
    let piece = p.sboard().spec_piece_at(m.from).unwrap();
    let capture = p.sboard().spec_piece_at(m.to);
    let t = p.sturn();
    let x = spec_make_pieces(p, m, piece, capture);
    let lost = spec_lost_rights(t, m, piece, capture);
    let c2 = CastlingRights(x.scastling().0 & (!lost & 15u8));
    let ep = if m.hint == ChessMoveHint::DoublePawn { Some(m.from.spec_file()) } else { None };
    x.lemma_setters(c2, ep, 0, 0);
    let q2 = x.spec_set_castling(c2);
    q2.lemma_setters(c2, ep, 0, 0);
    let q3 = q2.spec_set_en_passant(ep);
    q3.lemma_setters(c2, ep, 0, 0);
    let q4 = q3.spec_swap_turn();
    let mi = q4.smove_index();
    let r50 = if spec_resets_clock(m, piece) { (mi + 1) as u32 } else { q4.srule_50() };
    q4.lemma_setters(c2, ep, (mi + 1) as u32, r50);
    let q = spec_make(p, m).0;
    let u = spec_make(p, m).1;
    assert(q == q4.spec_set_counters((mi + 1) as u32, r50));

    q.lemma_setters(u.castling_rights, u.en_passant, 0, 0);
    let s1 = q.spec_swap_turn();
    s1.lemma_setters(u.castling_rights, u.en_passant, 0, 0);
    let s2 = s1.spec_set_castling(u.castling_rights);
    s2.lemma_setters(u.castling_rights, u.en_passant, 0, 0);
    let s3 = s2.spec_set_en_passant(u.en_passant);
    let mi2 = (q.smove_index() - 1) as u32;
    let r502 = (q.smove_index() - 1 - u.halfmove_clock) as u32;
    s3.lemma_setters(u.castling_rights, u.en_passant, mi2, r502);
    let s4 = s3.spec_set_counters(mi2, r502);
    lemma_unmake_pieces_facts(p, m, s4);
    let y = spec_unmake_pieces(s4, m, s4.sboard().spec_piece_at(m.to).unwrap(), u.capture);
    assert(y == spec_unmake(q, u));
    lemma_position_equal(y, p);
}

/// Making a move adds one to the move index and restarts the halfmove clock
/// exactly when a pawn moves or a piece is captured; any other move leaves
/// the index of the last restart as it was, so the clock goes up by one.
pub proof fn lemma_make_halfmove_clock(p: Position, m: ChessMove)
    requires
        p.wf(),
        spec_pseudo_legal(p, m),
        spec_move_applicable(p, m),
        p.smove_index() < u32::MAX,
    ensures
        spec_make(p, m).0.smove_index() == p.smove_index() + 1,
        (p.sboard().spec_piece_at(m.from) == Some(Piece::Pawn) || m.hint.spec_is_capture())
            <==> spec_make(p, m).0.srule_50() == spec_make(p, m).0.smove_index(),
        !(p.sboard().spec_piece_at(m.from) == Some(Piece::Pawn) || m.hint.spec_is_capture())
            ==> spec_make(p, m).0.srule_50() == p.srule_50(),
{
    reveal(spec_make);
    lemma_make_pieces_facts(p, m);
    let piece = p.sboard().spec_piece_at(m.from).unwrap();
    assert(p.sboard().spec_piece_at(m.from) is Some && (m.hint == ChessMoveHint::DoublePawn
        || m.hint.spec_is_promotion() ==> piece == Piece::Pawn) && (m.hint == ChessMoveHint::KingCastle
        || m.hint == ChessMoveHint::QueenCastle ==> piece == Piece::King)) by {
        reveal(spec_pseudo_legal);
    }
    assert(spec_resets_clock(m, piece) <==> (piece == Piece::Pawn || m.hint.spec_is_capture()));
    let capture = p.sboard().spec_piece_at(m.to);
    let t = p.sturn();
    let x = spec_make_pieces(p, m, piece, capture);
    let lost = spec_lost_rights(t, m, piece, capture);
    let c2 = CastlingRights(x.scastling().0 & (!lost & 15u8));
    let ep = if m.hint == ChessMoveHint::DoublePawn { Some(m.from.spec_file()) } else { None };
    x.lemma_setters(c2, ep, 0, 0);
    let q2 = x.spec_set_castling(c2);
    q2.lemma_setters(c2, ep, 0, 0);
    let q3 = q2.spec_set_en_passant(ep);
    q3.lemma_setters(c2, ep, 0, 0);
    let q4 = q3.spec_swap_turn();
    let mi = q4.smove_index();
    let r50 = if spec_resets_clock(m, piece) { (mi + 1) as u32 } else { q4.srule_50() };
    q4.lemma_setters(c2, ep, (mi + 1) as u32, r50);
    assert(spec_make(p, m).0 == q4.spec_set_counters((mi + 1) as u32, r50));
}

/// A piece on a square of a consistent board sets the square in the mask of
/// its color and kind.
proof fn lemma_piece_bit(b: Board, sq: Square, c: Color, pc: Piece)
    requires
        b.wf(),
        b.spec_color_at(sq) == Some(c),
        b.spec_piece_at(sq) == Some(pc),
    ensures
        bit(b.color_piece_bb(c, pc), sq.idx()),
{
    lemma_occupied_bits(b, sq, c, pc);
    sq.lemma_repr_roundtrip();
    crate::bitboard::lemma_bit_ops(b.color_bb(c), b.piece_bb(pc));
}

/// Castling rights fit a board that has the king and the rook of every right on
/// their initial squares.
pub proof fn lemma_castling_fits(b: Board, c: CastlingRights)
    requires
        b.wf(),
        c.0 < 16,
        c.0 & 1 == 1 ==> castle_pieces(b, Color::White, Square::H1),
        c.0 & 2 == 2 ==> castle_pieces(b, Color::White, Square::A1),
        c.0 & 4 == 4 ==> castle_pieces(b, Color::Black, Square::H1),
        c.0 & 8 == 8 ==> castle_pieces(b, Color::Black, Square::A1),
    ensures
        spec_castling_allowed(b, c),
{
    let wk = b.color_piece_bb(Color::White, Piece::King);
    let wr = b.color_piece_bb(Color::White, Piece::Rook);
    let bk = b.color_piece_bb(Color::Black, Piece::King);
    let br = b.color_piece_bb(Color::Black, Piece::Rook);
    Square::lemma_from_repr_in_range(60);
    Square::lemma_from_repr_in_range(63);
    Square::lemma_from_repr_in_range(56);
    let e8 = Color::Black.spec_mirror_square(Square::E1);
    let h8 = Color::Black.spec_mirror_square(Square::H1);
    let a8 = Color::Black.spec_mirror_square(Square::A1);
    e8.lemma_repr_roundtrip();
    h8.lemma_repr_roundtrip();
    a8.lemma_repr_roundtrip();
    if c.0 & 1 == 1 {
        lemma_piece_bit(b, Square::E1, Color::White, Piece::King);
        lemma_piece_bit(b, Square::H1, Color::White, Piece::Rook);
    }
    if c.0 & 2 == 2 {
        lemma_piece_bit(b, Square::E1, Color::White, Piece::King);
        lemma_piece_bit(b, Square::A1, Color::White, Piece::Rook);
    }
    if c.0 & 4 == 4 {
        lemma_piece_bit(b, e8, Color::Black, Piece::King);
        lemma_piece_bit(b, h8, Color::Black, Piece::Rook);
    }
    if c.0 & 8 == 8 {
        lemma_piece_bit(b, e8, Color::Black, Piece::King);
        lemma_piece_bit(b, a8, Color::Black, Piece::Rook);
    }
    let w: u8 = if !bit(wk, 4) { 0 } else { ((if bit(wr, 7) { 1int } else { 0 }) + (if bit(wr, 0) { 2int } else { 0 })) as u8 };
    let bb: u8 = if !bit(bk, 60) { 0 } else { ((if bit(br, 63) { 4int } else { 0 }) + (if bit(br, 56) { 8int } else { 0 })) as u8 };
    assert(spec_castling_max(b) == (w + bb) as u8);
    let x = c.0;
    let wb: u8 = if bit(wk, 4) && bit(wr, 7) { 1 } else { 0 };
    let wa: u8 = if bit(wk, 4) && bit(wr, 0) { 2 } else { 0 };
    let bh: u8 = if bit(bk, 60) && bit(br, 63) { 4 } else { 0 };
    let ba: u8 = if bit(bk, 60) && bit(br, 56) { 8 } else { 0 };
    assert(w == wb + wa && bb == bh + ba);
    assert((wb == 0 || wb == 1) && (wa == 0 || wa == 2) && (bh == 0 || bh == 4) && (ba == 0 || ba == 8) && x < 16
        && (x & 1 == 1 ==> wb == 1) && (x & 2 == 2 ==> wa == 2) && (x & 4 == 4 ==> bh == 4) && (x & 8 == 8 ==> ba == 8)
        ==> ((wb + wa + bh + ba) as u8) & x == x) by (bit_vector);
}

/// The king and a rook of the color on their initial squares, the rook on the
/// corner `corner` (seen from white's side).
pub open spec fn castle_pieces(b: Board, c: Color, corner: Square) -> bool {
    &&& b.spec_color_at(c.spec_mirror_square(Square::E1)) == Some(c)
    &&& b.spec_piece_at(c.spec_mirror_square(Square::E1)) == Some(Piece::King)
    &&& b.spec_color_at(c.spec_mirror_square(corner)) == Some(c)
    &&& b.spec_piece_at(c.spec_mirror_square(corner)) == Some(Piece::Rook)
}

/// The castling right of the color on the side of the corner, as a bit.
pub open spec fn right_bit(color: Color, corner: Square) -> u8 {
    if color == Color::White {
        if corner == Square::H1 { 1 } else { 2 }
    } else {
        if corner == Square::H1 { 4 } else { 8 }
    }
}

/// Bits of the rights computations.
proof fn lemma_right_bits(x: u8, y: u8, c: u8, k: u8)
    by (bit_vector)
    requires
        k == 1 || k == 2 || k == 4 || k == 8,
    ensures
        (x & k == k || y & k == k) ==> (x | y) & k == k,
        (c & (!x & 15u8)) & k == k ==> c & k == k && x & k != k,
        3u8 & 1 == 1 && 3u8 & 2 == 2 && 12u8 & 4 == 4 && 12u8 & 8 == 8,
        k & k == k,
        c & (!x & 15u8) < 16,
{
}

/// The rights a move takes away: both of the mover's when the king moves or
/// castles, one when a rook leaves its corner, and the opponent's when a rook
/// is taken on its corner.
proof fn lemma_lost_bits(t: Color, m: ChessMove, piece: Piece, capture: Option<Piece>, color: Color, corner: Square)
    requires
        corner == Square::H1 || corner == Square::A1,
    ensures
        ({
            let k = right_bit(color, corner);
            let lost = spec_lost_rights(t, m, piece, capture);
            &&& (color == t && (m.hint == ChessMoveHint::KingCastle || m.hint == ChessMoveHint::QueenCastle
                || ((m.hint == ChessMoveHint::Quiet || m.hint == ChessMoveHint::Caputre) && piece == Piece::King))) ==> lost & k == k
            &&& (color == t && (m.hint == ChessMoveHint::Quiet || m.hint == ChessMoveHint::Caputre) && piece == Piece::Rook
                && m.from == t.spec_mirror_square(corner)) ==> lost & k == k
            &&& (color == t.opp() && capture == Some(Piece::Rook) && m.to == color.spec_mirror_square(corner)) ==> lost & k == k
        }),
{
    let both: u8 = if t == Color::White { 3 } else { 12 };
    let k = right_bit(color, corner);
    let from_rights: u8 = match m.hint {
        ChessMoveHint::KingCastle | ChessMoveHint::QueenCastle => both,
        ChessMoveHint::Quiet | ChessMoveHint::Caputre => match piece {
            Piece::King => both,
            Piece::Rook => if m.from == t.spec_mirror_square(Square::H1) {
                if t == Color::White { 1u8 } else { 4u8 }
            } else if m.from == t.spec_mirror_square(Square::A1) {
                if t == Color::White { 2u8 } else { 8u8 }
            } else {
                0u8
            },
            _ => 0u8,
        },
        _ => 0u8,
    };
    let o = t.opp();
    let to_rights: u8 = match capture {
        Some(Piece::Rook) => if m.to == o.spec_mirror_square(Square::H1) {
            if o == Color::White { 1u8 } else { 4u8 }
        } else if m.to == o.spec_mirror_square(Square::A1) {
            if o == Color::White { 2u8 } else { 8u8 }
        } else {
            0u8
        },
        _ => 0u8,
    };
    assert(spec_lost_rights(t, m, piece, capture) == from_rights | to_rights);
    lemma_right_bits(from_rights, to_rights, 0, k);
    t.lemma_mirror_idx(Square::H1);
    t.lemma_mirror_idx(Square::A1);
    o.lemma_mirror_idx(Square::H1);
    o.lemma_mirror_idx(Square::A1);
    if t.spec_mirror_square(Square::H1) == t.spec_mirror_square(Square::A1) {
        assert(false);
    }
    if o.spec_mirror_square(Square::H1) == o.spec_mirror_square(Square::A1) {
        assert(false);
    }
}

/// A castling right that a move keeps keeps its king and rook in place.
proof fn lemma_right_kept(p: Position, m: ChessMove, color: Color, corner: Square)
    requires
        p.wf(),
        spec_pseudo_legal(p, m),
        spec_move_applicable(p, m),
        corner == Square::H1 || corner == Square::A1,
        castle_pieces(p.sboard(), color, corner),
        spec_lost_rights(
            p.sturn(),
            m,
            p.sboard().spec_piece_at(m.from).unwrap(),
            p.sboard().spec_piece_at(m.to),
        ) & right_bit(color, corner) != right_bit(color, corner),
    ensures
        castle_pieces(
            spec_make_pieces(p, m, p.sboard().spec_piece_at(m.from).unwrap(), p.sboard().spec_piece_at(m.to)).sboard(),
            color,
            corner,
        ),
{
    lemma_move_squares(p, m);
    lemma_make_pieces_facts(p, m);
    let b = p.sboard();
    let t = p.sturn();
    let piece = b.spec_piece_at(m.from).unwrap();
    let capture = b.spec_piece_at(m.to);
    let e1 = color.spec_mirror_square(Square::E1);
    let cm = color.spec_mirror_square(corner);
    lemma_lost_bits(t, m, piece, capture, color, corner);
    b.lemma_color_iff_piece(m.to);
    assert(e1 != m.from);
    assert(cm != m.from);
    assert(e1 != m.to);
    assert(cm != m.to);
    assert(!touched(m, t, e1));
    assert(!touched(m, t, cm));
}

/// A double push of one pawn lands two ranks ahead over an empty square.
proof fn lemma_double_push_shape(f: int, e: u64, color: Color, to: int)
    requires
        0 <= f < 64,
        0 <= to < 64,
        pawn_push_spec(pawn_push_spec(1u64 << (f as u64), e, color), e, color) == 1u64 << (to as u64),
    ensures
        to == (if color == Color::White { f + 16 } else { f - 16 }),
        bit(e, if color == Color::White { f + 8 } else { f - 8 }),
{
    let once = pawn_push_spec(1u64 << (f as u64), e, color);
    crate::bitboard::lemma_bit_single(to);
    crate::bitboard::lemma_bit_single(f);
    crate::move_generation::lemma_pawn_push_bits(once, e, color);
    crate::move_generation::lemma_pawn_push_bits(1u64 << (f as u64), e, color);
    assert(bit(1u64 << (to as u64), to));
    if color == Color::White {
        assert(bit(once, to - 8));
        assert(bit(1u64 << (f as u64), to - 16));
    } else {
        assert(bit(once, to + 8));
        assert(bit(1u64 << (f as u64), to + 16));
    }
}

/// Making a pseudo-legal, applicable move keeps the castling rights and the en
/// passant file fitting the board.
pub proof fn lemma_make_rights_fit(p: Position, m: ChessMove)
    requires
        p.wf(),
        p.rights_fit(),
        spec_pseudo_legal(p, m),
        spec_move_applicable(p, m),
        p.smove_index() < u32::MAX,
    ensures
        spec_make(p, m).0.rights_fit(),
{
    reveal(spec_make);
    lemma_move_squares(p, m);
    lemma_make_pieces_facts(p, m);
    let b = p.sboard();
    let t = p.sturn();
    let piece = b.spec_piece_at(m.from).unwrap();
    let capture = b.spec_piece_at(m.to);
    let x = spec_make_pieces(p, m, piece, capture);
    let lost = spec_lost_rights(t, m, piece, capture);
    let c = p.scastling().0;
    let c2 = c & (!lost & 15u8);
    let q = spec_make(p, m).0;
    assert(q.sboard() == x.sboard());
    assert(q.scastling().0 == c2);
    assert(q.sturn() == t.opp());
    lemma_castling_squares(b, p.scastling(), Color::White);
    lemma_castling_squares(b, p.scastling(), Color::Black);
    assert forall|color: Color, corner: Square| (corner == Square::H1 || corner == Square::A1) && #[trigger] (c2 & right_bit(color, corner))
        == right_bit(color, corner) implies castle_pieces(x.sboard(), color, corner) by {
        lemma_right_bits(lost, 0, c, right_bit(color, corner));
        lemma_right_kept(p, m, color, corner);
    }
    lemma_right_bits(lost, 0, c, 1);
    assert(c2 & right_bit(Color::White, Square::H1) == right_bit(Color::White, Square::H1) ==> castle_pieces(x.sboard(), Color::White, Square::H1));
    assert(c2 & right_bit(Color::White, Square::A1) == right_bit(Color::White, Square::A1) ==> castle_pieces(x.sboard(), Color::White, Square::A1));
    assert(c2 & right_bit(Color::Black, Square::H1) == right_bit(Color::Black, Square::H1) ==> castle_pieces(x.sboard(), Color::Black, Square::H1));
    assert(c2 & right_bit(Color::Black, Square::A1) == right_bit(Color::Black, Square::A1) ==> castle_pieces(x.sboard(), Color::Black, Square::A1));
    lemma_castling_fits(x.sboard(), q.scastling());
    if m.hint == ChessMoveHint::DoublePawn {
        reveal(spec_pseudo_legal);
        let occ = b.occupied_bb();
        m.from.lemma_repr_roundtrip();
        m.to.lemma_repr_roundtrip();
        lemma_double_push_shape(m.from.idx(), !occ, t, m.to.idx());
        let mi = if t == Color::White { m.from.idx() + 8 } else { m.from.idx() - 8 };
        Square::lemma_from_repr_in_range(mi);
        let mid = Square::spec_from_repr(mi).unwrap();
        mid.lemma_repr_roundtrip();
        crate::bitboard::lemma_bit_ops(occ, occ);
        b.lemma_color_iff_piece(mid);
        assert(!touched(m, t, mid));
        let file = m.from.spec_file();
        File::lemma_from_repr_in_range(m.from.idx() % 8);
        let o = t.opp();
        let v = if o == Color::White { 4int } else { 3int };
        let tg = if o == Color::White { 5int } else { 2int };
        Square::lemma_from_repr_in_range(v * 8 + file.idx());
        Square::lemma_from_repr_in_range(tg * 8 + file.idx());
        Square::lemma_idx_injective(Square::spec_from_repr(v * 8 + file.idx()).unwrap(), m.to);
        Square::lemma_idx_injective(Square::spec_from_repr(tg * 8 + file.idx()).unwrap(), mid);
        assert(crate::position::en_passant_fits(x.sboard(), o, file));
    }
}

} // verus!
