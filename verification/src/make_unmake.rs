//! Making and unmaking chess moves.

use vstd::prelude::*;

use crate::castling_rights::CastlingRights;
use crate::movegen::{spec_pseudo_legal, ChessMove, ChessMoveHint};
use crate::pieces::{Color, Piece};
use crate::position::Position;
use crate::square::{File, Square};

verus! {

broadcast use Position::lemma_mk;

/// Data needed to roll back a move.
#[derive(Debug, Clone, Copy, PartialEq, Eq, Structural)]
pub struct ChessUnmove {
    /// The move that was made.
    pub chess_move: ChessMove,
    /// The kind of piece that stood on the destination square.
    pub capture: Option<Piece>,
    /// The en passant file before the move.
    pub en_passant: Option<File>,
    /// The castling rights before the move.
    pub castling_rights: CastlingRights,
    /// The halfmove clock before the move.
    pub halfmove_clock: u32,
}

/// Requirements on a pseudo-legal move beyond its pseudo-legality that making it
/// needs: it captures no king, an en passant capture is made by a pawn onto an
/// empty square, and a castling move keeps the rook's path free and finds the rook
/// on its corner.
pub open spec fn spec_move_applicable(p: Position, m: ChessMove) -> bool {
    let b = p.sboard();
    let t = p.sturn();
    &&& b.spec_piece_at(m.to) != Some(Piece::King)
    &&& m.hint == ChessMoveHint::EnPassantCapture ==> b.spec_piece_at(m.from) == Some(Piece::Pawn)
        && b.spec_color_at(m.to) is None
    &&& m.hint == ChessMoveHint::KingCastle ==> m.to != t.spec_mirror_square(Square::F1)
        && b.spec_color_at(t.spec_mirror_square(Square::H1)) == Some(t) && b.spec_piece_at(
        t.spec_mirror_square(Square::H1),
    ) == Some(Piece::Rook)
    &&& m.hint == ChessMoveHint::QueenCastle ==> m.to != t.spec_mirror_square(Square::D1)
        && b.spec_color_at(t.spec_mirror_square(Square::A1)) == Some(t) && b.spec_piece_at(
        t.spec_mirror_square(Square::A1),
    ) == Some(Piece::Rook)
}

/// The piece a promoting hint promotes to.
pub open spec fn promoted(hint: ChessMoveHint) -> Piece {
    match hint {
        ChessMoveHint::BishopPromotion | ChessMoveHint::BishopPromotionCapture => Piece::Bishop,
        ChessMoveHint::KnightPromotion | ChessMoveHint::KnightPromotionCapture => Piece::Knight,
        ChessMoveHint::RookPromotion | ChessMoveHint::RookPromotionCapture => Piece::Rook,
        _ => Piece::Queen,
    }
}

/// The square of the pawn taken by an en passant capture.
pub open spec fn en_passant_victim(m: ChessMove) -> Square {
    Square::spec_new(m.from.spec_rank(), m.to.spec_file())
}

/// The pieces moved by a move, as a position.
pub open spec fn spec_make_pieces(p: Position, m: ChessMove, piece: Piece, capture: Option<Piece>) -> Position {
    let t = p.sturn();
    let o = t.opp();
    match m.hint {
        ChessMoveHint::Quiet => p.spec_move(t, piece, m.from, m.to),
        ChessMoveHint::DoublePawn => p.spec_move(t, Piece::Pawn, m.from, m.to),
        ChessMoveHint::BishopPromotion | ChessMoveHint::KnightPromotion
        | ChessMoveHint::RookPromotion | ChessMoveHint::QueenPromotion => p.spec_remove(
            t,
            Piece::Pawn,
            m.from,
        ).spec_add(t, promoted(m.hint), m.to),
        ChessMoveHint::Caputre => p.spec_remove(o, capture.unwrap(), m.to).spec_move(
            t,
            piece,
            m.from,
            m.to,
        ),
        ChessMoveHint::EnPassantCapture => p.spec_remove(o, Piece::Pawn, en_passant_victim(m)).spec_move(
            t,
            Piece::Pawn,
            m.from,
            m.to,
        ),
        ChessMoveHint::BishopPromotionCapture | ChessMoveHint::KnightPromotionCapture
        | ChessMoveHint::RookPromotionCapture | ChessMoveHint::QueenPromotionCapture => p.spec_remove(
            t,
            Piece::Pawn,
            m.from,
        ).spec_remove(o, capture.unwrap(), m.to).spec_add(t, promoted(m.hint), m.to),
        ChessMoveHint::KingCastle => p.spec_move(t, Piece::King, m.from, m.to).spec_move(
            t,
            Piece::Rook,
            t.spec_mirror_square(Square::H1),
            t.spec_mirror_square(Square::F1),
        ),
        ChessMoveHint::QueenCastle => p.spec_move(t, Piece::King, m.from, m.to).spec_move(
            t,
            Piece::Rook,
            t.spec_mirror_square(Square::A1),
            t.spec_mirror_square(Square::D1),
        ),
    }
}

/// Whether the move restarts the halfmove clock: pawn moves, captures and promotions.
pub open spec fn spec_resets_clock(m: ChessMove, piece: Piece) -> bool {
    match m.hint {
        ChessMoveHint::Quiet => piece == Piece::Pawn,
        ChessMoveHint::DoublePawn => true,
        _ => m.hint.spec_is_capture() || m.hint.spec_is_promotion(),
    }
}

/// The castling rights a move takes away: both sides when the king moves or
/// castles, one side when a rook leaves its corner, and the opponent's side when
/// a rook is captured on its corner.
pub open spec fn spec_lost_rights(t: Color, m: ChessMove, piece: Piece, capture: Option<Piece>) -> u8 {
    let both: u8 = if t == Color::White { 3 } else { 12 };
    let from_rights: u8 = match m.hint {
        ChessMoveHint::KingCastle | ChessMoveHint::QueenCastle => both,
        ChessMoveHint::Quiet | ChessMoveHint::Caputre => match piece {
            Piece::King => both,
            Piece::Rook => if m.from == t.spec_mirror_square(Square::H1) {
                if t == Color::White { 1u8 } else { 4u8 }
            } else if m.from == t.spec_mirror_square(Square::A1) {
                if t == Color::White { 2u8 } else { 8u8 }
            } else {
                0u8
            },
            _ => 0u8,
        },
        _ => 0u8,
    };
    let o = t.opp();
    let to_rights: u8 = match capture {
        Some(Piece::Rook) => if m.to == o.spec_mirror_square(Square::H1) {
            if o == Color::White { 1u8 } else { 4u8 }
        } else if m.to == o.spec_mirror_square(Square::A1) {
            if o == Color::White { 2u8 } else { 8u8 }
        } else {
            0u8
        },
        _ => 0u8,
    };
    from_rights | to_rights
}

/// The position after a move and the data needed to roll it back.
#[verifier::opaque]
pub open spec fn spec_make(p: Position, m: ChessMove) -> (Position, ChessUnmove) {
    let piece = p.sboard().spec_piece_at(m.from).unwrap();
    let capture = p.sboard().spec_piece_at(m.to);
    let t = p.sturn();
    let q1 = spec_make_pieces(p, m, piece, capture);
    let lost = spec_lost_rights(t, m, piece, capture);
    let q2 = q1.spec_set_castling(CastlingRights(q1.scastling().0 & (!lost & 15u8)));
    let q3 = q2.spec_set_en_passant(
        if m.hint == ChessMoveHint::DoublePawn { Some(m.from.spec_file()) } else { None },
    );
    let q4 = q3.spec_swap_turn();
    let mi = q4.smove_index();
    let q5 = q4.spec_set_counters(
        (mi + 1) as u32,
        if spec_resets_clock(m, piece) { (mi + 1) as u32 } else { q4.srule_50() },
    );
    (
        q5,
        ChessUnmove {
            chess_move: m,
            capture,
            en_passant: p.sen_passant(),
            castling_rights: p.scastling(),
            halfmove_clock: (mi - q4.srule_50()) as u32,
        },
    )
}

/// The squares that a pseudo-legal, applicable move touches hold what making it
/// expects: the mover's piece on the origin, an empty or enemy destination, the
/// taken pawn of an en passant capture and the rook of a castling move.
pub proof fn lemma_move_squares(p: Position, m: ChessMove)
    requires
        p.wf(),
        spec_pseudo_legal(p, m),
        spec_move_applicable(p, m),
    ensures
        p.sboard().spec_color_at(m.from) == Some(p.sturn()),
        p.sboard().spec_piece_at(m.from) is Some,
        m.from != m.to,
        !m.hint.spec_is_capture() ==> p.sboard().spec_color_at(m.to) is None,
        m.hint.spec_is_capture() && m.hint != ChessMoveHint::EnPassantCapture ==> p.sboard().spec_color_at(m.to) == Some(p.sturn().opp())
            && p.sboard().spec_piece_at(m.to) is Some,
        m.hint == ChessMoveHint::DoublePawn || m.hint.spec_is_promotion() ==> p.sboard().spec_piece_at(m.from) == Some(Piece::Pawn),
        m.hint == ChessMoveHint::EnPassantCapture ==> {
            &&& p.sboard().spec_piece_at(m.from) == Some(Piece::Pawn)
            &&& p.sboard().spec_color_at(m.to) is None
            &&& p.sboard().spec_color_at(en_passant_victim(m)) == Some(p.sturn().opp())
            &&& p.sboard().spec_piece_at(en_passant_victim(m)) == Some(Piece::Pawn)
            &&& en_passant_victim(m) != m.from
            &&& en_passant_victim(m) != m.to
        },
        m.hint == ChessMoveHint::KingCastle ==> castle_squares_ok(p.sboard(), p.sturn(), m, Square::H1, Square::F1),
        m.hint == ChessMoveHint::QueenCastle ==> castle_squares_ok(p.sboard(), p.sturn(), m, Square::A1, Square::D1),
{
    reveal(spec_pseudo_legal);
    let b = p.sboard();
    let t = p.sturn();
    b.lemma_color_iff_piece(m.from);
    b.lemma_color_iff_piece(m.to);
    b.lemma_color_iff_piece(en_passant_victim(m));
    b.lemma_color_iff_piece(t.spec_mirror_square(Square::H1));
    b.lemma_color_iff_piece(t.spec_mirror_square(Square::F1));
    b.lemma_color_iff_piece(t.spec_mirror_square(Square::A1));
    b.lemma_color_iff_piece(t.spec_mirror_square(Square::D1));
}

/// The king and rook squares of a castling move with the rook going from the
/// corner `rook_from` to `rook_to` (both seen from white's side).
pub open spec fn castle_squares_ok(b: crate::board::Board, t: Color, m: ChessMove, rook_from: Square, rook_to: Square) -> bool {
    let rf = t.spec_mirror_square(rook_from);
    let rt = t.spec_mirror_square(rook_to);
    &&& b.spec_piece_at(m.from) == Some(Piece::King)
    &&& b.spec_color_at(rf) == Some(t)
    &&& b.spec_piece_at(rf) == Some(Piece::Rook)
    &&& b.spec_color_at(rt) is None
    &&& rt != m.to
    &&& rf != m.to
    &&& rf != m.from
    &&& rt != m.from
}

/// Making a move hands the turn to the other side and records the move.
pub proof fn lemma_make_shape(p: Position, m: ChessMove)
    ensures
        spec_make(p, m).1.chess_move == m,
        spec_make(p, m).0.sturn() == p.sturn().opp(),
{
    reveal(spec_make);
}

impl Position {
    /// Returns whether a pseudo-legal move can be made: it captures no king, an
    /// en passant capture is made by a pawn onto an empty square, and a castling
    /// move finds its rook on the corner and leaves the rook's square to it.
    pub fn is_move_applicable(&self, chess_move: ChessMove) -> (r: bool)
        ensures
            r == spec_move_applicable(*self, chess_move),
    {
        let board = self.board();
        let turn = self.turn();
        let from = chess_move.orig_square();
        let to = chess_move.dest_square();
        if matches!(board.get_piece_at(to), Some(Piece::King)) {
            return false;
        }
        match chess_move.hint() {
            ChessMoveHint::EnPassantCapture => {
                matches!(board.get_piece_at(from), Some(Piece::Pawn)) && board.get_color_at(to).is_none()
            },
            ChessMoveHint::KingCastle => {
                let corner = turn.mirror_square(Square::H1);
                to != turn.mirror_square(Square::F1) && matches!(board.get_piece_at(corner), Some(Piece::Rook))
                    && match board.get_color_at(corner) {
                    Some(c) => c == turn,
                    None => false,
                }
            },
            ChessMoveHint::QueenCastle => {
                let corner = turn.mirror_square(Square::A1);
                to != turn.mirror_square(Square::D1) && matches!(board.get_piece_at(corner), Some(Piece::Rook))
                    && match board.get_color_at(corner) {
                    Some(c) => c == turn,
                    None => false,
                }
            },
            _ => true,
        }
    }
}

impl Position {
    /// Moves the pieces of a move whose pieces are known.
    fn make_pieces(&mut self, chess_move: ChessMove, piece: Piece, capture: Option<Piece>)
        requires
            old(self).wf(),
            spec_pseudo_legal(*old(self), chess_move),
            spec_move_applicable(*old(self), chess_move),
            old(self).sboard().spec_piece_at(chess_move.from) == Some(piece),
            old(self).sboard().spec_piece_at(chess_move.to) == capture,
        ensures
            *final(self) == spec_make_pieces(*old(self), chess_move, piece, capture),
    {
        proof {
            lemma_move_squares(*self, chess_move);
        }
        let from = chess_move.orig_square();
        let to = chess_move.dest_square();
        let hint = chess_move.hint();
        let turn = self.turn();
        let opp = turn.not();
        match hint {
            ChessMoveHint::Quiet => {
                self.move_color_piece(turn, piece, from, to);
            },
            ChessMoveHint::DoublePawn => {
                self.move_color_piece(turn, Piece::Pawn, from, to);
            },
            ChessMoveHint::Caputre => {
                self.remove_color_piece(opp, capture.unwrap(), to);
                self.move_color_piece(turn, piece, from, to);
            },
            ChessMoveHint::EnPassantCapture => {
                let victim = Square::new(from.rank(), to.file());
                self.remove_color_piece(opp, Piece::Pawn, victim);
                self.move_color_piece(turn, Piece::Pawn, from, to);
            },
            ChessMoveHint::KingCastle => {
                self.move_color_piece(turn, Piece::King, from, to);
                self.move_color_piece(turn, Piece::Rook, turn.mirror_square(Square::H1), turn.mirror_square(Square::F1));
            },
            ChessMoveHint::QueenCastle => {
                self.move_color_piece(turn, Piece::King, from, to);
                self.move_color_piece(turn, Piece::Rook, turn.mirror_square(Square::A1), turn.mirror_square(Square::D1));
            },
            _ => {
                self.make_promotion_pieces(chess_move, capture);
            },
        }
    }

    /// Replaces the pawn of a promotion by the promoted piece.
    fn make_promotion_pieces(&mut self, chess_move: ChessMove, capture: Option<Piece>)
        requires
            old(self).sboard().wf(),
            chess_move.hint.spec_is_promotion(),
            chess_move.from != chess_move.to,
            old(self).sboard().spec_color_at(chess_move.from) == Some(old(self).sturn()),
            old(self).sboard().spec_piece_at(chess_move.from) == Some(Piece::Pawn),
            old(self).sboard().spec_piece_at(chess_move.to) == capture,
            !chess_move.hint.spec_is_capture() ==> old(self).sboard().spec_color_at(chess_move.to) is None,
            chess_move.hint.spec_is_capture() ==> old(self).sboard().spec_color_at(chess_move.to) == Some(old(self).sturn().opp())
                && capture is Some,
        ensures
            *final(self) == spec_make_pieces(*old(self), chess_move, Piece::Pawn, capture),
    {
        let from = chess_move.orig_square();
        let to = chess_move.dest_square();
        let hint = chess_move.hint();
        let turn = self.turn();
        let opp = turn.not();
        let promoted = match hint {
            ChessMoveHint::BishopPromotion | ChessMoveHint::BishopPromotionCapture => Piece::Bishop,
            ChessMoveHint::KnightPromotion | ChessMoveHint::KnightPromotionCapture => Piece::Knight,
            ChessMoveHint::RookPromotion | ChessMoveHint::RookPromotionCapture => Piece::Rook,
            _ => Piece::Queen,
        };
        self.remove_color_piece(turn, Piece::Pawn, from);
        if hint.is_capture() {
            self.remove_color_piece(opp, capture.unwrap(), to);
        }
        self.add_color_piece(turn, promoted, to);
    }

    /// Makes a chess move and returns the data needed to roll it back.
    ///
    /// The move must be pseudo-legal and applicable in this position.
    pub fn make_move(&mut self, chess_move: ChessMove) -> (r: ChessUnmove)
        requires
            old(self).wf(),
            spec_pseudo_legal(*old(self), chess_move),
            spec_move_applicable(*old(self), chess_move),
            old(self).smove_index() < u32::MAX,
        ensures
            (*final(self), r) == spec_make(*old(self), chess_move),
    {
        proof {
            reveal(spec_make);
        }
        let from = chess_move.orig_square();
        let to = chess_move.dest_square();
        let hint = chess_move.hint();

        let en_passant = self.en_passant();
        let castling_rights = self.castling_rights();

        proof {
            lemma_move_squares(*self, chess_move);
        }
        let piece = self.board().get_piece_at(from).unwrap();
        let capture = self.board().get_piece_at(to);
        let turn = self.turn();

        self.make_pieces(chess_move, piece, capture);

        let reset_hm_clock = match hint {
            ChessMoveHint::Quiet => piece == Piece::Pawn,
            ChessMoveHint::DoublePawn => true,
            _ => hint.is_capture() || hint.is_promotion(),
        };

        let remove_castling_rights = lost_castling_rights(turn, chess_move, piece, capture);
        self.store_castling_rights(self.castling_rights().intersection(remove_castling_rights.complement()));

        self.set_en_passant(
            match hint {
                ChessMoveHint::DoublePawn => Some(from.file()),
                _ => None,
            },
        );

        self.swap_turn();

        assert(self.smove_index() == old(self).smove_index());
        assert(self.srule_50() == old(self).srule_50());
        let halfmove_clock = self.next_move_index(reset_hm_clock);

        ChessUnmove { chess_move, capture, en_passant, castling_rights, halfmove_clock }
    }
}

/// The pieces moved back by rolling back a move, as a position whose side to
/// move is the side that made the move.
pub open spec fn spec_unmake_pieces(s: Position, m: ChessMove, piece: Piece, capture: Option<Piece>) -> Position {
    let t = s.sturn();
    let o = t.opp();
    match m.hint {
        ChessMoveHint::Quiet => s.spec_move(t, piece, m.to, m.from),
        ChessMoveHint::DoublePawn => s.spec_move(t, Piece::Pawn, m.to, m.from),
        ChessMoveHint::BishopPromotion | ChessMoveHint::KnightPromotion
        | ChessMoveHint::RookPromotion | ChessMoveHint::QueenPromotion => s.spec_remove(
            t,
            promoted(m.hint),
            m.to,
        ).spec_add(t, Piece::Pawn, m.from),
        ChessMoveHint::Caputre => s.spec_move(t, piece, m.to, m.from).spec_add(o, capture.unwrap(), m.to),
        ChessMoveHint::EnPassantCapture => s.spec_move(t, Piece::Pawn, m.to, m.from).spec_add(
            o,
            Piece::Pawn,
            en_passant_victim(m),
        ),
        ChessMoveHint::BishopPromotionCapture | ChessMoveHint::KnightPromotionCapture
        | ChessMoveHint::RookPromotionCapture | ChessMoveHint::QueenPromotionCapture => s.spec_remove(
            t,
            promoted(m.hint),
            m.to,
        ).spec_add(o, capture.unwrap(), m.to).spec_add(t, Piece::Pawn, m.from),
        ChessMoveHint::KingCastle => s.spec_move(t, Piece::King, m.to, m.from).spec_move(
            t,
            Piece::Rook,
            t.spec_mirror_square(Square::F1),
            t.spec_mirror_square(Square::H1),
        ),
        ChessMoveHint::QueenCastle => s.spec_move(t, Piece::King, m.to, m.from).spec_move(
            t,
            Piece::Rook,
            t.spec_mirror_square(Square::D1),
            t.spec_mirror_square(Square::A1),
        ),
    }
}

/// What rolling a move back needs of the position: a consistent board, move
/// counters that can step back, and the pieces as the move left them.
pub open spec fn spec_unmake_ok(q: Position, u: ChessUnmove) -> bool {
    &&& q.sboard().wf()
    &&& 1 <= q.smove_index()
    &&& u.halfmove_clock <= q.smove_index() - 1
    &&& pieces_back_ok(q.sboard(), q.sturn().opp(), u.chess_move, u.capture)
}

/// The pieces as a move by `t` left them: the moved piece on the destination, an
/// empty origin, the captured piece recorded, and the squares of an en passant
/// capture or of a castling rook.
pub open spec fn pieces_back_ok(b: crate::board::Board, t: Color, m: ChessMove, capture: Option<Piece>) -> bool {
    &&& m.from != m.to
    &&& b.spec_color_at(m.to) == Some(t)
    &&& b.spec_piece_at(m.to) is Some
    &&& b.spec_color_at(m.from) is None
    &&& m.hint == ChessMoveHint::DoublePawn || m.hint == ChessMoveHint::EnPassantCapture
        ==> b.spec_piece_at(m.to) == Some(Piece::Pawn)
    &&& m.hint.spec_is_promotion() ==> b.spec_piece_at(m.to) == Some(promoted(m.hint))
    &&& m.hint.spec_is_capture() && m.hint != ChessMoveHint::EnPassantCapture ==> capture is Some
    &&& m.hint == ChessMoveHint::EnPassantCapture ==> b.spec_color_at(en_passant_victim(m)) is None
        && en_passant_victim(m) != m.from && en_passant_victim(m) != m.to
    &&& m.hint == ChessMoveHint::KingCastle ==> uncastle_squares_ok(b, t, m, Square::H1, Square::F1)
    &&& m.hint == ChessMoveHint::QueenCastle ==> uncastle_squares_ok(b, t, m, Square::A1, Square::D1)
}

/// The king and rook squares of a castling move after it was made, with the
/// rook gone from the corner `rook_from` to `rook_to` (both seen from white's side).
pub open spec fn uncastle_squares_ok(b: crate::board::Board, t: Color, m: ChessMove, rook_from: Square, rook_to: Square) -> bool {
    let rf = t.spec_mirror_square(rook_from);
    let rt = t.spec_mirror_square(rook_to);
    &&& b.spec_piece_at(m.to) == Some(Piece::King)
    &&& b.spec_color_at(rt) == Some(t)
    &&& b.spec_piece_at(rt) == Some(Piece::Rook)
    &&& b.spec_color_at(rf) is None
    &&& rt != m.to
    &&& rf != m.to
    &&& rf != m.from
    &&& rt != m.from
}

/// The position before a move, rebuilt from the position after it and the data
/// that making it returned.
#[verifier::opaque]
pub open spec fn spec_unmake(q: Position, u: ChessUnmove) -> Position {
    let s1 = q.spec_swap_turn().spec_set_castling(u.castling_rights).spec_set_en_passant(u.en_passant);
    let mi = q.smove_index();
    let s2 = s1.spec_set_counters((mi - 1) as u32, (mi - 1 - u.halfmove_clock) as u32);
    spec_unmake_pieces(s2, u.chess_move, q.sboard().spec_piece_at(u.chess_move.to).unwrap(), u.capture)
}

impl Position {
    /// Rolls back a move.
    ///
    /// `chess_unmove` must come from making a move in the position that this
    /// one was before it; [`lemma_make_unmake`] shows that such data meets the
    /// requirements.
    pub fn unmake_move(&mut self, chess_unmove: ChessUnmove)
        requires
            spec_unmake_ok(*old(self), chess_unmove),
        ensures
            *final(self) == spec_unmake(*old(self), chess_unmove),
    {
        proof {
            reveal(spec_unmake);
        }
        let ghost q = *self;
        self.swap_turn();
        self.store_castling_rights(chess_unmove.castling_rights);
        self.set_en_passant(chess_unmove.en_passant);
        self.prev_move_index(chess_unmove.halfmove_clock);
        assert(self.sboard() == q.sboard());
        assert(self.sturn() == q.sturn().opp());

        let from = chess_unmove.chess_move.orig_square();
        let to = chess_unmove.chess_move.dest_square();
        let piece = self.board().get_piece_at(to).unwrap();
        self.unmake_pieces(chess_unmove.chess_move, piece, chess_unmove.capture);
    }

    /// Moves back the pieces of a move.
    fn unmake_pieces(&mut self, chess_move: ChessMove, piece: Piece, capture: Option<Piece>)
        requires
            old(self).sboard().wf(),
            pieces_back_ok(old(self).sboard(), old(self).sturn(), chess_move, capture),
            old(self).sboard().spec_piece_at(chess_move.to) == Some(piece),
        ensures
            *final(self) == spec_unmake_pieces(*old(self), chess_move, piece, capture),
    {
        let from = chess_move.orig_square();
        let to = chess_move.dest_square();
        let hint = chess_move.hint();
        let turn = self.turn();
        let opp = turn.not();
        match hint {
            ChessMoveHint::Quiet => {
                self.move_color_piece(turn, piece, to, from);
            },
            ChessMoveHint::DoublePawn => {
                self.move_color_piece(turn, Piece::Pawn, to, from);
            },
            ChessMoveHint::Caputre => {
                self.move_color_piece(turn, piece, to, from);
                self.add_color_piece(opp, capture.unwrap(), to);
            },
            ChessMoveHint::EnPassantCapture => {
                self.move_color_piece(turn, Piece::Pawn, to, from);
                let victim = Square::new(from.rank(), to.file());
                self.add_color_piece(opp, Piece::Pawn, victim);
            },
            ChessMoveHint::KingCastle => {
                self.move_color_piece(turn, Piece::King, to, from);
                self.move_color_piece(turn, Piece::Rook, turn.mirror_square(Square::F1), turn.mirror_square(Square::H1));
            },
            ChessMoveHint::QueenCastle => {
                self.move_color_piece(turn, Piece::King, to, from);
                self.move_color_piece(turn, Piece::Rook, turn.mirror_square(Square::D1), turn.mirror_square(Square::A1));
            },
            _ => {
                let promoted = match hint {
                    ChessMoveHint::BishopPromotion | ChessMoveHint::BishopPromotionCapture => Piece::Bishop,
                    ChessMoveHint::KnightPromotion | ChessMoveHint::KnightPromotionCapture => Piece::Knight,
                    ChessMoveHint::RookPromotion | ChessMoveHint::RookPromotionCapture => Piece::Rook,
                    _ => Piece::Queen,
                };
                self.remove_color_piece(turn, promoted, to);
                if hint.is_capture() {
                    self.add_color_piece(opp, capture.unwrap(), to);
                }
                self.add_color_piece(turn, Piece::Pawn, from);
            },
        }
    }
}

/// The castling rights a move takes away.
fn lost_castling_rights(turn: Color, chess_move: ChessMove, piece: Piece, capture: Option<Piece>) -> (r: CastlingRights)
    ensures
        r.0 == spec_lost_rights(turn, chess_move, piece, capture),
{
    let from = chess_move.orig_square();
    let to = chess_move.dest_square();
    let opp = turn.not();
    let from_castling_rights = match chess_move.hint() {
        ChessMoveHint::KingCastle | ChessMoveHint::QueenCastle => {
            CastlingRights::both_sides(turn)
        },
        ChessMoveHint::Quiet | ChessMoveHint::Caputre => match piece {
            Piece::King => CastlingRights::both_sides(turn),
            Piece::Rook => {
                if from == turn.mirror_square(Square::H1) {
                    CastlingRights::kingside(turn)
                } else if from == turn.mirror_square(Square::A1) {
                    CastlingRights::queenside(turn)
                } else {
                    CastlingRights::empty()
                }
            },
            _ => CastlingRights::empty(),
        },
        _ => CastlingRights::empty(),
    };
    let to_castling_rights = match capture {
        Some(Piece::Rook) => {
            // If the rook is captured the player can no longer use it to castle.
            if to == opp.mirror_square(Square::H1) {
                CastlingRights::kingside(opp)
            } else if to == opp.mirror_square(Square::A1) {
                CastlingRights::queenside(opp)
            } else {
                CastlingRights::empty()
            }
        },
        _ => CastlingRights::empty(),
    };
    from_castling_rights.union(to_castling_rights)
}

} // verus!
