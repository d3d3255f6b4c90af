//! Chess moves and the pseudo-legality test.

use vstd::prelude::*;

use crate::attacks::{
    bishop_spec, king_spec, knight_spec, pawn_attack_spec, pawn_push_spec, queen_spec, rook_spec,
};
use crate::bitboard::{bit, BitBoard};
use crate::board::Board;
use crate::castling_rights::CastlingRights;
use crate::pieces::{Color, Piece, Promotion};
use crate::position::Position;
use crate::square::{Rank, Square};

verus! {

/// A hint specifying what kind of move to perform.
#[derive(Clone, Copy, Debug, PartialEq, Eq, Structural, Hash, PartialOrd, Ord)]
pub enum ChessMoveHint {
    /// Normal quiet move.
    Quiet,
    /// Pawn push that moves two squares.
    DoublePawn,
    /// Kingside castling.
    KingCastle,
    /// Queenside castling.
    QueenCastle,
    /// Normal capture move.
    Caputre,
    /// En passant.
    EnPassantCapture,
    /// Quiet promotion to knight.
    KnightPromotion,
    /// Quiet promotion to bishop.
    BishopPromotion,
    /// Quiet promotion to rook.
    RookPromotion,
    /// Quiet promotion to queen.
    QueenPromotion,
    /// Promotion to knight with capture.
    KnightPromotionCapture,
    /// Promotion to bishop with capture.
    BishopPromotionCapture,
    /// Promotion to rook with capture.
    RookPromotionCapture,
    /// Promotion to queen with capture.
    QueenPromotionCapture,
}

impl ChessMoveHint {
    /// The four-bit code of the hint: bit `4` marks captures and bit `8` promotions.
    pub open spec fn code(self) -> u8 {
        match self {
            ChessMoveHint::Quiet => 0,
            ChessMoveHint::DoublePawn => 1,
            ChessMoveHint::KingCastle => 2,
            ChessMoveHint::QueenCastle => 3,
            ChessMoveHint::Caputre => 4,
            ChessMoveHint::EnPassantCapture => 5,
            ChessMoveHint::KnightPromotion => 8,
            ChessMoveHint::BishopPromotion => 9,
            ChessMoveHint::RookPromotion => 10,
            ChessMoveHint::QueenPromotion => 11,
            ChessMoveHint::KnightPromotionCapture => 12,
            ChessMoveHint::BishopPromotionCapture => 13,
            ChessMoveHint::RookPromotionCapture => 14,
            ChessMoveHint::QueenPromotionCapture => 15,
        }
    }

    /// The hint with the given code.
    pub open spec fn spec_from_repr(code: u8) -> Option<ChessMoveHint> {
        if code == 0 {
            Some(ChessMoveHint::Quiet)
        } else if code == 1 {
            Some(ChessMoveHint::DoublePawn)
        } else if code == 2 {
            Some(ChessMoveHint::KingCastle)
        } else if code == 3 {
            Some(ChessMoveHint::QueenCastle)
        } else if code == 4 {
            Some(ChessMoveHint::Caputre)
        } else if code == 5 {
            Some(ChessMoveHint::EnPassantCapture)
        } else if code == 8 {
            Some(ChessMoveHint::KnightPromotion)
        } else if code == 9 {
            Some(ChessMoveHint::BishopPromotion)
        } else if code == 10 {
            Some(ChessMoveHint::RookPromotion)
        } else if code == 11 {
            Some(ChessMoveHint::QueenPromotion)
        } else if code == 12 {
            Some(ChessMoveHint::KnightPromotionCapture)
        } else if code == 13 {
            Some(ChessMoveHint::BishopPromotionCapture)
        } else if code == 14 {
            Some(ChessMoveHint::RookPromotionCapture)
        } else if code == 15 {
            Some(ChessMoveHint::QueenPromotionCapture)
        } else {
            None
        }
    }

    /// Returns the four-bit code of the hint.
    pub fn repr(self) -> (r: u8)
        ensures
            r == self.code(),
            ChessMoveHint::spec_from_repr(r) == Some(self),
    {
        match self {
            ChessMoveHint::Quiet => 0,
            ChessMoveHint::DoublePawn => 1,
            ChessMoveHint::KingCastle => 2,
            ChessMoveHint::QueenCastle => 3,
            ChessMoveHint::Caputre => 4,
            ChessMoveHint::EnPassantCapture => 5,
            ChessMoveHint::KnightPromotion => 8,
            ChessMoveHint::BishopPromotion => 9,
            ChessMoveHint::RookPromotion => 10,
            ChessMoveHint::QueenPromotion => 11,
            ChessMoveHint::KnightPromotionCapture => 12,
            ChessMoveHint::BishopPromotionCapture => 13,
            ChessMoveHint::RookPromotionCapture => 14,
            ChessMoveHint::QueenPromotionCapture => 15,
        }
    }

    /// Returns the hint with the given code or `None` for an unused code.
    pub fn from_repr(code: u8) -> (r: Option<ChessMoveHint>)
        ensures
            r == ChessMoveHint::spec_from_repr(code),
            r matches Some(h) ==> h.code() == code,
    {
        match code {
            0 => Some(ChessMoveHint::Quiet),
            1 => Some(ChessMoveHint::DoublePawn),
            2 => Some(ChessMoveHint::KingCastle),
            3 => Some(ChessMoveHint::QueenCastle),
            4 => Some(ChessMoveHint::Caputre),
            5 => Some(ChessMoveHint::EnPassantCapture),
            8 => Some(ChessMoveHint::KnightPromotion),
            9 => Some(ChessMoveHint::BishopPromotion),
            10 => Some(ChessMoveHint::RookPromotion),
            11 => Some(ChessMoveHint::QueenPromotion),
            12 => Some(ChessMoveHint::KnightPromotionCapture),
            13 => Some(ChessMoveHint::BishopPromotionCapture),
            14 => Some(ChessMoveHint::RookPromotionCapture),
            15 => Some(ChessMoveHint::QueenPromotionCapture),
            _ => None,
        }
    }

    /// Whether the hint is a capture: a plain capture, an en passant capture or
    /// a promotion with capture (the codes with bit `4`).
    pub open spec fn spec_is_capture(self) -> bool {
        match self {
            ChessMoveHint::Caputre | ChessMoveHint::EnPassantCapture
            | ChessMoveHint::KnightPromotionCapture | ChessMoveHint::BishopPromotionCapture
            | ChessMoveHint::RookPromotionCapture | ChessMoveHint::QueenPromotionCapture => true,
            _ => false,
        }
    }

    /// Whether the hint is a promotion (the codes with bit `8`).
    pub open spec fn spec_is_promotion(self) -> bool {
        self.code() >= 8
    }

    /// Is this move a capture.
    pub fn is_capture(self) -> (r: bool)
        ensures
            r == self.spec_is_capture(),
            r == (self == ChessMoveHint::Caputre || self == ChessMoveHint::EnPassantCapture
                || self == ChessMoveHint::KnightPromotionCapture || self
                == ChessMoveHint::BishopPromotionCapture || self == ChessMoveHint::RookPromotionCapture
                || self == ChessMoveHint::QueenPromotionCapture),
    {
        let r = self.repr() & 0b100 != 0;
        proof {
            let c = self.code();
            assert(0u8 & 4 == 0 && 1u8 & 4 == 0 && 2u8 & 4 == 0 && 3u8 & 4 == 0 && 4u8 & 4 != 0
                && 5u8 & 4 != 0 && 8u8 & 4 == 0 && 9u8 & 4 == 0 && 10u8 & 4 == 0 && 11u8 & 4 == 0
                && 12u8 & 4 != 0 && 13u8 & 4 != 0 && 14u8 & 4 != 0 && 15u8 & 4 != 0) by (bit_vector);
        }
        r
    }

    /// Is this move a promotion.
    pub fn is_promotion(self) -> (r: bool)
        ensures
            r == self.spec_is_promotion(),
            r == (self.code() >= 8),
    {
        let r = self.repr() & 0b1000 != 0;
        proof {
            assert(0u8 & 8 == 0 && 1u8 & 8 == 0 && 2u8 & 8 == 0 && 3u8 & 8 == 0 && 4u8 & 8 == 0
                && 5u8 & 8 == 0 && 8u8 & 8 != 0 && 9u8 & 8 != 0 && 10u8 & 8 != 0 && 11u8 & 8 != 0
                && 12u8 & 8 != 0 && 13u8 & 8 != 0 && 14u8 & 8 != 0 && 15u8 & 8 != 0) by (bit_vector);
        }
        r
    }

    /// The kind of promotion of a promoting hint.
    pub open spec fn spec_promotion(self) -> Option<Promotion> {
        match self {
            ChessMoveHint::BishopPromotion | ChessMoveHint::BishopPromotionCapture => Some(
                Promotion::Bishop,
            ),
            ChessMoveHint::KnightPromotion | ChessMoveHint::KnightPromotionCapture => Some(
                Promotion::Knight,
            ),
            ChessMoveHint::RookPromotion | ChessMoveHint::RookPromotionCapture => Some(
                Promotion::Rook,
            ),
            ChessMoveHint::QueenPromotion | ChessMoveHint::QueenPromotionCapture => Some(
                Promotion::Queen,
            ),
            _ => None,
        }
    }

    /// Returns the kind of promotion if this move is a promotion.
    pub fn promotion(self) -> (r: Option<Promotion>)
        ensures
            r == self.spec_promotion(),
            r is Some <==> self.spec_is_promotion(),
    {
        proof {
            assert(0u8 & 8 == 0 && 1u8 & 8 == 0 && 2u8 & 8 == 0 && 3u8 & 8 == 0 && 4u8 & 8 == 0
                && 5u8 & 8 == 0 && 8u8 & 8 != 0 && 9u8 & 8 != 0 && 10u8 & 8 != 0 && 11u8 & 8 != 0
                && 12u8 & 8 != 0 && 13u8 & 8 != 0 && 14u8 & 8 != 0 && 15u8 & 8 != 0) by (bit_vector);
        }
        match self {
            ChessMoveHint::BishopPromotion | ChessMoveHint::BishopPromotionCapture => Some(
                Promotion::Bishop,
            ),
            ChessMoveHint::KnightPromotion | ChessMoveHint::KnightPromotionCapture => Some(
                Promotion::Knight,
            ),
            ChessMoveHint::RookPromotion | ChessMoveHint::RookPromotionCapture => Some(
                Promotion::Rook,
            ),
            ChessMoveHint::QueenPromotion | ChessMoveHint::QueenPromotionCapture => Some(
                Promotion::Queen,
            ),
            _ => None,
        }
    }
}

/// Data needed to make a move.
#[derive(Debug, Clone, Copy, PartialEq, Eq, Structural, Hash)]
pub struct ChessMove {
    /// The destination square.
    pub to: Square,
    /// The origin square.
    pub from: Square,
    /// What kind of move is made.
    pub hint: ChessMoveHint,
}

impl ChessMove {
    /// Returns the destination square of a move.
    pub fn dest_square(self) -> (r: Square)
        ensures
            r == self.to,
    {
        self.to
    }

    /// Returns the origin square of a move.
    pub fn orig_square(self) -> (r: Square)
        ensures
            r == self.from,
    {
        self.from
    }

    /// Returns the hint as to what kind of move is happening.
    pub fn hint(self) -> (r: ChessMoveHint)
        ensures
            r == self.hint,
    {
        self.hint
    }
}

/// The word packing a move: hint in bits 12..16, origin in bits 6..12, destination in bits 0..6.
pub open spec fn spec_pack(m: ChessMove) -> u16 {
    ((((m.hint.code() as u16) & 0xfu16) << 12u16) | (((m.from.idx() as u16) & 0x3fu16) << 6u16)
        | ((m.to.idx() as u16) & 0x3fu16)) as u16
}

/// The move packed in a word whose hint code is in use.
pub open spec fn spec_unpack(data: u16) -> ChessMove {
    ChessMove {
        to: Square::spec_from_repr((data & 0x3fu16) as int).unwrap(),
        from: Square::spec_from_repr(((data >> 6u16) & 0x3fu16) as int).unwrap(),
        hint: ChessMoveHint::spec_from_repr(((data >> 12u16) & 0x0fu16) as u8).unwrap(),
    }
}

/// Compact version of a [`ChessMove`].
#[derive(Debug, Clone, Copy, PartialEq, Eq, Structural)]
pub struct PackedChessMove {
    data: u16,
}

impl PackedChessMove {
    /// The packed word.
    pub closed spec fn word(self) -> u16 {
        self.data
    }

    /// The move this packed move stands for.
    pub open spec fn view(self) -> ChessMove {
        spec_unpack(self.word())
    }

    /// Whether the packed hint code is in use.
    pub open spec fn valid(self) -> bool {
        ChessMoveHint::spec_from_repr(((self.word() >> 12u16) & 0x0fu16) as u8) is Some
    }

    /// Packing and unpacking a move gives the move back.
    pub proof fn lemma_pack_roundtrip(m: ChessMove)
        ensures
            ChessMoveHint::spec_from_repr(((spec_pack(m) >> 12u16) & 0x0fu16) as u8) is Some,
            spec_unpack(spec_pack(m)) == m,
    {
        m.to.lemma_repr_roundtrip();
        m.from.lemma_repr_roundtrip();
        let h = m.hint.code() as u16;
        let f = m.from.idx() as u16;
        let t = m.to.idx() as u16;
        assert(h < 16 && f < 64 && t < 64 ==> ((((h & 0xfu16) << 12u16) | ((f & 0x3fu16) << 6u16)
            | (t & 0x3fu16)) & 0x3fu16) == t && (((((h & 0xfu16) << 12u16) | ((f & 0x3fu16) << 6u16)
            | (t & 0x3fu16)) >> 6u16) & 0x3fu16) == f && (((((h & 0xfu16) << 12u16) | ((f & 0x3fu16) << 6u16)
            | (t & 0x3fu16)) >> 12u16) & 0x0fu16) == h) by (bit_vector);
        Square::lemma_idx_injective(Square::spec_from_repr(t as int).unwrap(), m.to);
        Square::lemma_idx_injective(Square::spec_from_repr(f as int).unwrap(), m.from);
    }

    /// Converts [`ChessMove`] to its compact form.
    pub fn new(chess_move: ChessMove) -> (r: Self)
        ensures
            r.word() == spec_pack(chess_move),
            r.valid(),
            r@ == chess_move,
    {
        proof {
            Self::lemma_pack_roundtrip(chess_move);
        }
        Self {
            data: (((chess_move.hint.repr() as u16) & 0xf) << 12) | (((chess_move.from.repr() as u16)
                & 0x3f) << 6) | ((chess_move.to.repr() as u16) & 0x3f),
        }
    }

    /// Unpacks the [`ChessMove`] from its compact form.
    pub fn get(self) -> (r: ChessMove)
        requires
            self.valid(),
        ensures
            r == self@,
    {
        proof {
            let d = self.data;
            assert((d & 0x3fu16) < 64 && ((d >> 6u16) & 0x3fu16) < 64) by (bit_vector);
            Square::lemma_from_repr_in_range((d & 0x3fu16) as int);
            Square::lemma_from_repr_in_range(((d >> 6u16) & 0x3fu16) as int);
        }
        let to = Square::from_repr((self.data & 0x3f) as u8).unwrap();
        let from = Square::from_repr(((self.data >> 6) & 0x3f) as u8).unwrap();
        let hint = ChessMoveHint::from_repr(((self.data >> 12) & 0x0f) as u8).unwrap();
        ChessMove { to, from, hint }
    }
}


/// Whether a king of the color may step on the square: it is empty and not attacked.
pub open spec fn spec_can_king_move_to(b: Board, sq: Square, color: Color) -> bool {
    !bit(b.occupied_bb(), sq.idx()) && b.spec_color_attackers_to(sq, color.opp()) == 0
}

/// Whether castling on the king side is allowed for the color.
pub open spec fn spec_kingside_allowed(p: Position, color: Color) -> bool {
    let k: u8 = if color == Color::White { 1 } else { 4 };
    &&& p.scastling().0 & k == k
    &&& !p.sboard().spec_in_check(color)
    &&& spec_can_king_move_to(p.sboard(), color.spec_mirror_square(Square::F1), color)
    &&& spec_can_king_move_to(p.sboard(), color.spec_mirror_square(Square::G1), color)
}

/// Whether castling on the queen side is allowed for the color.
pub open spec fn spec_queenside_allowed(p: Position, color: Color) -> bool {
    let k: u8 = if color == Color::White { 2 } else { 8 };
    &&& p.scastling().0 & k == k
    &&& !p.sboard().spec_in_check(color)
    &&& !bit(p.sboard().occupied_bb(), color.spec_mirror_square(Square::B1).idx())
    &&& spec_can_king_move_to(p.sboard(), color.spec_mirror_square(Square::C1), color)
    &&& spec_can_king_move_to(p.sboard(), color.spec_mirror_square(Square::D1), color)
}

/// The rank of `r` as seen from the color's side (index `r` for white, `7 - r` for black).
pub open spec fn rank_for(color: Color, r: int) -> int {
    if color == Color::White {
        r
    } else {
        7 - r
    }
}

/// Whether the move is pseudo-legal: it follows the movement rules for the
/// piece on its origin square but may leave the mover's king in check.
#[verifier::opaque]
pub open spec fn spec_pseudo_legal(p: Position, m: ChessMove) -> bool {
    let b = p.sboard();
    let from = m.from;
    let to = m.to;
    let hint = m.hint;
    let occ = b.occupied_bb();
    let from_bb = 1u64 << (from.idx() as u64);
    let to_bb = 1u64 << (to.idx() as u64);
    match (b.spec_piece_at(from), b.spec_color_at(from)) {
        (Some(piece), Some(color)) => {
            &&& color == p.sturn()
            &&& b.spec_color_at(to) != Some(color)
            &&& !((b.spec_piece_at(to) is Some) != hint.spec_is_capture() && hint
                != ChessMoveHint::EnPassantCapture)
            &&& match hint {
                ChessMoveHint::Quiet | ChessMoveHint::Caputre => match piece {
                    Piece::Pawn => if hint.spec_is_capture() {
                        bit(pawn_attack_spec(from, color), to.idx())
                    } else {
                        bit(pawn_push_spec(from_bb, !occ, color), to.idx())
                    },
                    Piece::Bishop => bit(bishop_spec(occ, from), to.idx()),
                    Piece::Knight => bit(knight_spec(from), to.idx()),
                    Piece::Rook => bit(rook_spec(occ, from), to.idx()),
                    Piece::Queen => bit(queen_spec(occ, from), to.idx()),
                    Piece::King => bit(king_spec(from), to.idx()),
                },
                ChessMoveHint::DoublePawn => {
                    &&& piece == Piece::Pawn
                    &&& from.idx() / 8 == rank_for(color, 1)
                    &&& pawn_push_spec(pawn_push_spec(from_bb, !occ, color), !occ, color) == to_bb
                },
                ChessMoveHint::KingCastle => {
                    &&& piece == Piece::King
                    &&& from == color.spec_mirror_square(Square::E1)
                    &&& to == color.spec_mirror_square(Square::G1)
                    &&& spec_kingside_allowed(p, color)
                },
                ChessMoveHint::QueenCastle => {
                    &&& piece == Piece::King
                    &&& from == color.spec_mirror_square(Square::E1)
                    &&& to == color.spec_mirror_square(Square::C1)
                    &&& spec_queenside_allowed(p, color)
                },
                ChessMoveHint::EnPassantCapture => match p.sen_passant() {
                    Some(file) => {
                        let target = Square::spec_new(from.spec_rank(), to.spec_file());
                        &&& to.idx() == rank_for(color, 5) * 8 + file.idx()
                        &&& bit(pawn_attack_spec(from, color), to.idx())
                        &&& b.spec_piece_at(target) == Some(Piece::Pawn)
                        &&& b.spec_color_at(target) == Some(color.opp())
                    },
                    None => false,
                },
                ChessMoveHint::KnightPromotion | ChessMoveHint::BishopPromotion
                | ChessMoveHint::RookPromotion | ChessMoveHint::QueenPromotion => {
                    &&& piece == Piece::Pawn
                    &&& to.idx() / 8 == rank_for(color, 7)
                    &&& pawn_push_spec(from_bb, u64::MAX, color) == to_bb
                },
                ChessMoveHint::KnightPromotionCapture | ChessMoveHint::BishopPromotionCapture
                | ChessMoveHint::RookPromotionCapture | ChessMoveHint::QueenPromotionCapture => {
                    &&& piece == Piece::Pawn
                    &&& to.idx() / 8 == rank_for(color, 7)
                    &&& bit(pawn_attack_spec(from, color), to.idx())
                },
            }
        },
        _ => false,
    }
}

impl Position {
    /// Returns whether the kingside castling is allowed for a given color.
    pub(crate) fn is_kingside_castling_allowed(&self, color: Color) -> (r: bool)
        requires
            self.wf(),
        ensures
            r == spec_kingside_allowed(*self, color),
    {
        proof {
            crate::position::lemma_one_king_mask(self.sboard(), color);
        }
        self.castling_rights().contains(CastlingRights::kingside(color))
            && !self.board().is_king_in_check(color) && self.board().can_king_move_to(
            color.mirror_square(Square::F1),
            color,
        ) && self.board().can_king_move_to(color.mirror_square(Square::G1), color)
    }

    /// Returns whether the queenside castling is allowed for a given color.
    pub(crate) fn is_queenside_castling_allowed(&self, color: Color) -> (r: bool)
        requires
            self.wf(),
        ensures
            r == spec_queenside_allowed(*self, color),
    {
        proof {
            crate::position::lemma_one_king_mask(self.sboard(), color);
        }
        self.castling_rights().contains(CastlingRights::queenside(color))
            && !self.board().is_king_in_check(color) && !self.board().get_occupied().has_square(
            color.mirror_square(Square::B1),
        ) && self.board().can_king_move_to(color.mirror_square(Square::C1), color)
            && self.board().can_king_move_to(color.mirror_square(Square::D1), color)
    }

    /// Returns whether a given chess move is at least pseudo-legal in this position.
    pub fn is_move_pseudo_legal(&self, chess_move: ChessMove) -> (r: bool)
        requires
            self.wf(),
        ensures
            r == spec_pseudo_legal(*self, chess_move),
    {
        proof {
            reveal(spec_pseudo_legal);
        }
        let from = chess_move.from;
        let to = chess_move.to;
        let hint = chess_move.hint;

        let piece = match self.board().get_piece_at(from) {
            Some(piece) => piece,
            None => return false,
        };
        let color = match self.board().get_color_at(from) {
            Some(color) => color,
            None => return false,
        };
        if color != self.turn() {
            return false;
        }

        let occ = self.board().get_occupied();
        let empty = self.board().get_empty();
        let target = self.board().get_piece_at(to);
        let target_color = self.board().get_color_at(to);

        match target_color {
            Some(tgt_color) => {
                if tgt_color == color {
                    return false;
                }
            },
            None => {},
        }

        if target.is_some() != hint.is_capture() && hint != ChessMoveHint::EnPassantCapture {
            return false;
        }

        let from_bb = BitBoard::from_square(from);
        let to_bb = BitBoard::from_square(to);
        proof {
            from.lemma_repr_roundtrip();
            to.lemma_repr_roundtrip();
        }
        match hint {
            ChessMoveHint::Quiet | ChessMoveHint::Caputre => match piece {
                Piece::Pawn => {
                    if hint.is_capture() {
                        BitBoard::pawn_attacks(from, color).has_square(to)
                    } else {
                        BitBoard::pawn_pushes(from_bb, empty, color).has_square(to)
                    }
                },
                Piece::Bishop => BitBoard::bishop_attacks(occ, from).has_square(to),
                Piece::Knight => BitBoard::knight_attacks(from).has_square(to),
                Piece::Rook => BitBoard::rook_attacks(occ, from).has_square(to),
                Piece::Queen => BitBoard::queen_attacks(occ, from).has_square(to),
                Piece::King => BitBoard::king_attacks(from).has_square(to),
            },
            ChessMoveHint::DoublePawn => {
                piece == Piece::Pawn && from.rank().repr() == color.mirror_rank(Rank::R2).repr()
                    && BitBoard::pawn_pushes(
                    BitBoard::pawn_pushes(from_bb, empty, color),
                    empty,
                    color,
                ).eq(&to_bb)
            },
            ChessMoveHint::KingCastle => {
                piece == Piece::King && from == color.mirror_square(Square::E1) && to == color.mirror_square(
                    Square::G1,
                ) && self.is_kingside_castling_allowed(color)
            },
            ChessMoveHint::QueenCastle => {
                piece == Piece::King && from == color.mirror_square(Square::E1) && to == color.mirror_square(
                    Square::C1,
                ) && self.is_queenside_castling_allowed(color)
            },
            ChessMoveHint::EnPassantCapture => {
                let file = match self.en_passant() {
                    Some(file) => file,
                    None => return false,
                };
                let target_sq = Square::new(from.rank(), to.file());
                let ep_sq = Square::new(color.mirror_rank(Rank::R6), file);
                proof {
                    Square::lemma_idx_injective(ep_sq, to);
                }
                let same = ep_sq == to;
                same && BitBoard::pawn_attacks(from, color).has_square(to) && match (
                    self.board().get_piece_at(target_sq),
                    self.board().get_color_at(target_sq),
                ) {
                    (Some(tp), Some(tc)) => tp == Piece::Pawn && tc == color.not(),
                    _ => false,
                }
            },
            ChessMoveHint::KnightPromotion
            | ChessMoveHint::BishopPromotion
            | ChessMoveHint::RookPromotion
            | ChessMoveHint::QueenPromotion => {
                piece == Piece::Pawn && to.rank().repr() == color.mirror_rank(Rank::R8).repr()
                    && BitBoard::pawn_pushes(from_bb, BitBoard(u64::MAX), color).eq(&to_bb)
            },
            ChessMoveHint::KnightPromotionCapture
            | ChessMoveHint::BishopPromotionCapture
            | ChessMoveHint::RookPromotionCapture
            | ChessMoveHint::QueenPromotionCapture => {
                piece == Piece::Pawn && to.rank().repr() == color.mirror_rank(Rank::R8).repr()
                    && BitBoard::pawn_attacks(from, color).has_square(to)
            },
        }
    }
}

} // verus!
