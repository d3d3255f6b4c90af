//! Generation of pseudo-legal moves.

use vstd::prelude::*;

use crate::attacks::{bishop_spec, king_spec, knight_spec, lemma_pawn_attack_bits, pawn_attack_spec, pawn_push_spec, queen_spec, rook_spec};
use crate::bitboard::{bit, lemma_bit_ops, lemma_squares_sound, lemma_reset_lsb_decreases, lemma_lsb, squares_of, BitBoard};
use crate::board::Board;
use crate::movegen::{spec_kingside_allowed, spec_pseudo_legal, spec_queenside_allowed, ChessMove, ChessMoveHint};
use crate::pieces::{Color, Piece};
use crate::castling_rights::CastlingRights;
use crate::position::{lemma_bits_are_contents, spec_castling_allowed, spec_castling_max, Position};
use crate::square::{File, Rank, Square};

verus! {

/// `new` keeps the moves of `old` in front and adds only pseudo-legal moves of `p`.
pub open spec fn pushes_ok(p: Position, old: Seq<ChessMove>, new: Seq<ChessMove>) -> bool {
    &&& old.len() <= new.len()
    &&& forall|i: int| 0 <= i < old.len() ==> new[i] == old[i]
    &&& forall|i: int| old.len() <= i < new.len() ==> spec_pseudo_legal(p, #[trigger] new[i])
}

/// `new` keeps the moves of `old` in front.
pub open spec fn extends(old: Seq<ChessMove>, new: Seq<ChessMove>) -> bool {
    &&& old.len() <= new.len()
    &&& forall|i: int| 0 <= i < old.len() ==> new[i] == old[i]
}

/// Every move that `new` adds to `old` goes from `from` with the hint.
pub open spec fn adds_from(old: Seq<ChessMove>, new: Seq<ChessMove>, from: Square, hint: ChessMoveHint) -> bool {
    forall|k: int| old.len() <= k < new.len() ==> (#[trigger] new[k]).from == from && new[k].hint == hint
}

/// The moves that `new` adds to `old` are all different.
pub open spec fn distinct_new(old: Seq<ChessMove>, new: Seq<ChessMove>) -> bool {
    forall|i: int, j: int| old.len() <= i < j < new.len() ==> #[trigger] new[i] != #[trigger] new[j]
}

/// The place of a captured kind in the order captures are generated in:
/// queens first, then rooks, bishops, knights and pawns.
pub open spec fn capture_rank(piece: Option<Piece>) -> int {
    match piece {
        Some(Piece::Queen) => 0,
        Some(Piece::Rook) => 1,
        Some(Piece::Bishop) => 2,
        Some(Piece::Knight) => 3,
        _ => 4,
    }
}

/// A sequence that keeps another in front holds all of its moves.
pub proof fn lemma_extends_contains(old: Seq<ChessMove>, new: Seq<ChessMove>)
    requires
        extends(old, new),
    ensures
        forall|m: ChessMove| old.contains(m) ==> #[trigger] new.contains(m),
{
    assert forall|m: ChessMove| old.contains(m) implies #[trigger] new.contains(m) by {
        let i = choose|i: int| 0 <= i < old.len() && old[i] == m;
        assert(new[i] == m);
    }
}

/// Taking the lowest square off a word leaves exactly its other squares.
proof fn lemma_take_lowest(before: u64)
    requires
        before != 0,
    ensures
        bit(before, squares_of(before)[0].idx()),
        forall|j: int| 0 <= j < 64 ==> (#[trigger] bit(before & ((before - 1) as u64), j) <==> (bit(before, j) && j
            != squares_of(before)[0].idx())),
{
    lemma_lsb(before);
    lemma_squares_sound(before, 0);
    Square::lemma_from_repr_in_range(vstd::std_specs::bits::u64_trailing_zeros(before) as int);
}

/// The contents of a square of a consistent board, read from its bits.
proof fn lemma_square_bits(b: Board, s: Square)
    requires
        b.wf(),
    ensures
        forall|c: Color| #[trigger] bit(b.color_bb(c), s.idx()) <==> b.spec_color_at(s) == Some(c),
        forall|pc: Piece| #[trigger] bit(b.piece_bb(pc), s.idx()) <==> b.spec_piece_at(s) == Some(pc),
        bit(b.occupied_bb(), s.idx()) <==> b.spec_color_at(s) is Some,
        b.spec_color_at(s) is Some <==> b.spec_piece_at(s) is Some,
{
    s.lemma_repr_roundtrip();
    lemma_bits_are_contents(b, s.idx());
    b.lemma_color_iff_piece(s);
}

/// The squares a piece other than a pawn moves to, by its kind.
pub open spec fn reach(piece: Piece, occ: u64, from: Square) -> u64 {
    match piece {
        Piece::Bishop => bishop_spec(occ, from),
        Piece::Knight => knight_spec(from),
        Piece::Rook => rook_spec(occ, from),
        Piece::Queen => queen_spec(occ, from),
        _ => king_spec(from),
    }
}

/// A move of a piece other than a pawn to a square it reaches is pseudo-legal:
/// a quiet move onto an empty square, a capture onto an enemy piece.
proof fn lemma_piece_move_ok(p: Position, from: Square, to: Square, piece: Piece, hint: ChessMoveHint)
    requires
        p.wf(),
        piece != Piece::Pawn,
        p.sboard().spec_color_at(from) == Some(p.sturn()),
        p.sboard().spec_piece_at(from) == Some(piece),
        bit(reach(piece, p.sboard().occupied_bb(), from), to.idx()),
        hint == ChessMoveHint::Quiet ==> p.sboard().spec_color_at(to) is None,
        hint == ChessMoveHint::Caputre ==> p.sboard().spec_color_at(to) == Some(p.sturn().opp()),
        hint == ChessMoveHint::Quiet || hint == ChessMoveHint::Caputre,
    ensures
        spec_pseudo_legal(p, ChessMove { to, from, hint }),
{
    reveal(spec_pseudo_legal);
    p.sboard().lemma_color_iff_piece(to);
}

/// An own piece of a kind stands on the squares of its masks.
proof fn lemma_piece_on_masks(b: Board, c: Color, pc: Piece, s: Square)
    requires
        b.wf(),
        b.spec_color_at(s) == Some(c),
        b.spec_piece_at(s) == Some(pc),
    ensures
        bit(b.color_piece_bb(c, pc), s.idx()),
        bit(b.color_bb(c) & (b.piece_bb(Piece::Queen) | b.piece_bb(Piece::Bishop)), s.idx()) <==> (pc == Piece::Queen
            || pc == Piece::Bishop),
        bit(b.color_bb(c) & (b.piece_bb(Piece::Queen) | b.piece_bb(Piece::Rook)), s.idx()) <==> (pc == Piece::Queen
            || pc == Piece::Rook),
{
    s.lemma_repr_roundtrip();
    lemma_square_bits(b, s);
    lemma_bit_ops(b.color_bb(c), b.piece_bb(pc));
    lemma_bit_ops(b.color_bb(c), b.piece_bb(Piece::Queen) | b.piece_bb(Piece::Bishop));
    lemma_bit_ops(b.piece_bb(Piece::Queen), b.piece_bb(Piece::Bishop));
    lemma_bit_ops(b.color_bb(c), b.piece_bb(Piece::Queen) | b.piece_bb(Piece::Rook));
    lemma_bit_ops(b.piece_bb(Piece::Queen), b.piece_bb(Piece::Rook));
}

/// The own pieces of a kind stand on the squares of their mask.
proof fn lemma_own_piece(b: Board, c: Color, pc: Piece, s: Square)
    requires
        b.wf(),
        bit(b.color_piece_bb(c, pc), s.idx()),
    ensures
        b.spec_color_at(s) == Some(c),
        b.spec_piece_at(s) == Some(pc),
{
    s.lemma_repr_roundtrip();
    lemma_square_bits(b, s);
    lemma_bit_ops(b.color_bb(c), b.piece_bb(pc));
}

/// An own slider stands on a square of the sliders' mask.
proof fn lemma_own_slider(b: Board, c: Color, pc: Piece, s: Square)
    requires
        b.wf(),
        bit(b.color_bb(c) & (b.piece_bb(Piece::Queen) | b.piece_bb(pc)), s.idx()),
    ensures
        b.spec_color_at(s) == Some(c),
        b.spec_piece_at(s) == Some(pc) || b.spec_piece_at(s) == Some(Piece::Queen),
{
    s.lemma_repr_roundtrip();
    lemma_square_bits(b, s);
    lemma_bit_ops(b.color_bb(c), b.piece_bb(Piece::Queen) | b.piece_bb(pc));
    lemma_bit_ops(b.piece_bb(Piece::Queen), b.piece_bb(pc));
}

impl Position {
    /// Appends a move from `from` to every square of `to`.
    fn push_for_each(&self, moves: &mut Vec<ChessMove>, to: BitBoard, from: Square, hint: ChessMoveHint)
        requires
            forall|s: Square| #[trigger] bit(to.0, s.idx()) ==> spec_pseudo_legal(*self, ChessMove { to: s, from, hint }),
        ensures
            pushes_ok(*self, old(moves)@, final(moves)@),
            adds_from(old(moves)@, final(moves)@, from, hint),
            distinct_new(old(moves)@, final(moves)@),
            forall|i: int, j: int| old(moves)@.len() <= i < j < final(moves)@.len() ==> (#[trigger] final(moves)@[i]).to.idx()
                < (#[trigger] final(moves)@[j]).to.idx(),
            forall|k: int| old(moves)@.len() <= k < final(moves)@.len() ==> bit(to.0, (#[trigger] final(moves)@[k]).to.idx()),
            forall|s: Square| #[trigger] bit(to.0, s.idx()) ==> final(moves)@.contains(ChessMove { to: s, from, hint }),
    {
        let mut rest = to;
        let ghost start = moves@;
        while !rest.is_empty()
            invariant
                forall|j: int| 0 <= j < 64 && #[trigger] bit(rest.0, j) ==> bit(to.0, j),
                forall|s: Square| #[trigger] bit(to.0, s.idx()) ==> spec_pseudo_legal(*self, ChessMove { to: s, from, hint }),
                pushes_ok(*self, start, moves@),
                adds_from(start, moves@, from, hint),
                distinct_new(start, moves@),
                forall|i: int, j: int| start.len() <= i < j < moves@.len() ==> (#[trigger] moves@[i]).to.idx()
                    < (#[trigger] moves@[j]).to.idx(),
                forall|k: int, j: int| start.len() <= k < moves@.len() && 0 <= j < 64 && #[trigger] bit(rest.0, j)
                    ==> (#[trigger] moves@[k]).to.idx() < j,
                forall|k: int| start.len() <= k < moves@.len() ==> bit(to.0, (#[trigger] moves@[k]).to.idx()) && !bit(
                    rest.0,
                    moves@[k].to.idx(),
                ),
                forall|s: Square| #[trigger] bit(to.0, s.idx()) && !bit(rest.0, s.idx()) ==> moves@.contains(
                    ChessMove { to: s, from, hint },
                ),
            decreases rest.0,
        {
            proof {
                lemma_lsb(rest.0);
                lemma_reset_lsb_decreases(rest.0);
            }
            let ghost before = rest.0;
            let ghost old_moves = moves@;
            let sq = rest.iterator_next().unwrap();
            proof {
                lemma_squares_sound(before, 0);
                lemma_take_lowest(before);
                sq.lemma_repr_roundtrip();
                assert forall|j: int| 0 <= j < 64 && #[trigger] bit(rest.0, j) implies bit(to.0, j) by {
                    assert(bit(before & ((before - 1) as u64), j) ==> bit(before, j));
                }
            }
            moves.push(ChessMove { to: sq, from, hint });
            proof {
                let tz = vstd::std_specs::bits::u64_trailing_zeros(before) as int;
                assert(sq.idx() == tz);
                assert forall|k: int, j: int| start.len() <= k < moves@.len() && 0 <= j < 64 && #[trigger] bit(rest.0, j)
                    implies (#[trigger] moves@[k]).to.idx() < j by {
                    assert(bit(before, j) && j != tz);
                    if k < old_moves.len() {
                        assert(moves@[k] == old_moves[k]);
                    } else {
                        if j < tz {
                            assert(!bit(before, j));
                        }
                    }
                }
                assert forall|i: int, j: int| start.len() <= i < j < moves@.len() implies (#[trigger] moves@[i]).to.idx()
                    < (#[trigger] moves@[j]).to.idx() by {
                    assert(moves@[i] == old_moves[i]);
                    if j < old_moves.len() {
                        assert(moves@[j] == old_moves[j]);
                    } else {
                        assert(bit(before, tz));
                        assert(old_moves[i].to.idx() < tz);
                    }
                }
                assert forall|k: int| start.len() <= k < moves@.len() implies bit(to.0, (#[trigger] moves@[k]).to.idx())
                    && !bit(rest.0, moves@[k].to.idx()) by {
                    if k < old_moves.len() {
                        assert(moves@[k] == old_moves[k]);
                        assert(!bit(before, old_moves[k].to.idx()));
                        old_moves[k].to.lemma_repr_roundtrip();
                    }
                }
                assert forall|i: int, j: int| start.len() <= i < j < moves@.len() implies #[trigger] moves@[i]
                    != #[trigger] moves@[j] by {
                    if j == moves@.len() - 1 {
                        assert(moves@[i] == old_moves[i]);
                        assert(!bit(before, old_moves[i].to.idx()));
                    } else {
                        assert(moves@[i] == old_moves[i]);
                        assert(moves@[j] == old_moves[j]);
                    }
                }
                lemma_extends_contains(old_moves, moves@);
                assert(moves@[moves@.len() - 1] == ChessMove { to: sq, from, hint });
                assert forall|s: Square| #[trigger] bit(to.0, s.idx()) && !bit(rest.0, s.idx()) implies moves@.contains(
                    ChessMove { to: s, from, hint },
                ) by {
                    s.lemma_repr_roundtrip();
                    if s.idx() == sq.idx() {
                        Square::lemma_idx_injective(s, sq);
                    } else {
                        assert(!bit(before, s.idx()));
                        assert(old_moves.contains(ChessMove { to: s, from, hint }));
                    }
                }
            }
        }
        proof {
            assert forall|s: Square| #[trigger] bit(to.0, s.idx()) implies moves@.contains(ChessMove { to: s, from, hint }) by {
                s.lemma_repr_roundtrip();
                crate::bitboard::lemma_bits_of_constants(s.idx() as u64);
            }
        }
    }

    /// Appends the moves from `from` to the empty squares of `attacks`.
    fn push_quiets(&self, moves: &mut Vec<ChessMove>, attacks: BitBoard, from: Square, hint: ChessMoveHint)
        requires
            self.wf(),
            forall|s: Square| #[trigger] bit(attacks.0, s.idx()) && self.sboard().spec_color_at(s) is None
                ==> spec_pseudo_legal(*self, ChessMove { to: s, from, hint }),
        ensures
            pushes_ok(*self, old(moves)@, final(moves)@),
            adds_from(old(moves)@, final(moves)@, from, hint),
            distinct_new(old(moves)@, final(moves)@),
            forall|k: int| old(moves)@.len() <= k < final(moves)@.len() ==> bit(attacks.0, (#[trigger] final(moves)@[k]).to.idx()),
            forall|s: Square| #[trigger] bit(attacks.0, s.idx()) && self.sboard().spec_color_at(s) is None
                ==> final(moves)@.contains(ChessMove { to: s, from, hint }),
    {
        let board = self.board();
        let to = attacks.bitand(board.get_occupance().not());
        proof {
            assert forall|s: Square| #[trigger] bit(to.0, s.idx()) implies spec_pseudo_legal(*self, ChessMove { to: s, from, hint }) by {
                s.lemma_repr_roundtrip();
                lemma_square_bits(self.sboard(), s);
                lemma_bit_ops(attacks.0, !self.sboard().occupied_bb());
                lemma_bit_ops(self.sboard().occupied_bb(), 0);
                assert(bit(attacks.0, s.idx()));
            }
        }
        let ghost m0 = moves@;
        self.push_for_each(moves, to, from, hint);
        proof {
            assert forall|k: int| m0.len() <= k < moves@.len() implies bit(attacks.0, (#[trigger] moves@[k]).to.idx()) by {
                moves@[k].to.lemma_repr_roundtrip();
                lemma_bit_ops(attacks.0, !self.sboard().occupied_bb());
            }
            assert forall|s: Square| #[trigger] bit(attacks.0, s.idx()) && self.sboard().spec_color_at(s) is None
                implies moves@.contains(ChessMove { to: s, from, hint }) by {
                s.lemma_repr_roundtrip();
                lemma_square_bits(self.sboard(), s);
                lemma_bit_ops(attacks.0, !self.sboard().occupied_bb());
                lemma_bit_ops(self.sboard().occupied_bb(), 0);
                assert(bit(to.0, s.idx()));
            }
        }
    }

    /// Appends the moves from `from` to the squares of `attacks` that hold an
    /// enemy piece other than the king, queens first and pawns last, each kind
    /// from the lowest square up.
    fn push_attacks(&self, moves: &mut Vec<ChessMove>, attacks: BitBoard, from: Square, hint: ChessMoveHint)
        requires
            self.wf(),
            forall|s: Square| #[trigger] bit(attacks.0, s.idx()) && self.sboard().spec_color_at(s) == Some(self.sturn().opp())
                && self.sboard().spec_piece_at(s) != Some(Piece::King)
                ==> spec_pseudo_legal(*self, ChessMove { to: s, from, hint }),
        ensures
            pushes_ok(*self, old(moves)@, final(moves)@),
            adds_from(old(moves)@, final(moves)@, from, hint),
            distinct_new(old(moves)@, final(moves)@),
            forall|k: int| old(moves)@.len() <= k < final(moves)@.len() ==> bit(attacks.0, (#[trigger] final(moves)@[k]).to.idx())
                && self.sboard().spec_color_at(final(moves)@[k].to) == Some(self.sturn().opp())
                && self.sboard().spec_piece_at(final(moves)@[k].to) != Some(Piece::King),
            forall|i: int, j: int| old(moves)@.len() <= i < j < final(moves)@.len() ==> capture_rank(
                self.sboard().spec_piece_at((#[trigger] final(moves)@[i]).to),
            ) < capture_rank(self.sboard().spec_piece_at((#[trigger] final(moves)@[j]).to)) || (capture_rank(
                self.sboard().spec_piece_at(final(moves)@[i].to),
            ) == capture_rank(self.sboard().spec_piece_at(final(moves)@[j].to)) && final(moves)@[i].to.idx()
                < final(moves)@[j].to.idx()),
            forall|s: Square| #[trigger] bit(attacks.0, s.idx()) && self.sboard().spec_color_at(s) == Some(self.sturn().opp())
                && self.sboard().spec_piece_at(s) != Some(Piece::King)
                ==> final(moves)@.contains(ChessMove { to: s, from, hint }),
    {
        let board = self.board();
        let color = self.turn().not();
        let ghost start = moves@;
        self.push_enemy(moves, attacks, from, hint, board.get_color_piece(color, Piece::Queen), Piece::Queen);
        let ghost m1 = moves@;
        self.push_enemy(moves, attacks, from, hint, board.get_color_piece(color, Piece::Rook), Piece::Rook);
        let ghost m2 = moves@;
        self.push_enemy(moves, attacks, from, hint, board.get_color_piece(color, Piece::Bishop), Piece::Bishop);
        let ghost m3 = moves@;
        self.push_enemy(moves, attacks, from, hint, board.get_color_piece(color, Piece::Knight), Piece::Knight);
        let ghost m4 = moves@;
        self.push_enemy(moves, attacks, from, hint, board.get_color_piece(color, Piece::Pawn), Piece::Pawn);
        proof {
            assert forall|i: int, j: int| start.len() <= i < j < moves@.len() implies #[trigger] moves@[i]
                != #[trigger] moves@[j] by {
                if i < m1.len() { assert(moves@[i] == m1[i]); } else if i < m2.len() { assert(moves@[i] == m2[i]); } else if i < m3.len() { assert(moves@[i] == m3[i]); } else if i < m4.len() { assert(moves@[i] == m4[i]); }
                if j < m1.len() { assert(moves@[j] == m1[j]); } else if j < m2.len() { assert(moves@[j] == m2[j]); } else if j < m3.len() { assert(moves@[j] == m3[j]); } else if j < m4.len() { assert(moves@[j] == m4[j]); }
            }
            assert forall|i: int, j: int| start.len() <= i < j < moves@.len() implies capture_rank(
                self.sboard().spec_piece_at((#[trigger] moves@[i]).to),
            ) < capture_rank(self.sboard().spec_piece_at((#[trigger] moves@[j]).to)) || (capture_rank(
                self.sboard().spec_piece_at(moves@[i].to),
            ) == capture_rank(self.sboard().spec_piece_at(moves@[j].to)) && moves@[i].to.idx() < moves@[j].to.idx()) by {
                if i < m1.len() { assert(moves@[i] == m1[i]); } else if i < m2.len() { assert(moves@[i] == m2[i]); } else if i < m3.len() { assert(moves@[i] == m3[i]); } else if i < m4.len() { assert(moves@[i] == m4[i]); }
                if j < m1.len() { assert(moves@[j] == m1[j]); } else if j < m2.len() { assert(moves@[j] == m2[j]); } else if j < m3.len() { assert(moves@[j] == m3[j]); } else if j < m4.len() { assert(moves@[j] == m4[j]); }
            }
            assert forall|k: int| start.len() <= k < moves@.len() implies bit(attacks.0, (#[trigger] moves@[k]).to.idx())
                && self.sboard().spec_color_at(moves@[k].to) == Some(self.sturn().opp())
                && self.sboard().spec_piece_at(moves@[k].to) != Some(Piece::King) by {
                if k < m1.len() { assert(moves@[k] == m1[k]); } else if k < m2.len() { assert(moves@[k] == m2[k]); } else if k < m3.len() { assert(moves@[k] == m3[k]); } else if k < m4.len() { assert(moves@[k] == m4[k]); }
            }
            lemma_extends_contains(m1, m2);
            lemma_extends_contains(m2, m3);
            lemma_extends_contains(m3, m4);
            lemma_extends_contains(m4, moves@);
            assert forall|s: Square| #[trigger] bit(attacks.0, s.idx()) && self.sboard().spec_color_at(s) == Some(
                self.sturn().opp(),
            ) && self.sboard().spec_piece_at(s) != Some(Piece::King) implies moves@.contains(ChessMove { to: s, from, hint }) by {
                self.sboard().lemma_color_iff_piece(s);
            }
        }
    }

    /// Appends the moves from `from` to the squares of `attacks` that hold the
    /// enemy pieces of `targets`.
    fn push_enemy(
        &self,
        moves: &mut Vec<ChessMove>,
        attacks: BitBoard,
        from: Square,
        hint: ChessMoveHint,
        targets: BitBoard,
        kind: Piece,
    )
        requires
            self.wf(),
            kind != Piece::King,
            targets.0 == self.sboard().color_piece_bb(self.sturn().opp(), kind),
            forall|s: Square| #[trigger] bit(attacks.0, s.idx()) && self.sboard().spec_color_at(s) == Some(self.sturn().opp())
                && self.sboard().spec_piece_at(s) != Some(Piece::King)
                ==> spec_pseudo_legal(*self, ChessMove { to: s, from, hint }),
        ensures
            pushes_ok(*self, old(moves)@, final(moves)@),
            adds_from(old(moves)@, final(moves)@, from, hint),
            distinct_new(old(moves)@, final(moves)@),
            forall|k: int| old(moves)@.len() <= k < final(moves)@.len() ==> bit(attacks.0, (#[trigger] final(moves)@[k]).to.idx())
                && self.sboard().spec_piece_at(final(moves)@[k].to) == Some(kind) && self.sboard().spec_color_at(
                final(moves)@[k].to,
            ) == Some(self.sturn().opp()),
            forall|s: Square| #[trigger] bit(attacks.0, s.idx()) && self.sboard().spec_color_at(s) == Some(self.sturn().opp())
                && self.sboard().spec_piece_at(s) == Some(kind) ==> final(moves)@.contains(ChessMove { to: s, from, hint }),
            forall|i: int, j: int| old(moves)@.len() <= i < j < final(moves)@.len() ==> (#[trigger] final(moves)@[i]).to.idx()
                < (#[trigger] final(moves)@[j]).to.idx(),
    {
        let to = attacks.bitand(targets);
        proof {
            assert forall|s: Square| #[trigger] bit(to.0, s.idx()) implies spec_pseudo_legal(*self, ChessMove { to: s, from, hint }) by {
                s.lemma_repr_roundtrip();
                lemma_bit_ops(attacks.0, targets.0);
                assert(bit(attacks.0, s.idx()));
                lemma_own_piece(self.sboard(), self.sturn().opp(), kind, s);
            }
        }
        let ghost m0 = moves@;
        self.push_for_each(moves, to, from, hint);
        proof {
            assert forall|k: int| m0.len() <= k < moves@.len() implies bit(attacks.0, (#[trigger] moves@[k]).to.idx())
                && self.sboard().spec_piece_at(moves@[k].to) == Some(kind) && self.sboard().spec_color_at(moves@[k].to)
                == Some(self.sturn().opp()) by {
                moves@[k].to.lemma_repr_roundtrip();
                lemma_bit_ops(attacks.0, targets.0);
                lemma_own_piece(self.sboard(), self.sturn().opp(), kind, moves@[k].to);
            }
            assert forall|s: Square| #[trigger] bit(attacks.0, s.idx()) && self.sboard().spec_color_at(s) == Some(
                self.sturn().opp(),
            ) && self.sboard().spec_piece_at(s) == Some(kind) implies moves@.contains(ChessMove { to: s, from, hint }) by {
                s.lemma_repr_roundtrip();
                lemma_bit_ops(attacks.0, targets.0);
                lemma_square_bits(self.sboard(), s);
                lemma_bit_ops(self.sboard().color_bb(self.sturn().opp()), self.sboard().piece_bb(kind));
                assert(bit(to.0, s.idx()));
            }
        }
    }
}

/// The squares a knight, a bishop-like or a rook-like piece attacks.
pub open spec fn kind_attacks(kind: Piece, occ: u64, from: Square) -> u64 {
    match kind {
        Piece::Knight => knight_spec(from),
        Piece::Bishop => bishop_spec(occ, from),
        _ => rook_spec(occ, from),
    }
}

/// A move of a knight, of a bishop-like piece along a diagonal, or of a
/// rook-like piece along a rank or a file, with the hint.
pub open spec fn piece_move_of(p: Position, m: ChessMove, kind: Piece, hint: ChessMoveHint) -> bool {
    let b = p.sboard();
    &&& m.hint == hint
    &&& match kind {
        Piece::Knight => b.spec_piece_at(m.from) == Some(Piece::Knight),
        Piece::Bishop => (b.spec_piece_at(m.from) == Some(Piece::Bishop) || b.spec_piece_at(m.from) == Some(
            Piece::Queen,
        )) && bit(bishop_spec(b.occupied_bb(), m.from), m.to.idx()),
        _ => (b.spec_piece_at(m.from) == Some(Piece::Rook) || b.spec_piece_at(m.from) == Some(Piece::Queen)) && bit(
            rook_spec(b.occupied_bb(), m.from),
            m.to.idx(),
        ),
    }
}

/// The target of a quiet move is empty; that of a capture holds an enemy
/// piece other than the king.
pub open spec fn target_ok(p: Position, s: Square, quiet: bool) -> bool {
    if quiet {
        p.sboard().spec_color_at(s) is None
    } else {
        p.sboard().spec_color_at(s) == Some(p.sturn().opp()) && p.sboard().spec_piece_at(s) != Some(Piece::King)
    }
}

/// The hint of a quiet move or of a capture.
pub open spec fn plain_hint(quiet: bool) -> ChessMoveHint {
    if quiet {
        ChessMoveHint::Quiet
    } else {
        ChessMoveHint::Caputre
    }
}

/// The moves from `from` onto the targets its attacks reach are all in `moves`.
pub open spec fn covers_from(p: Position, moves: Seq<ChessMove>, attacks: u64, quiet: bool, from: Square) -> bool {
    forall|s: Square| #[trigger] bit(attacks, s.idx()) && target_ok(p, s, quiet) ==> moves.contains(
        ChessMove { to: s, from, hint: plain_hint(quiet) },
    )
}

/// Covering stays true when moves are added behind.
proof fn lemma_covers_extends(p: Position, a: Seq<ChessMove>, b: Seq<ChessMove>, attacks: u64, quiet: bool, from: Square)
    requires
        extends(a, b),
        covers_from(p, a, attacks, quiet, from),
    ensures
        covers_from(p, b, attacks, quiet, from),
{
    lemma_extends_contains(a, b);
}

/// What a pseudo-legal quiet move or capture of a piece other than a pawn
/// says of its squares.
proof fn lemma_piece_move_shape(p: Position, m: ChessMove, piece: Piece)
    requires
        p.wf(),
        spec_pseudo_legal(p, m),
        m.hint == ChessMoveHint::Quiet || m.hint == ChessMoveHint::Caputre,
        p.sboard().spec_piece_at(m.from) == Some(piece),
        piece != Piece::Pawn,
    ensures
        p.sboard().spec_color_at(m.from) == Some(p.sturn()),
        bit(reach(piece, p.sboard().occupied_bb(), m.from), m.to.idx()),
        m.hint == ChessMoveHint::Quiet ==> p.sboard().spec_color_at(m.to) is None,
        m.hint == ChessMoveHint::Caputre ==> p.sboard().spec_color_at(m.to) == Some(p.sturn().opp()),
{
    reveal(spec_pseudo_legal);
    p.sboard().lemma_color_iff_piece(m.to);
    p.sboard().lemma_color_iff_piece(m.from);
    let c = p.sboard().spec_color_at(m.to);
    if c is Some {
        assert(c == Some(p.sturn()) || c == Some(p.sturn().opp())) by {
            match c.unwrap() {
                Color::White => {},
                Color::Black => {},
            }
        }
    }
}

impl Position {
    /// Appends the quiet moves (or the captures) of the knights, bishop-like or
    /// rook-like pieces on the squares of `sources`.
    fn push_piece_moves(&self, moves: &mut Vec<ChessMove>, sources: BitBoard, kind: Piece, quiet: bool)
        requires
            self.wf(),
            kind == Piece::Knight || kind == Piece::Bishop || kind == Piece::Rook,
            forall|s: Square| #[trigger] bit(sources.0, s.idx()) ==> self.sboard().spec_color_at(s) == Some(self.sturn())
                && (self.sboard().spec_piece_at(s) == Some(kind) || (kind != Piece::Knight
                && self.sboard().spec_piece_at(s) == Some(Piece::Queen))),
        ensures
            pushes_ok(*self, old(moves)@, final(moves)@),
            distinct_new(old(moves)@, final(moves)@),
            forall|k: int| old(moves)@.len() <= k < final(moves)@.len() ==> bit(sources.0, (#[trigger] final(moves)@[k]).from.idx())
                && bit(kind_attacks(kind, self.sboard().occupied_bb(), final(moves)@[k].from), final(moves)@[k].to.idx())
                && final(moves)@[k].hint == (if quiet { ChessMoveHint::Quiet } else { ChessMoveHint::Caputre }),
            forall|from: Square| bit(sources.0, from.idx()) ==> #[trigger] covers_from(
                *self,
                final(moves)@,
                kind_attacks(kind, self.sboard().occupied_bb(), from),
                quiet,
                from,
            ),
    {
        let occ = self.board().get_occupance();
        let mut rest = sources;
        let ghost start = moves@;
        while !rest.is_empty()
            invariant
                self.wf(),
                kind == Piece::Knight || kind == Piece::Bishop || kind == Piece::Rook,
                occ.0 == self.sboard().occupied_bb(),
                forall|j: int| 0 <= j < 64 && #[trigger] bit(rest.0, j) ==> bit(sources.0, j),
                forall|s: Square| #[trigger] bit(sources.0, s.idx()) ==> self.sboard().spec_color_at(s) == Some(self.sturn())
                    && (self.sboard().spec_piece_at(s) == Some(kind) || (kind != Piece::Knight
                    && self.sboard().spec_piece_at(s) == Some(Piece::Queen))),
                pushes_ok(*self, start, moves@),
                distinct_new(start, moves@),
                forall|k: int| start.len() <= k < moves@.len() ==> bit(sources.0, (#[trigger] moves@[k]).from.idx()) && !bit(
                    rest.0,
                    moves@[k].from.idx(),
                ) && bit(kind_attacks(kind, self.sboard().occupied_bb(), moves@[k].from), moves@[k].to.idx())
                    && moves@[k].hint == (if quiet { ChessMoveHint::Quiet } else { ChessMoveHint::Caputre }),
                forall|from: Square| bit(sources.0, from.idx()) && !bit(rest.0, from.idx()) ==> #[trigger] covers_from(
                    *self,
                    moves@,
                    kind_attacks(kind, self.sboard().occupied_bb(), from),
                    quiet,
                    from,
                ),
            decreases rest.0,
        {
            proof {
                lemma_lsb(rest.0);
                lemma_reset_lsb_decreases(rest.0);
            }
            let ghost before = rest.0;
            let ghost old_moves = moves@;
            let from = rest.iterator_next().unwrap();
            proof {
                lemma_squares_sound(before, 0);
                lemma_take_lowest(before);
                from.lemma_repr_roundtrip();
                assert forall|j: int| 0 <= j < 64 && #[trigger] bit(rest.0, j) implies bit(sources.0, j) by {
                    assert(bit(before & ((before - 1) as u64), j) ==> bit(before, j));
                }
                assert(bit(sources.0, from.idx()));
            }
            let attacks = match kind {
                Piece::Knight => BitBoard::knight_attacks(from),
                Piece::Bishop => BitBoard::bishop_attacks(occ, from),
                _ => BitBoard::rook_attacks(occ, from),
            };
            let ghost piece = self.sboard().spec_piece_at(from).unwrap();
            proof {
                let o = self.sboard().occupied_bb();
                lemma_bit_ops(bishop_spec(o, from), rook_spec(o, from));
                assert forall|j: int| 0 <= j < 64 && #[trigger] bit(attacks.0, j) implies bit(reach(piece, o, from), j) by {}
            }
            if quiet {
                proof {
                    assert forall|s: Square| #[trigger] bit(attacks.0, s.idx()) && self.sboard().spec_color_at(s) is None
                        implies spec_pseudo_legal(*self, ChessMove { to: s, from, hint: ChessMoveHint::Quiet }) by {
                        s.lemma_repr_roundtrip();
                        lemma_piece_move_ok(*self, from, s, piece, ChessMoveHint::Quiet);
                    }
                }
                self.push_quiets(moves, attacks, from, ChessMoveHint::Quiet);
                proof {
                    assert(covers_from(*self, moves@, attacks.0, quiet, from));
                }
            } else {
                proof {
                    assert forall|s: Square| #[trigger] bit(attacks.0, s.idx()) && self.sboard().spec_color_at(s) == Some(self.sturn().opp())
                        && self.sboard().spec_piece_at(s) != Some(Piece::King)
                        implies spec_pseudo_legal(*self, ChessMove { to: s, from, hint: ChessMoveHint::Caputre }) by {
                        s.lemma_repr_roundtrip();
                        lemma_piece_move_ok(*self, from, s, piece, ChessMoveHint::Caputre);
                    }
                }
                self.push_attacks(moves, attacks, from, ChessMoveHint::Caputre);
                proof {
                    assert(covers_from(*self, moves@, attacks.0, quiet, from));
                }
            }
            proof {
                assert forall|k: int| start.len() <= k < moves@.len() implies bit(sources.0, (#[trigger] moves@[k]).from.idx())
                    && !bit(rest.0, moves@[k].from.idx()) && bit(
                    kind_attacks(kind, self.sboard().occupied_bb(), moves@[k].from),
                    moves@[k].to.idx(),
                ) && moves@[k].hint == (if quiet { ChessMoveHint::Quiet } else { ChessMoveHint::Caputre }) by {
                    if k < old_moves.len() {
                        assert(moves@[k] == old_moves[k]);
                        assert(!bit(before, old_moves[k].from.idx()));
                        old_moves[k].from.lemma_repr_roundtrip();
                    }
                }
                assert forall|i: int, j: int| start.len() <= i < j < moves@.len() implies #[trigger] moves@[i]
                    != #[trigger] moves@[j] by {
                    if i < old_moves.len() {
                        assert(moves@[i] == old_moves[i]);
                        if j < old_moves.len() {
                            assert(moves@[j] == old_moves[j]);
                        } else {
                            assert(!bit(before, old_moves[i].from.idx()));
                        }
                    }
                }
                assert forall|f: Square| bit(sources.0, f.idx()) && !bit(rest.0, f.idx()) implies #[trigger] covers_from(
                    *self,
                    moves@,
                    kind_attacks(kind, self.sboard().occupied_bb(), f),
                    quiet,
                    f,
                ) by {
                    f.lemma_repr_roundtrip();
                    if f.idx() == from.idx() {
                        Square::lemma_idx_injective(f, from);
                    } else {
                        assert(!bit(before, f.idx()));
                        lemma_covers_extends(
                            *self,
                            old_moves,
                            moves@,
                            kind_attacks(kind, self.sboard().occupied_bb(), f),
                            quiet,
                            f,
                        );
                    }
                }
            }
        }
        proof {
            assert forall|f: Square| bit(sources.0, f.idx()) implies #[trigger] covers_from(
                *self,
                moves@,
                kind_attacks(kind, self.sboard().occupied_bb(), f),
                quiet,
                f,
            ) by {
                f.lemma_repr_roundtrip();
                crate::bitboard::lemma_bits_of_constants(f.idx() as u64);
            }
        }
    }

    /// Generate pseudo-legal knight's quiet moves from this position.
    pub fn push_knight_quiets(&self, moves: &mut Vec<ChessMove>)
        requires
            self.wf(),
        ensures
            pushes_ok(*self, old(moves)@, final(moves)@),
            forall|m: ChessMove| #[trigger] spec_pseudo_legal(*self, m) && m.hint == ChessMoveHint::Quiet && self.sboard().spec_piece_at(m.from) == Some(Piece::Knight)
                ==> final(moves)@.contains(m),
            distinct_new(old(moves)@, final(moves)@),
            forall|k: int| old(moves)@.len() <= k < final(moves)@.len() ==> #[trigger] piece_move_of(
                *self,
                final(moves)@[k],
                Piece::Knight,
                ChessMoveHint::Quiet,
            ),
    {
        let knights = self.board().get_color_piece(self.turn(), Piece::Knight);
        proof {
            assert forall|s: Square| #[trigger] bit(knights.0, s.idx()) implies self.sboard().spec_color_at(s) == Some(self.sturn())
                && self.sboard().spec_piece_at(s) == Some(Piece::Knight) by {
                lemma_own_piece(self.sboard(), self.sturn(), Piece::Knight, s);
            }
        }
        let ghost m0 = moves@;
        self.push_piece_moves(moves, knights, Piece::Knight, true);
        proof {
            assert forall|k: int| m0.len() <= k < moves@.len() implies #[trigger] piece_move_of(
                *self,
                moves@[k],
                Piece::Knight,
                ChessMoveHint::Quiet,
            ) by {
                assert(bit(knights.0, moves@[k].from.idx()));
            }
        }
        proof {
            assert forall|m: ChessMove| #[trigger] spec_pseudo_legal(*self, m) && m.hint == ChessMoveHint::Quiet && self.sboard().spec_piece_at(m.from) == Some(Piece::Knight)
                implies moves@.contains(m) by {
                let pc = self.sboard().spec_piece_at(m.from).unwrap();
                lemma_piece_move_shape(*self, m, pc);
                lemma_piece_on_masks(self.sboard(), self.sturn(), pc, m.from);
                crate::bitboard::lemma_bit_ops(bishop_spec(self.sboard().occupied_bb(), m.from), rook_spec(self.sboard().occupied_bb(), m.from));
                assert(covers_from(*self, moves@, kind_attacks(Piece::Knight, self.sboard().occupied_bb(), m.from), true, m.from));
                assert(target_ok(*self, m.to, true));
            }
        }
    }

    /// Generate pseudo-legal knight attacks from this position.
    pub fn push_knight_attacks(&self, moves: &mut Vec<ChessMove>)
        requires
            self.wf(),
        ensures
            pushes_ok(*self, old(moves)@, final(moves)@),
            forall|m: ChessMove| #[trigger] spec_pseudo_legal(*self, m) && m.hint == ChessMoveHint::Caputre && self.sboard().spec_piece_at(m.from) == Some(Piece::Knight) && self.sboard().spec_piece_at(m.to) != Some(Piece::King)
                ==> final(moves)@.contains(m),
            distinct_new(old(moves)@, final(moves)@),
            forall|k: int| old(moves)@.len() <= k < final(moves)@.len() ==> #[trigger] piece_move_of(
                *self,
                final(moves)@[k],
                Piece::Knight,
                ChessMoveHint::Caputre,
            ),
    {
        let knights = self.board().get_color_piece(self.turn(), Piece::Knight);
        proof {
            assert forall|s: Square| #[trigger] bit(knights.0, s.idx()) implies self.sboard().spec_color_at(s) == Some(self.sturn())
                && self.sboard().spec_piece_at(s) == Some(Piece::Knight) by {
                lemma_own_piece(self.sboard(), self.sturn(), Piece::Knight, s);
            }
        }
        let ghost m0 = moves@;
        self.push_piece_moves(moves, knights, Piece::Knight, false);
        proof {
            assert forall|k: int| m0.len() <= k < moves@.len() implies #[trigger] piece_move_of(
                *self,
                moves@[k],
                Piece::Knight,
                ChessMoveHint::Caputre,
            ) by {
                assert(bit(knights.0, moves@[k].from.idx()));
            }
        }
        proof {
            assert forall|m: ChessMove| #[trigger] spec_pseudo_legal(*self, m) && m.hint == ChessMoveHint::Caputre && self.sboard().spec_piece_at(m.from) == Some(Piece::Knight) && self.sboard().spec_piece_at(m.to) != Some(Piece::King)
                implies moves@.contains(m) by {
                let pc = self.sboard().spec_piece_at(m.from).unwrap();
                lemma_piece_move_shape(*self, m, pc);
                lemma_piece_on_masks(self.sboard(), self.sturn(), pc, m.from);
                crate::bitboard::lemma_bit_ops(bishop_spec(self.sboard().occupied_bb(), m.from), rook_spec(self.sboard().occupied_bb(), m.from));
                assert(covers_from(*self, moves@, kind_attacks(Piece::Knight, self.sboard().occupied_bb(), m.from), false, m.from));
                assert(target_ok(*self, m.to, false));
            }
        }
    }

    /// Generate pseudo-legal bishop-like quiet moves from this position.
    pub fn push_bishop_quiets(&self, moves: &mut Vec<ChessMove>)
        requires
            self.wf(),
        ensures
            pushes_ok(*self, old(moves)@, final(moves)@),
            forall|m: ChessMove| #[trigger] spec_pseudo_legal(*self, m) && m.hint == ChessMoveHint::Quiet && (self.sboard().spec_piece_at(m.from) == Some(Piece::Bishop) || (self.sboard().spec_piece_at(m.from) == Some(Piece::Queen)
                && bit(bishop_spec(self.sboard().occupied_bb(), m.from), m.to.idx())))
                ==> final(moves)@.contains(m),
            distinct_new(old(moves)@, final(moves)@),
            forall|k: int| old(moves)@.len() <= k < final(moves)@.len() ==> #[trigger] piece_move_of(
                *self,
                final(moves)@[k],
                Piece::Bishop,
                ChessMoveHint::Quiet,
            ),
    {
        let sliders = self.board().get_color_bishop_sliders(self.turn());
        proof {
            assert forall|s: Square| #[trigger] bit(sliders.0, s.idx()) implies self.sboard().spec_color_at(s) == Some(self.sturn())
                && (self.sboard().spec_piece_at(s) == Some(Piece::Bishop) || self.sboard().spec_piece_at(s) == Some(Piece::Queen)) by {
                lemma_own_slider(self.sboard(), self.sturn(), Piece::Bishop, s);
            }
        }
        let ghost m0 = moves@;
        self.push_piece_moves(moves, sliders, Piece::Bishop, true);
        proof {
            assert forall|k: int| m0.len() <= k < moves@.len() implies #[trigger] piece_move_of(
                *self,
                moves@[k],
                Piece::Bishop,
                ChessMoveHint::Quiet,
            ) by {
                assert(bit(sliders.0, moves@[k].from.idx()));
            }
        }
        proof {
            assert forall|m: ChessMove| #[trigger] spec_pseudo_legal(*self, m) && m.hint == ChessMoveHint::Quiet && (self.sboard().spec_piece_at(m.from) == Some(Piece::Bishop) || (self.sboard().spec_piece_at(m.from) == Some(Piece::Queen)
                && bit(bishop_spec(self.sboard().occupied_bb(), m.from), m.to.idx())))
                implies moves@.contains(m) by {
                let pc = self.sboard().spec_piece_at(m.from).unwrap();
                lemma_piece_move_shape(*self, m, pc);
                lemma_piece_on_masks(self.sboard(), self.sturn(), pc, m.from);
                crate::bitboard::lemma_bit_ops(bishop_spec(self.sboard().occupied_bb(), m.from), rook_spec(self.sboard().occupied_bb(), m.from));
                assert(covers_from(*self, moves@, kind_attacks(Piece::Bishop, self.sboard().occupied_bb(), m.from), true, m.from));
                assert(target_ok(*self, m.to, true));
            }
        }
    }

    /// Generate pseudo-legal bishop-like attacks from this position.
    pub fn push_bishop_attacks(&self, moves: &mut Vec<ChessMove>)
        requires
            self.wf(),
        ensures
            pushes_ok(*self, old(moves)@, final(moves)@),
            forall|m: ChessMove| #[trigger] spec_pseudo_legal(*self, m) && m.hint == ChessMoveHint::Caputre && (self.sboard().spec_piece_at(m.from) == Some(Piece::Bishop) || (self.sboard().spec_piece_at(m.from) == Some(Piece::Queen)
                && bit(bishop_spec(self.sboard().occupied_bb(), m.from), m.to.idx()))) && self.sboard().spec_piece_at(m.to) != Some(Piece::King)
                ==> final(moves)@.contains(m),
            distinct_new(old(moves)@, final(moves)@),
            forall|k: int| old(moves)@.len() <= k < final(moves)@.len() ==> #[trigger] piece_move_of(
                *self,
                final(moves)@[k],
                Piece::Bishop,
                ChessMoveHint::Caputre,
            ),
    {
        let sliders = self.board().get_color_bishop_sliders(self.turn());
        proof {
            assert forall|s: Square| #[trigger] bit(sliders.0, s.idx()) implies self.sboard().spec_color_at(s) == Some(self.sturn())
                && (self.sboard().spec_piece_at(s) == Some(Piece::Bishop) || self.sboard().spec_piece_at(s) == Some(Piece::Queen)) by {
                lemma_own_slider(self.sboard(), self.sturn(), Piece::Bishop, s);
            }
        }
        let ghost m0 = moves@;
        self.push_piece_moves(moves, sliders, Piece::Bishop, false);
        proof {
            assert forall|k: int| m0.len() <= k < moves@.len() implies #[trigger] piece_move_of(
                *self,
                moves@[k],
                Piece::Bishop,
                ChessMoveHint::Caputre,
            ) by {
                assert(bit(sliders.0, moves@[k].from.idx()));
            }
        }
        proof {
            assert forall|m: ChessMove| #[trigger] spec_pseudo_legal(*self, m) && m.hint == ChessMoveHint::Caputre && (self.sboard().spec_piece_at(m.from) == Some(Piece::Bishop) || (self.sboard().spec_piece_at(m.from) == Some(Piece::Queen)
                && bit(bishop_spec(self.sboard().occupied_bb(), m.from), m.to.idx()))) && self.sboard().spec_piece_at(m.to) != Some(Piece::King)
                implies moves@.contains(m) by {
                let pc = self.sboard().spec_piece_at(m.from).unwrap();
                lemma_piece_move_shape(*self, m, pc);
                lemma_piece_on_masks(self.sboard(), self.sturn(), pc, m.from);
                crate::bitboard::lemma_bit_ops(bishop_spec(self.sboard().occupied_bb(), m.from), rook_spec(self.sboard().occupied_bb(), m.from));
                assert(covers_from(*self, moves@, kind_attacks(Piece::Bishop, self.sboard().occupied_bb(), m.from), false, m.from));
                assert(target_ok(*self, m.to, false));
            }
        }
    }

    /// Generate pseudo-legal rook-like quiet moves from this position.
    pub fn push_rook_quiets(&self, moves: &mut Vec<ChessMove>)
        requires
            self.wf(),
        ensures
            pushes_ok(*self, old(moves)@, final(moves)@),
            forall|m: ChessMove| #[trigger] spec_pseudo_legal(*self, m) && m.hint == ChessMoveHint::Quiet && (self.sboard().spec_piece_at(m.from) == Some(Piece::Rook) || (self.sboard().spec_piece_at(m.from) == Some(Piece::Queen)
                && bit(rook_spec(self.sboard().occupied_bb(), m.from), m.to.idx())))
                ==> final(moves)@.contains(m),
            distinct_new(old(moves)@, final(moves)@),
            forall|k: int| old(moves)@.len() <= k < final(moves)@.len() ==> #[trigger] piece_move_of(
                *self,
                final(moves)@[k],
                Piece::Rook,
                ChessMoveHint::Quiet,
            ),
    {
        let sliders = self.board().get_color_rook_sliders(self.turn());
        proof {
            assert forall|s: Square| #[trigger] bit(sliders.0, s.idx()) implies self.sboard().spec_color_at(s) == Some(self.sturn())
                && (self.sboard().spec_piece_at(s) == Some(Piece::Rook) || self.sboard().spec_piece_at(s) == Some(Piece::Queen)) by {
                lemma_own_slider(self.sboard(), self.sturn(), Piece::Rook, s);
            }
        }
        let ghost m0 = moves@;
        self.push_piece_moves(moves, sliders, Piece::Rook, true);
        proof {
            assert forall|k: int| m0.len() <= k < moves@.len() implies #[trigger] piece_move_of(
                *self,
                moves@[k],
                Piece::Rook,
                ChessMoveHint::Quiet,
            ) by {
                assert(bit(sliders.0, moves@[k].from.idx()));
            }
        }
        proof {
            assert forall|m: ChessMove| #[trigger] spec_pseudo_legal(*self, m) && m.hint == ChessMoveHint::Quiet && (self.sboard().spec_piece_at(m.from) == Some(Piece::Rook) || (self.sboard().spec_piece_at(m.from) == Some(Piece::Queen)
                && bit(rook_spec(self.sboard().occupied_bb(), m.from), m.to.idx())))
                implies moves@.contains(m) by {
                let pc = self.sboard().spec_piece_at(m.from).unwrap();
                lemma_piece_move_shape(*self, m, pc);
                lemma_piece_on_masks(self.sboard(), self.sturn(), pc, m.from);
                crate::bitboard::lemma_bit_ops(bishop_spec(self.sboard().occupied_bb(), m.from), rook_spec(self.sboard().occupied_bb(), m.from));
                assert(covers_from(*self, moves@, kind_attacks(Piece::Rook, self.sboard().occupied_bb(), m.from), true, m.from));
                assert(target_ok(*self, m.to, true));
            }
        }
    }

    /// Generate pseudo-legal rook-like attacks from this position.
    pub fn push_rook_attacks(&self, moves: &mut Vec<ChessMove>)
        requires
            self.wf(),
        ensures
            pushes_ok(*self, old(moves)@, final(moves)@),
            forall|m: ChessMove| #[trigger] spec_pseudo_legal(*self, m) && m.hint == ChessMoveHint::Caputre && (self.sboard().spec_piece_at(m.from) == Some(Piece::Rook) || (self.sboard().spec_piece_at(m.from) == Some(Piece::Queen)
                && bit(rook_spec(self.sboard().occupied_bb(), m.from), m.to.idx()))) && self.sboard().spec_piece_at(m.to) != Some(Piece::King)
                ==> final(moves)@.contains(m),
            distinct_new(old(moves)@, final(moves)@),
            forall|k: int| old(moves)@.len() <= k < final(moves)@.len() ==> #[trigger] piece_move_of(
                *self,
                final(moves)@[k],
                Piece::Rook,
                ChessMoveHint::Caputre,
            ),
    {
        let sliders = self.board().get_color_rook_sliders(self.turn());
        proof {
            assert forall|s: Square| #[trigger] bit(sliders.0, s.idx()) implies self.sboard().spec_color_at(s) == Some(self.sturn())
                && (self.sboard().spec_piece_at(s) == Some(Piece::Rook) || self.sboard().spec_piece_at(s) == Some(Piece::Queen)) by {
                lemma_own_slider(self.sboard(), self.sturn(), Piece::Rook, s);
            }
        }
        let ghost m0 = moves@;
        self.push_piece_moves(moves, sliders, Piece::Rook, false);
        proof {
            assert forall|k: int| m0.len() <= k < moves@.len() implies #[trigger] piece_move_of(
                *self,
                moves@[k],
                Piece::Rook,
                ChessMoveHint::Caputre,
            ) by {
                assert(bit(sliders.0, moves@[k].from.idx()));
            }
        }
        proof {
            assert forall|m: ChessMove| #[trigger] spec_pseudo_legal(*self, m) && m.hint == ChessMoveHint::Caputre && (self.sboard().spec_piece_at(m.from) == Some(Piece::Rook) || (self.sboard().spec_piece_at(m.from) == Some(Piece::Queen)
                && bit(rook_spec(self.sboard().occupied_bb(), m.from), m.to.idx()))) && self.sboard().spec_piece_at(m.to) != Some(Piece::King)
                implies moves@.contains(m) by {
                let pc = self.sboard().spec_piece_at(m.from).unwrap();
                lemma_piece_move_shape(*self, m, pc);
                lemma_piece_on_masks(self.sboard(), self.sturn(), pc, m.from);
                crate::bitboard::lemma_bit_ops(bishop_spec(self.sboard().occupied_bb(), m.from), rook_spec(self.sboard().occupied_bb(), m.from));
                assert(covers_from(*self, moves@, kind_attacks(Piece::Rook, self.sboard().occupied_bb(), m.from), false, m.from));
                assert(target_ok(*self, m.to, false));
            }
        }
    }
}

impl Position {
    /// The square of the king of the side to move.
    fn own_king(&self) -> (r: Square)
        requires
            self.wf(),
        ensures
            self.sboard().spec_color_at(r) == Some(self.sturn()),
            self.sboard().spec_piece_at(r) == Some(Piece::King),
            forall|s: Square| self.sboard().spec_color_at(s) == Some(self.sturn()) && #[trigger] self.sboard().spec_piece_at(s)
                == Some(Piece::King) ==> s == r,
    {
        proof {
            crate::position::lemma_one_king_mask(self.sboard(), self.sturn());
        }
        let r = self.board().get_color_piece(self.turn(), Piece::King).bit_scan_forward().unwrap();
        proof {
            lemma_own_piece(self.sboard(), self.sturn(), Piece::King, r);
            assert(crate::position::king_at(self.sboard(), self.sturn(), r));
            assert forall|s: Square| self.sboard().spec_color_at(s) == Some(self.sturn()) && #[trigger] self.sboard().spec_piece_at(s)
                == Some(Piece::King) implies s == r by {
                assert(crate::position::king_at(self.sboard(), self.sturn(), s));
            }
        }
        r
    }

    /// Generate pseudo-legal king's quiet moves from this position.
    pub fn push_king_quiets(&self, moves: &mut Vec<ChessMove>)
        requires
            self.wf(),
        ensures
            pushes_ok(*self, old(moves)@, final(moves)@),
            forall|m: ChessMove| #[trigger] spec_pseudo_legal(*self, m) && m.hint == ChessMoveHint::Quiet
                && self.sboard().spec_piece_at(m.from) == Some(Piece::King) ==> final(moves)@.contains(m),
            forall|k: int| old(moves)@.len() <= k < final(moves)@.len() ==> self.sboard().spec_piece_at(
                (#[trigger] final(moves)@[k]).from,
            ) == Some(Piece::King) && final(moves)@[k].hint == ChessMoveHint::Quiet,
            distinct_new(old(moves)@, final(moves)@),
    {
        let from = self.own_king();
        let attacks = BitBoard::king_attacks(from);
        proof {
            assert forall|s: Square| #[trigger] bit(attacks.0, s.idx()) && self.sboard().spec_color_at(s) is None
                implies spec_pseudo_legal(*self, ChessMove { to: s, from, hint: ChessMoveHint::Quiet }) by {
                lemma_piece_move_ok(*self, from, s, Piece::King, ChessMoveHint::Quiet);
            }
        }
        self.push_quiets(moves, attacks, from, ChessMoveHint::Quiet);
        proof {
            assert forall|m: ChessMove| #[trigger] spec_pseudo_legal(*self, m) && m.hint == ChessMoveHint::Quiet
                && self.sboard().spec_piece_at(m.from) == Some(Piece::King) implies moves@.contains(m) by {
                lemma_piece_move_shape(*self, m, Piece::King);
                assert(m.from == from);
                if false {
                    self.sboard().lemma_color_iff_piece(m.to);
                }
            }
        }
    }

    /// Generate pseudo-legal king attacks from this position.
    pub fn push_king_attacks(&self, moves: &mut Vec<ChessMove>)
        requires
            self.wf(),
        ensures
            pushes_ok(*self, old(moves)@, final(moves)@),
            forall|m: ChessMove| #[trigger] spec_pseudo_legal(*self, m) && m.hint == ChessMoveHint::Caputre
                && self.sboard().spec_piece_at(m.from) == Some(Piece::King) && self.sboard().spec_piece_at(m.to) != Some(Piece::King) ==> final(moves)@.contains(m),
            forall|k: int| old(moves)@.len() <= k < final(moves)@.len() ==> self.sboard().spec_piece_at(
                (#[trigger] final(moves)@[k]).from,
            ) == Some(Piece::King) && final(moves)@[k].hint == ChessMoveHint::Caputre,
            distinct_new(old(moves)@, final(moves)@),
    {
        let from = self.own_king();
        let attacks = BitBoard::king_attacks(from);
        proof {
            assert forall|s: Square| #[trigger] bit(attacks.0, s.idx()) && self.sboard().spec_color_at(s) == Some(self.sturn().opp())
                && self.sboard().spec_piece_at(s) != Some(Piece::King)
                implies spec_pseudo_legal(*self, ChessMove { to: s, from, hint: ChessMoveHint::Caputre }) by {
                lemma_piece_move_ok(*self, from, s, Piece::King, ChessMoveHint::Caputre);
            }
        }
        self.push_attacks(moves, attacks, from, ChessMoveHint::Caputre);
        proof {
            assert forall|m: ChessMove| #[trigger] spec_pseudo_legal(*self, m) && m.hint == ChessMoveHint::Caputre
                && self.sboard().spec_piece_at(m.from) == Some(Piece::King) && self.sboard().spec_piece_at(m.to) != Some(Piece::King) implies moves@.contains(m) by {
                lemma_piece_move_shape(*self, m, Piece::King);
                assert(m.from == from);
                if true {
                    self.sboard().lemma_color_iff_piece(m.to);
                }
            }
        }
    }
}

/// The hints of the pawn moves that capture nothing: a single or double push
/// and the promotions without a capture.
pub open spec fn pawn_quiet_hint(h: ChessMoveHint) -> bool {
    h == ChessMoveHint::Quiet || h == ChessMoveHint::DoublePawn || (h.spec_is_promotion() && !h.spec_is_capture())
}

/// A pseudo-legal double push or promotion is made by a pawn of the side to
/// move.
proof fn lemma_pawn_only_hint(p: Position, m: ChessMove)
    requires
        spec_pseudo_legal(p, m),
        m.hint == ChessMoveHint::DoublePawn || m.hint.spec_is_promotion(),
    ensures
        p.sboard().spec_piece_at(m.from) == Some(Piece::Pawn),
{
    reveal(spec_pseudo_legal);
}

/// The bits of single pawn pushes.
pub proof fn lemma_pawn_push_bits(pawns: u64, e: u64, color: Color)
    ensures
        forall|j: int| 0 <= j < 64 ==> (#[trigger] bit(pawn_push_spec(pawns, e, color), j) <==> (if color == Color::White {
            j >= 8 && bit(pawns, j - 8)
        } else {
            j < 48 && bit(pawns, j + 8)
        }) && bit(e, j)),
{
    assert forall|j: int| 0 <= j < 64 implies (#[trigger] bit(pawn_push_spec(pawns, e, color), j) <==> (if color == Color::White {
        j >= 8 && bit(pawns, j - 8)
    } else {
        j < 48 && bit(pawns, j + 8)
    }) && bit(e, j)) by {
        let jj = j as u64;
        if color == Color::White {
            if jj >= 8 {
                let k = (jj - 8) as u64;
                assert(jj < 64 && k == jj - 8 ==> (((((pawns << 8u64) >> 0u64) & e) >> jj) & 1u64 == 1u64 <==> ((pawns >> k) & 1u64 == 1u64 && (e >> jj) & 1u64 == 1u64))) by (bit_vector);
            } else {
                assert(jj < 8 ==> !(((((pawns << 8u64) >> 0u64) & e) >> jj) & 1u64 == 1u64)) by (bit_vector);
            }
        } else {
            if jj < 48 {
                let k = (jj + 8) as u64;
                assert(jj < 48 && k == jj + 8 ==> (((((pawns << 8u64) >> 16u64) & e) >> jj) & 1u64 == 1u64 <==> ((pawns >> k) & 1u64 == 1u64 && (e >> jj) & 1u64 == 1u64))) by (bit_vector);
            } else {
                assert(jj >= 48 && jj < 64 ==> !(((((pawns << 8u64) >> 16u64) & e) >> jj) & 1u64 == 1u64)) by (bit_vector);
            }
        }
    }
}

/// The one-step push of a single pawn, as a word.
proof fn lemma_single_pawn_push(f: int, e: u64, color: Color)
    requires
        0 <= f < 64,
        color == Color::White ==> f < 56 && bit(e, f + 8),
        color == Color::Black ==> 8 <= f < 56 && bit(e, f - 8),
    ensures
        pawn_push_spec(1u64 << (f as u64), e, color) == 1u64 << ((if color == Color::White { f + 8 } else { f - 8 }) as u64),
{
    let t = if color == Color::White { f + 8 } else { f - 8 };
    let x = pawn_push_spec(1u64 << (f as u64), e, color);
    let y = 1u64 << (t as u64);
    lemma_pawn_push_bits(1u64 << (f as u64), e, color);
    crate::bitboard::lemma_bit_single(f);
    crate::bitboard::lemma_bit_single(t);
    assert forall|j: int| 0 <= j < 64 implies #[trigger] bit(x, j) == bit(y, j) by {
        assert(bit(x, j) <==> (if color == Color::White { j >= 8 && bit(1u64 << (f as u64), j - 8) } else { j < 48 && bit(1u64 << (f as u64), j + 8) }) && bit(e, j));
        assert(bit(y, j) <==> j == t);
        if color == Color::White {
            if j >= 8 {
                assert(bit(1u64 << (f as u64), j - 8) <==> j - 8 == f);
            }
            if j == t {
                assert(bit(e, f + 8));
                assert(bit(x, j));
            } else {
                assert(!bit(x, j));
            }
        } else {
            if j < 48 {
                assert(bit(1u64 << (f as u64), j + 8) <==> j + 8 == f);
            }
            if j == t {
                assert(bit(e, f - 8));
                assert(bit(x, j));
            } else {
                assert(!bit(x, j));
            }
        }
    }
    crate::bitboard::lemma_bits_equal(x, y);
}

/// The pawn behind a single push of the own pawns.
proof fn lemma_pawn_single_facts(b: Board, t: Color, to: Square, from: Square)
    requires
        b.wf(),
        bit(pawn_push_spec(b.color_piece_bb(t, Piece::Pawn), !b.occupied_bb(), t), to.idx()),
        from.idx() == (if t == Color::White { to.idx() - 8 } else { to.idx() + 8 }),
    ensures
        b.spec_color_at(from) == Some(t),
        b.spec_piece_at(from) == Some(Piece::Pawn),
        b.spec_color_at(to) is None,
        b.spec_piece_at(to) is None,
        bit(pawn_push_spec(1u64 << (from.idx() as u64), !b.occupied_bb(), t), to.idx()),
        pawn_push_spec(1u64 << (from.idx() as u64), u64::MAX, t) == 1u64 << (to.idx() as u64),
{
    let occ = b.occupied_bb();
    let pawns = b.color_piece_bb(t, Piece::Pawn);
    let fi = from.idx();
    to.lemma_repr_roundtrip();
    from.lemma_repr_roundtrip();
    assert(bit(pawns, fi) && !bit(occ, to.idx()) && bit(!occ, to.idx()) && (t == Color::White ==> to.idx() >= 8)
        && (t == Color::Black ==> to.idx() < 48)) by {
        lemma_pawn_push_bits(pawns, !occ, t);
        lemma_bit_ops(occ, occ);
    }
    lemma_own_piece(b, t, Piece::Pawn, from);
    lemma_square_bits(b, to);
    assert(bit(pawn_push_spec(1u64 << (fi as u64), !occ, t), to.idx())) by {
        lemma_pawn_push_bits(1u64 << (fi as u64), !occ, t);
        crate::bitboard::lemma_bit_single(fi);
        if t == Color::White {
            assert(bit(1u64 << (fi as u64), to.idx() - 8));
        } else {
            assert(bit(1u64 << (fi as u64), to.idx() + 8));
        }
    }
    assert(pawn_push_spec(1u64 << (fi as u64), u64::MAX, t) == 1u64 << (to.idx() as u64)) by {
        crate::bitboard::lemma_bits_of_constants(to.idx() as u64);
        lemma_single_pawn_push(fi, u64::MAX, t);
    }
}

/// A pawn push found in the single pushes of the own pawns is pseudo-legal:
/// as a quiet move, or as a promotion when it reaches the last rank.
proof fn lemma_pawn_single_ok(p: Position, to: Square, from: Square, hint: ChessMoveHint)
    requires
        p.wf(),
        bit(pawn_push_spec(p.sboard().color_piece_bb(p.sturn(), Piece::Pawn), !p.sboard().occupied_bb(), p.sturn()), to.idx()),
        from.idx() == (if p.sturn() == Color::White { to.idx() - 8 } else { to.idx() + 8 }),
        hint == ChessMoveHint::Quiet || (hint.spec_is_promotion() && !hint.spec_is_capture()
            && to.idx() / 8 == crate::movegen::rank_for(p.sturn(), 7)),
    ensures
        spec_pseudo_legal(p, ChessMove { to, from, hint }),
{
    lemma_pawn_single_facts(p.sboard(), p.sturn(), to, from);
    reveal(spec_pseudo_legal);
}

/// The pawn behind a double push of the own pawns.
proof fn lemma_pawn_double_facts(b: Board, t: Color, to: Square, from: Square)
    requires
        b.wf(),
        bit(
            pawn_push_spec(
                pawn_push_spec(b.color_piece_bb(t, Piece::Pawn), !b.occupied_bb(), t) & (0xffu64 << (8 * (
                if t == Color::White { 2u64 } else { 5u64 }))),
                !b.occupied_bb(),
                t,
            ),
            to.idx(),
        ),
        from.idx() == (if t == Color::White { to.idx() - 16 } else { to.idx() + 16 }),
    ensures
        b.spec_color_at(from) == Some(t),
        b.spec_piece_at(from) == Some(Piece::Pawn),
        b.spec_color_at(to) is None,
        b.spec_piece_at(to) is None,
        from.idx() / 8 == crate::movegen::rank_for(t, 1),
        pawn_push_spec(pawn_push_spec(1u64 << (from.idx() as u64), !b.occupied_bb(), t), !b.occupied_bb(), t)
            == 1u64 << (to.idx() as u64),
{
    let occ = b.occupied_bb();
    let pawns = b.color_piece_bb(t, Piece::Pawn);
    let r: u64 = if t == Color::White { 2 } else { 5 };
    let mask = 0xffu64 << (8 * r);
    let single = pawn_push_spec(pawns, !occ, t);
    to.lemma_repr_roundtrip();
    from.lemma_repr_roundtrip();
    let mi = if t == Color::White { to.idx() - 8 } else { to.idx() + 8 };
    assert(0 <= mi < 64 && bit(single & mask, mi) && !bit(occ, to.idx()) && bit(!occ, to.idx())) by {
        lemma_pawn_push_bits(single & mask, !occ, t);
        lemma_bit_ops(occ, occ);
    }
    assert(bit(single, mi) && mi / 8 == r) by {
        lemma_bit_ops(single, mask);
        crate::bitboard::lemma_rank_bits(r, mi as u64);
    }
    Square::lemma_from_repr_in_range(mi);
    let mid = Square::spec_from_repr(mi).unwrap();
    mid.lemma_repr_roundtrip();
    lemma_pawn_single_facts(b, t, mid, from);
    lemma_square_bits(b, to);
    assert(bit(!occ, mi)) by {
        lemma_square_bits(b, mid);
        lemma_bit_ops(occ, occ);
    }
    lemma_single_pawn_push(from.idx(), !occ, t);
    lemma_single_pawn_push(mi, !occ, t);
}

/// A pseudo-legal quiet pawn push, or quiet promotion, starts one rank behind
/// its target, which is a single push of the own pawns.
proof fn lemma_pawn_single_back(p: Position, m: ChessMove)
    requires
        p.wf(),
        spec_pseudo_legal(p, m),
        p.sboard().spec_piece_at(m.from) == Some(Piece::Pawn),
        m.hint == ChessMoveHint::Quiet || (m.hint.spec_is_promotion() && !m.hint.spec_is_capture()),
    ensures
        bit(pawn_push_spec(p.sboard().color_piece_bb(p.sturn(), Piece::Pawn), !p.sboard().occupied_bb(), p.sturn()), m.to.idx()),
        m.from.idx() == (if p.sturn() == Color::White { m.to.idx() - 8 } else { m.to.idx() + 8 }),
{
    reveal(spec_pseudo_legal);
    let b = p.sboard();
    let t = p.sturn();
    let occ = b.occupied_bb();
    let fi = m.from.idx();
    let ti = m.to.idx();
    m.from.lemma_repr_roundtrip();
    m.to.lemma_repr_roundtrip();
    b.lemma_color_iff_piece(m.from);
    b.lemma_color_iff_piece(m.to);
    lemma_piece_on_masks(b, t, Piece::Pawn, m.from);
    lemma_square_bits(b, m.to);
    lemma_bit_ops(occ, occ);
    crate::bitboard::lemma_bit_single(fi);
    crate::bitboard::lemma_bit_single(ti);
    crate::bitboard::lemma_bits_of_constants(ti as u64);
    lemma_pawn_push_bits(1u64 << (fi as u64), !occ, t);
    lemma_pawn_push_bits(1u64 << (fi as u64), u64::MAX, t);
    lemma_pawn_push_bits(b.color_piece_bb(t, Piece::Pawn), !occ, t);
    assert(bit(!occ, ti));
    if m.hint != ChessMoveHint::Quiet {
        assert(bit(pawn_push_spec(1u64 << (fi as u64), u64::MAX, t), ti));
    }
}

/// A pseudo-legal double pawn push starts two ranks behind its target, which
/// is a push of the single pushes of the own pawns that land on the third
/// rank (of the mover).
proof fn lemma_pawn_double_back(p: Position, m: ChessMove)
    requires
        p.wf(),
        spec_pseudo_legal(p, m),
        m.hint == ChessMoveHint::DoublePawn,
    ensures
        bit(
            pawn_push_spec(
                pawn_push_spec(p.sboard().color_piece_bb(p.sturn(), Piece::Pawn), !p.sboard().occupied_bb(), p.sturn())
                    & (0xffu64 << (8 * (if p.sturn() == Color::White { 2u64 } else { 5u64 }))),
                !p.sboard().occupied_bb(),
                p.sturn(),
            ),
            m.to.idx(),
        ),
        m.from.idx() == (if p.sturn() == Color::White { m.to.idx() - 16 } else { m.to.idx() + 16 }),
{
    reveal(spec_pseudo_legal);
    let b = p.sboard();
    let t = p.sturn();
    let occ = b.occupied_bb();
    let e = !occ;
    let fi = m.from.idx();
    let ti = m.to.idx();
    let pawns = b.color_piece_bb(t, Piece::Pawn);
    let x = pawn_push_spec(1u64 << (fi as u64), e, t);
    m.from.lemma_repr_roundtrip();
    m.to.lemma_repr_roundtrip();
    b.lemma_color_iff_piece(m.from);
    lemma_piece_on_masks(b, t, Piece::Pawn, m.from);
    crate::bitboard::lemma_bit_single(fi);
    crate::bitboard::lemma_bit_single(ti);
    lemma_pawn_push_bits(x, e, t);
    lemma_pawn_push_bits(1u64 << (fi as u64), e, t);
    assert(bit(pawn_push_spec(x, e, t), ti));
    let mi = if t == Color::White { ti - 8 } else { ti + 8 };
    assert(bit(x, mi) && bit(e, ti));
    assert(fi == (if t == Color::White { ti - 16 } else { ti + 16 }));
    let single = pawn_push_spec(pawns, e, t);
    let r: u64 = if t == Color::White { 2 } else { 5 };
    let mask = 0xffu64 << (8 * r);
    lemma_pawn_push_bits(pawns, e, t);
    assert(bit(single, mi));
    crate::bitboard::lemma_rank_bits(r, mi as u64);
    assert(bit(mask, mi));
    lemma_bit_ops(single, mask);
    lemma_pawn_push_bits(single & mask, e, t);
}

/// A double pawn push found by the generator is pseudo-legal.
proof fn lemma_pawn_double_ok(p: Position, to: Square, from: Square)
    requires
        p.wf(),
        bit(
            pawn_push_spec(
                pawn_push_spec(p.sboard().color_piece_bb(p.sturn(), Piece::Pawn), !p.sboard().occupied_bb(), p.sturn())
                    & (0xffu64 << (8 * (if p.sturn() == Color::White { 2u64 } else { 5u64 }))),
                !p.sboard().occupied_bb(),
                p.sturn(),
            ),
            to.idx(),
        ),
        from.idx() == (if p.sturn() == Color::White { to.idx() - 16 } else { to.idx() + 16 }),
    ensures
        spec_pseudo_legal(p, ChessMove { to, from, hint: ChessMoveHint::DoublePawn }),
{
    lemma_pawn_double_facts(p.sboard(), p.sturn(), to, from);
    reveal(spec_pseudo_legal);
}

impl Position {
    /// Appends a move to every square of `to` from the square `delta` steps away.
    fn push_for_each_shifted(&self, moves: &mut Vec<ChessMove>, to: BitBoard, delta: i8, hint: ChessMoveHint)
        requires
            forall|s: Square| #[trigger] bit(to.0, s.idx()) ==> 0 <= s.idx() + delta < 64,
            forall|s: Square, f: Square| bit(to.0, s.idx()) && f.idx() == s.idx() + delta
                ==> #[trigger] spec_pseudo_legal(*self, ChessMove { to: s, from: f, hint }),
        ensures
            pushes_ok(*self, old(moves)@, final(moves)@),
            forall|s: Square, f: Square| bit(to.0, s.idx()) && f.idx() == s.idx() + delta ==> #[trigger] final(moves)@.contains(
                ChessMove { to: s, from: f, hint },
            ),
            forall|k: int| old(moves)@.len() <= k < final(moves)@.len() ==> (#[trigger] final(moves)@[k]).hint == hint
                && bit(to.0, final(moves)@[k].to.idx()) && final(moves)@[k].from.idx() == final(moves)@[k].to.idx() + delta,
            distinct_new(old(moves)@, final(moves)@),
    {
        let mut rest = to;
        let ghost start = moves@;
        while !rest.is_empty()
            invariant
                forall|j: int| 0 <= j < 64 && #[trigger] bit(rest.0, j) ==> bit(to.0, j),
                forall|s: Square| #[trigger] bit(to.0, s.idx()) ==> 0 <= s.idx() + delta < 64,
                forall|s: Square, f: Square| bit(to.0, s.idx()) && f.idx() == s.idx() + delta
                    ==> #[trigger] spec_pseudo_legal(*self, ChessMove { to: s, from: f, hint }),
                pushes_ok(*self, start, moves@),
                forall|k: int| start.len() <= k < moves@.len() ==> (#[trigger] moves@[k]).hint == hint
                    && bit(to.0, moves@[k].to.idx()) && moves@[k].from.idx() == moves@[k].to.idx() + delta && !bit(
                    rest.0,
                    moves@[k].to.idx(),
                ),
                distinct_new(start, moves@),
                forall|s: Square, f: Square| bit(to.0, s.idx()) && !bit(rest.0, s.idx()) && f.idx() == s.idx() + delta
                    ==> #[trigger] moves@.contains(ChessMove { to: s, from: f, hint }),
            decreases rest.0,
        {
            proof {
                lemma_lsb(rest.0);
                lemma_reset_lsb_decreases(rest.0);
            }
            let ghost before = rest.0;
            let ghost old_moves = moves@;
            let sq = rest.iterator_next().unwrap();
            proof {
                lemma_squares_sound(before, 0);
                lemma_take_lowest(before);
                sq.lemma_repr_roundtrip();
                assert forall|j: int| 0 <= j < 64 && #[trigger] bit(rest.0, j) implies bit(to.0, j) by {
                    assert(bit(before & ((before - 1) as u64), j) ==> bit(before, j));
                }
                assert(bit(to.0, sq.idx()));
            }
            let from = sq.shifted(delta);
            proof {
                assert(from.idx() == sq.idx() + delta);
            }
            moves.push(ChessMove { to: sq, from, hint });
            proof {
                assert forall|k: int| start.len() <= k < moves@.len() implies (#[trigger] moves@[k]).hint == hint
                    && bit(to.0, moves@[k].to.idx()) && moves@[k].from.idx() == moves@[k].to.idx() + delta && !bit(
                    rest.0,
                    moves@[k].to.idx(),
                ) by {
                    if k < old_moves.len() {
                        assert(moves@[k] == old_moves[k]);
                        assert(!bit(before, old_moves[k].to.idx()));
                        old_moves[k].to.lemma_repr_roundtrip();
                    }
                }
                assert forall|i: int, j: int| start.len() <= i < j < moves@.len() implies #[trigger] moves@[i]
                    != #[trigger] moves@[j] by {
                    assert(moves@[i] == old_moves[i]);
                    if j < old_moves.len() {
                        assert(moves@[j] == old_moves[j]);
                    } else {
                        assert(!bit(before, old_moves[i].to.idx()));
                    }
                }
                lemma_extends_contains(old_moves, moves@);
                assert(moves@[moves@.len() - 1] == ChessMove { to: sq, from, hint });
                assert forall|s: Square, f: Square| bit(to.0, s.idx()) && !bit(rest.0, s.idx()) && f.idx() == s.idx() + delta
                    implies #[trigger] moves@.contains(ChessMove { to: s, from: f, hint }) by {
                    s.lemma_repr_roundtrip();
                    if s.idx() == sq.idx() {
                        Square::lemma_idx_injective(s, sq);
                        Square::lemma_idx_injective(f, from);
                    } else {
                        assert(!bit(before, s.idx()));
                        assert(old_moves.contains(ChessMove { to: s, from: f, hint }));
                    }
                }
            }
        }
        proof {
            assert forall|s: Square, f: Square| bit(to.0, s.idx()) && f.idx() == s.idx() + delta implies #[trigger] moves@.contains(
                ChessMove { to: s, from: f, hint },
            ) by {
                s.lemma_repr_roundtrip();
                crate::bitboard::lemma_bits_of_constants(s.idx() as u64);
            }
        }
    }

    /// Generate pseudo-legal quiet pawn moves from this position: single and
    /// double pushes, then pushes to the last rank as promotions to bishop,
    /// knight, rook and queen.
    pub fn push_pawn_quiets(&self, moves: &mut Vec<ChessMove>)
        requires
            self.wf(),
        ensures
            pushes_ok(*self, old(moves)@, final(moves)@),
            forall|m: ChessMove| #[trigger] spec_pseudo_legal(*self, m) && self.sboard().spec_piece_at(m.from) == Some(
                Piece::Pawn,
            ) && ((m.hint == ChessMoveHint::Quiet && m.to.idx() / 8 != crate::movegen::rank_for(self.sturn(), 7))
                || m.hint == ChessMoveHint::DoublePawn || (m.hint.spec_is_promotion() && !m.hint.spec_is_capture()))
                ==> final(moves)@.contains(m),
            forall|k: int| old(moves)@.len() <= k < final(moves)@.len() ==> self.sboard().spec_piece_at(
                (#[trigger] final(moves)@[k]).from,
            ) == Some(Piece::Pawn) && pawn_quiet_hint(final(moves)@[k].hint),
            distinct_new(old(moves)@, final(moves)@),
    {
        let turn = self.turn();
        let empty = self.board().get_occupance().not();
        let pawns = self.board().get_color_piece(turn, Piece::Pawn);
        let single_pushes = BitBoard::pawn_pushes(pawns, empty, turn);
        let double_rank = match turn {
            Color::White => BitBoard::from_rank(Rank::R3),
            Color::Black => BitBoard::from_rank(Rank::R6),
        };
        let double_pushes = BitBoard::pawn_pushes(single_pushes.bitand(double_rank), empty, turn);
        let promotion_rank = match turn {
            Color::White => BitBoard::from_rank(Rank::R8),
            Color::Black => BitBoard::from_rank(Rank::R1),
        };
        let promotion_pushes = single_pushes.bitand(promotion_rank);
        let quiet_pushes = single_pushes.bitand(promotion_pushes.not());
        let push_offset: i8 = if turn == Color::White { -8 } else { 8 };
        let ghost b = self.sboard();
        let ghost occ = b.occupied_bb();
        proof {
            lemma_pawn_push_bits(pawns.0, empty.0, turn);
            lemma_pawn_push_bits(single_pushes.0 & double_rank.0, empty.0, turn);
            lemma_bit_ops(single_pushes.0, promotion_rank.0);
            lemma_bit_ops(single_pushes.0, !promotion_pushes.0);
            lemma_bit_ops(promotion_pushes.0, 0);
            assert forall|s: Square, f: Square| bit(quiet_pushes.0, s.idx()) && f.idx() == s.idx() + push_offset
                implies #[trigger] spec_pseudo_legal(*self, ChessMove { to: s, from: f, hint: ChessMoveHint::Quiet }) by {
                s.lemma_repr_roundtrip();
                lemma_pawn_single_ok(*self, s, f, ChessMoveHint::Quiet);
            }
            assert forall|s: Square| #[trigger] bit(quiet_pushes.0, s.idx()) implies 0 <= s.idx() + push_offset < 64 by {
                s.lemma_repr_roundtrip();
            }
        }
        let ghost start = old(moves)@;
        self.push_for_each_shifted(moves, quiet_pushes, push_offset, ChessMoveHint::Quiet);
        let ghost m1 = moves@;
        proof {
            assert forall|s: Square| #[trigger] bit(double_pushes.0, s.idx()) implies 0 <= s.idx() + push_offset * 2 < 64 by {
                s.lemma_repr_roundtrip();
                lemma_bit_ops(single_pushes.0, double_rank.0);
                let mi = if turn == Color::White { s.idx() - 8 } else { s.idx() + 8 };
                assert(bit(single_pushes.0 & double_rank.0, mi));
            }
            assert forall|s: Square, f: Square| bit(double_pushes.0, s.idx()) && f.idx() == s.idx() + push_offset * 2
                implies #[trigger] spec_pseudo_legal(*self, ChessMove { to: s, from: f, hint: ChessMoveHint::DoublePawn }) by {
                s.lemma_repr_roundtrip();
                lemma_pawn_double_ok(*self, s, f);
            }
        }
        self.push_for_each_shifted(moves, double_pushes, push_offset * 2, ChessMoveHint::DoublePawn);
        let ghost m2 = moves@;
        proof {
            let ri: u64 = if turn == Color::White { 7 } else { 0 };
            assert forall|j: int| 0 <= j < 64 && #[trigger] bit(promotion_pushes.0, j) implies bit(single_pushes.0, j)
                && j / 8 == crate::movegen::rank_for(turn, 7) by {
                crate::bitboard::lemma_rank_bits(ri, j as u64);
            }
        }
        self.push_promotions(moves, promotion_pushes, push_offset, ChessMoveHint::BishopPromotion);
        let ghost m3 = moves@;
        self.push_promotions(moves, promotion_pushes, push_offset, ChessMoveHint::KnightPromotion);
        let ghost m4 = moves@;
        self.push_promotions(moves, promotion_pushes, push_offset, ChessMoveHint::RookPromotion);
        let ghost m5 = moves@;
        self.push_promotions(moves, promotion_pushes, push_offset, ChessMoveHint::QueenPromotion);
        proof {
            assert forall|i: int, j: int| start.len() <= i < j < moves@.len() implies #[trigger] moves@[i]
                != #[trigger] moves@[j] by {
                if i < m1.len() { assert(moves@[i] == m1[i]); } else if i < m2.len() { assert(moves@[i] == m2[i]); } else if i < m3.len() { assert(moves@[i] == m3[i]); } else if i < m4.len() { assert(moves@[i] == m4[i]); } else if i < m5.len() { assert(moves@[i] == m5[i]); }
                if j < m1.len() { assert(moves@[j] == m1[j]); } else if j < m2.len() { assert(moves@[j] == m2[j]); } else if j < m3.len() { assert(moves@[j] == m3[j]); } else if j < m4.len() { assert(moves@[j] == m4[j]); } else if j < m5.len() { assert(moves@[j] == m5[j]); }
            }
            assert forall|k: int| start.len() <= k < moves@.len() implies self.sboard().spec_piece_at(
                (#[trigger] moves@[k]).from,
            ) == Some(Piece::Pawn) && pawn_quiet_hint(moves@[k].hint) by {
                let m = moves@[k];
                assert(spec_pseudo_legal(*self, m));
                if k < m1.len() {
                    assert(m1[k] == m);
                    assert(bit(quiet_pushes.0, m.to.idx()));
                    m.to.lemma_repr_roundtrip();
                    m.from.lemma_repr_roundtrip();
                    assert(bit(pawns.0, m.from.idx()));
                    lemma_own_piece(self.sboard(), turn, Piece::Pawn, m.from);
                } else {
                    if k < m2.len() {
                        assert(m2[k] == m);
                    } else if k < m3.len() {
                        assert(m3[k] == m);
                    } else if k < m4.len() {
                        assert(m4[k] == m);
                    } else if k < m5.len() {
                        assert(m5[k] == m);
                    }
                    lemma_pawn_only_hint(*self, m);
                }
            }
            lemma_extends_contains(m1, m2);
            lemma_extends_contains(m2, m3);
            lemma_extends_contains(m3, m4);
            lemma_extends_contains(m4, m5);
            lemma_extends_contains(m5, moves@);
            let ri: u64 = if turn == Color::White { 7 } else { 0 };
            assert forall|m: ChessMove| #[trigger] spec_pseudo_legal(*self, m) && self.sboard().spec_piece_at(m.from) == Some(
                Piece::Pawn,
            ) && ((m.hint == ChessMoveHint::Quiet && m.to.idx() / 8 != crate::movegen::rank_for(self.sturn(), 7))
                || m.hint == ChessMoveHint::DoublePawn || (m.hint.spec_is_promotion() && !m.hint.spec_is_capture()))
                implies moves@.contains(m) by {
                let ti = m.to.idx();
                m.to.lemma_repr_roundtrip();
                crate::bitboard::lemma_rank_bits(ri, ti as u64);
                if m.hint == ChessMoveHint::DoublePawn {
                    lemma_pawn_double_back(*self, m);
                    assert(m2.contains(ChessMove { to: m.to, from: m.from, hint: m.hint }));
                } else {
                    lemma_pawn_single_back(*self, m);
                    if m.hint == ChessMoveHint::Quiet {
                        assert(bit(quiet_pushes.0, ti));
                        assert(m1.contains(ChessMove { to: m.to, from: m.from, hint: m.hint }));
                    } else {
                        reveal(spec_pseudo_legal);
                        assert(bit(promotion_pushes.0, ti));
                        assert(m.hint == ChessMoveHint::BishopPromotion || m.hint == ChessMoveHint::KnightPromotion
                            || m.hint == ChessMoveHint::RookPromotion || m.hint == ChessMoveHint::QueenPromotion);
                    }
                }
            }
        }
    }

    /// Appends the quiet promotions of one kind onto the squares of `pushes`.
    fn push_promotions(&self, moves: &mut Vec<ChessMove>, pushes: BitBoard, push_offset: i8, hint: ChessMoveHint)
        requires
            self.wf(),
            hint.spec_is_promotion() && !hint.spec_is_capture(),
            push_offset == (if self.sturn() == Color::White { -8int } else { 8int }),
            forall|j: int| 0 <= j < 64 && #[trigger] bit(pushes.0, j) ==> bit(
                pawn_push_spec(self.sboard().color_piece_bb(self.sturn(), Piece::Pawn), !self.sboard().occupied_bb(), self.sturn()),
                j,
            ) && j / 8 == crate::movegen::rank_for(self.sturn(), 7),
        ensures
            pushes_ok(*self, old(moves)@, final(moves)@),
            forall|s: Square, f: Square| bit(pushes.0, s.idx()) && f.idx() == s.idx() + push_offset ==> #[trigger] final(moves)@.contains(
                ChessMove { to: s, from: f, hint },
            ),
            forall|k: int| old(moves)@.len() <= k < final(moves)@.len() ==> (#[trigger] final(moves)@[k]).hint == hint
                && bit(pushes.0, final(moves)@[k].to.idx()) && final(moves)@[k].from.idx() == final(moves)@[k].to.idx()
                + push_offset,
            distinct_new(old(moves)@, final(moves)@),
    {
        proof {
            lemma_pawn_push_bits(self.sboard().color_piece_bb(self.sturn(), Piece::Pawn), !self.sboard().occupied_bb(), self.sturn());
            assert forall|s: Square| #[trigger] bit(pushes.0, s.idx()) implies 0 <= s.idx() + push_offset < 64 by {
                s.lemma_repr_roundtrip();
            }
            assert forall|s: Square, f: Square| bit(pushes.0, s.idx()) && f.idx() == s.idx() + push_offset
                implies #[trigger] spec_pseudo_legal(*self, ChessMove { to: s, from: f, hint }) by {
                s.lemma_repr_roundtrip();
                lemma_pawn_single_ok(*self, s, f, hint);
            }
        }
        self.push_for_each_shifted(moves, pushes, push_offset, hint);
    }
}

/// A pawn capture onto an enemy piece is pseudo-legal: a plain capture, or a
/// promotion with capture when it reaches the last rank.
proof fn lemma_pawn_capture_ok(p: Position, from: Square, to: Square, hint: ChessMoveHint)
    requires
        p.wf(),
        p.sboard().spec_color_at(from) == Some(p.sturn()),
        p.sboard().spec_piece_at(from) == Some(Piece::Pawn),
        bit(pawn_attack_spec(from, p.sturn()), to.idx()),
        p.sboard().spec_color_at(to) == Some(p.sturn().opp()),
        hint == ChessMoveHint::Caputre || (hint.spec_is_promotion() && hint.spec_is_capture()
            && to.idx() / 8 == crate::movegen::rank_for(p.sturn(), 7)),
    ensures
        spec_pseudo_legal(p, ChessMove { to, from, hint }),
{
    p.sboard().lemma_color_iff_piece(to);
    reveal(spec_pseudo_legal);
}

/// An en passant capture onto the square behind the enemy pawn, by an own pawn
/// next to it, is pseudo-legal when the en passant file fits the board.
proof fn lemma_en_passant_ok(p: Position, from: Square, to: Square, file: File)
    requires
        p.wf(),
        p.rights_fit(),
        p.sen_passant() == Some(file),
        to.idx() == crate::movegen::rank_for(p.sturn(), 5) * 8 + file.idx(),
        p.sboard().spec_color_at(from) == Some(p.sturn()),
        p.sboard().spec_piece_at(from) == Some(Piece::Pawn),
        bit(pawn_attack_spec(to, p.sturn().opp()), from.idx()),
    ensures
        spec_pseudo_legal(p, ChessMove { to, from, hint: ChessMoveHint::EnPassantCapture }),
{
    let t = p.sturn();
    let b = p.sboard();
    from.lemma_repr_roundtrip();
    to.lemma_repr_roundtrip();
    file.lemma_repr_roundtrip();
    lemma_pawn_attack_bits(to, t.opp(), from.idx());
    lemma_pawn_attack_bits(from, t, to.idx());
    assert(bit(pawn_attack_spec(from, t), to.idx()));
    let v = if t == Color::White { 4int } else { 3int };
    let tg = if t == Color::White { 5int } else { 2int };
    Square::lemma_from_repr_in_range(v * 8 + file.idx());
    Square::lemma_from_repr_in_range(tg * 8 + file.idx());
    let victim = Square::spec_from_repr(v * 8 + file.idx()).unwrap();
    let target = Square::spec_from_repr(tg * 8 + file.idx()).unwrap();
    Square::lemma_idx_injective(target, to);
    Rank::lemma_from_repr_in_range(from.idx() / 8);
    File::lemma_from_repr_in_range(to.idx() % 8);
    let ep_sq = Square::spec_new(from.spec_rank(), to.spec_file());
    Square::lemma_from_repr_in_range(from.spec_rank().idx() * 8 + to.spec_file().idx());
    Square::lemma_idx_injective(ep_sq, victim);
    reveal(spec_pseudo_legal);
}

/// The hints of the pawn captures made from a square: plain captures, or the
/// four promotions with capture for a pawn about to promote.
pub open spec fn pawn_capture_hint(promote: bool, hint: ChessMoveHint) -> bool {
    if promote {
        hint == ChessMoveHint::BishopPromotionCapture || hint == ChessMoveHint::KnightPromotionCapture || hint
            == ChessMoveHint::RookPromotionCapture || hint == ChessMoveHint::QueenPromotionCapture
    } else {
        hint == ChessMoveHint::Caputre
    }
}

/// The pawn captures with the hint from `from` onto enemy pieces other than the
/// king are all in `moves`.
pub open spec fn covers_pawn(p: Position, moves: Seq<ChessMove>, from: Square, hint: ChessMoveHint) -> bool {
    forall|s: Square| #[trigger] bit(pawn_attack_spec(from, p.sturn()), s.idx()) && target_ok(p, s, false)
        ==> moves.contains(ChessMove { to: s, from, hint })
}

impl Position {
    /// Appends the pawn captures of the pawns on `sources`: plain captures, or
    /// promotions with capture to bishop, knight, rook and queen for pawns about
    /// to promote.
    fn push_pawn_captures(&self, moves: &mut Vec<ChessMove>, sources: BitBoard, promote: bool)
        requires
            self.wf(),
            forall|s: Square| #[trigger] bit(sources.0, s.idx()) ==> self.sboard().spec_color_at(s) == Some(self.sturn())
                && self.sboard().spec_piece_at(s) == Some(Piece::Pawn)
                && (promote ==> s.idx() / 8 == crate::movegen::rank_for(self.sturn(), 6))
                && (!promote ==> s.idx() / 8 != crate::movegen::rank_for(self.sturn(), 6)),
        ensures
            pushes_ok(*self, old(moves)@, final(moves)@),
            forall|f: Square, h: ChessMoveHint| bit(sources.0, f.idx()) && pawn_capture_hint(promote, h) ==> #[trigger] covers_pawn(
                *self,
                final(moves)@,
                f,
                h,
            ),
            forall|k: int| old(moves)@.len() <= k < final(moves)@.len() ==> bit(
                sources.0,
                (#[trigger] final(moves)@[k]).from.idx(),
            ) && pawn_capture_hint(promote, final(moves)@[k].hint) && self.sboard().spec_piece_at(final(moves)@[k].to)
                != Some(Piece::King) && (!promote ==> final(moves)@[k].to.idx() / 8 != crate::movegen::rank_for(
                self.sturn(),
                7,
            )),
            distinct_new(old(moves)@, final(moves)@),
    {
        let turn = self.turn();
        let opp = self.board().get_color(turn.not());
        let mut rest = sources;
        let ghost start = moves@;
        while !rest.is_empty()
            invariant
                self.wf(),
                turn == self.sturn(),
                opp.0 == self.sboard().color_bb(turn.opp()),
                forall|j: int| 0 <= j < 64 && #[trigger] bit(rest.0, j) ==> bit(sources.0, j),
                forall|s: Square| #[trigger] bit(sources.0, s.idx()) ==> self.sboard().spec_color_at(s) == Some(self.sturn())
                    && self.sboard().spec_piece_at(s) == Some(Piece::Pawn)
                    && (promote ==> s.idx() / 8 == crate::movegen::rank_for(self.sturn(), 6))
                    && (!promote ==> s.idx() / 8 != crate::movegen::rank_for(self.sturn(), 6)),
                pushes_ok(*self, start, moves@),
                forall|k: int| start.len() <= k < moves@.len() ==> bit(sources.0, (#[trigger] moves@[k]).from.idx())
                    && pawn_capture_hint(promote, moves@[k].hint) && !bit(rest.0, moves@[k].from.idx())
                    && self.sboard().spec_piece_at(moves@[k].to) != Some(Piece::King) && (!promote
                    ==> moves@[k].to.idx() / 8 != crate::movegen::rank_for(self.sturn(), 7)),
                distinct_new(start, moves@),
                forall|f: Square, h: ChessMoveHint| bit(sources.0, f.idx()) && !bit(rest.0, f.idx()) && pawn_capture_hint(promote, h)
                    ==> #[trigger] covers_pawn(*self, moves@, f, h),
            decreases rest.0,
        {
            proof {
                lemma_lsb(rest.0);
                lemma_reset_lsb_decreases(rest.0);
            }
            let ghost before = rest.0;
            let ghost old_moves = moves@;
            let from = rest.iterator_next().unwrap();
            proof {
                lemma_take_lowest(before);
                lemma_squares_sound(before, 0);
                from.lemma_repr_roundtrip();
                assert forall|j: int| 0 <= j < 64 && #[trigger] bit(rest.0, j) implies bit(sources.0, j) by {
                    assert(bit(before & ((before - 1) as u64), j) ==> bit(before, j));
                }
                assert(bit(sources.0, from.idx()));
            }
            let attacks = BitBoard::pawn_attacks(from, turn).bitand(opp);
            proof {
                assert forall|s: Square, hint: ChessMoveHint| bit(attacks.0, s.idx())
                    && self.sboard().spec_color_at(s) == Some(self.sturn().opp())
                    && (hint == ChessMoveHint::Caputre || (promote && hint.spec_is_promotion() && hint.spec_is_capture()))
                    implies #[trigger] spec_pseudo_legal(*self, ChessMove { to: s, from, hint }) by {
                    s.lemma_repr_roundtrip();
                    lemma_bit_ops(pawn_attack_spec(from, turn), opp.0);
                    lemma_pawn_attack_bits(from, turn, s.idx());
                    lemma_pawn_capture_ok(*self, from, s, hint);
                }
            }
            proof {
                assert forall|sq: Square| #[trigger] bit(pawn_attack_spec(from, turn), sq.idx()) && target_ok(*self, sq, false)
                    implies bit(attacks.0, sq.idx()) by {
                    sq.lemma_repr_roundtrip();
                    lemma_bit_ops(pawn_attack_spec(from, turn), opp.0);
                    lemma_square_bits(self.sboard(), sq);
                }
            }
            if promote {
                self.push_attacks(moves, attacks, from, ChessMoveHint::BishopPromotionCapture);
                let ghost a1 = moves@;
                proof {
                    assert(adds_from(old_moves, a1, from, ChessMoveHint::BishopPromotionCapture));
                }
                self.push_attacks(moves, attacks, from, ChessMoveHint::KnightPromotionCapture);
                let ghost a2 = moves@;
                self.push_attacks(moves, attacks, from, ChessMoveHint::RookPromotionCapture);
                let ghost a3 = moves@;
                self.push_attacks(moves, attacks, from, ChessMoveHint::QueenPromotionCapture);
                proof {
                    assert forall|i: int, j: int| old_moves.len() <= i < j < moves@.len() implies #[trigger] moves@[i]
                        != #[trigger] moves@[j] by {
                        if i < a1.len() { assert(moves@[i] == a1[i]); } else if i < a2.len() { assert(moves@[i] == a2[i]); } else if i < a3.len() { assert(moves@[i] == a3[i]); }
                        if j < a1.len() { assert(moves@[j] == a1[j]); } else if j < a2.len() { assert(moves@[j] == a2[j]); } else if j < a3.len() { assert(moves@[j] == a3[j]); }
                    }
                    assert forall|k: int| old_moves.len() <= k < moves@.len() implies (#[trigger] moves@[k]).from == from
                        && pawn_capture_hint(promote, moves@[k].hint) by {
                        if k < a1.len() {
                            assert(moves@[k] == a1[k]);
                        } else if k < a2.len() {
                            assert(moves@[k] == a2[k]);
                        } else if k < a3.len() {
                            assert(moves@[k] == a3[k]);
                        }
                    }
                    lemma_extends_contains(a1, a2);
                    lemma_extends_contains(a2, a3);
                    lemma_extends_contains(a3, moves@);
                    assert(covers_pawn(*self, moves@, from, ChessMoveHint::BishopPromotionCapture));
                    assert(covers_pawn(*self, moves@, from, ChessMoveHint::KnightPromotionCapture));
                    assert(covers_pawn(*self, moves@, from, ChessMoveHint::RookPromotionCapture));
                    assert(covers_pawn(*self, moves@, from, ChessMoveHint::QueenPromotionCapture));
                }
            } else {
                self.push_attacks(moves, attacks, from, ChessMoveHint::Caputre);
                proof {
                    assert(covers_pawn(*self, moves@, from, ChessMoveHint::Caputre));
                }
            }
            proof {
                assert(distinct_new(old_moves, moves@));
                assert forall|k: int| old_moves.len() <= k < moves@.len() implies (#[trigger] moves@[k]).from == from by {}
                assert forall|k: int| start.len() <= k < moves@.len() implies bit(sources.0, (#[trigger] moves@[k]).from.idx())
                    && pawn_capture_hint(promote, moves@[k].hint) && !bit(rest.0, moves@[k].from.idx())
                    && self.sboard().spec_piece_at(moves@[k].to) != Some(Piece::King) && (!promote
                    ==> moves@[k].to.idx() / 8 != crate::movegen::rank_for(self.sturn(), 7)) by {
                    if k >= old_moves.len() {
                        let t = moves@[k].to;
                        t.lemma_repr_roundtrip();
                        lemma_bit_ops(pawn_attack_spec(from, turn), opp.0);
                        lemma_pawn_attack_bits(from, turn, t.idx());
                    }
                    if k < old_moves.len() {
                        assert(moves@[k] == old_moves[k]);
                        assert(!bit(before, old_moves[k].from.idx()));
                        old_moves[k].from.lemma_repr_roundtrip();
                    }
                }
                assert forall|i: int, j: int| start.len() <= i < j < moves@.len() implies #[trigger] moves@[i]
                    != #[trigger] moves@[j] by {
                    if i < old_moves.len() {
                        assert(moves@[i] == old_moves[i]);
                        if j < old_moves.len() {
                            assert(moves@[j] == old_moves[j]);
                        } else {
                            assert(!bit(before, old_moves[i].from.idx()));
                        }
                    }
                }
                lemma_extends_contains(old_moves, moves@);
                assert forall|f: Square, h: ChessMoveHint| bit(sources.0, f.idx()) && !bit(rest.0, f.idx()) && pawn_capture_hint(promote, h)
                    implies #[trigger] covers_pawn(*self, moves@, f, h) by {
                    f.lemma_repr_roundtrip();
                    if f.idx() == from.idx() {
                        Square::lemma_idx_injective(f, from);
                    } else {
                        assert(!bit(before, f.idx()));
                        assert(covers_pawn(*self, old_moves, f, h));
                    }
                }
            }
        }
        proof {
            assert forall|f: Square, h: ChessMoveHint| bit(sources.0, f.idx()) && pawn_capture_hint(promote, h)
                implies #[trigger] covers_pawn(*self, moves@, f, h) by {
                f.lemma_repr_roundtrip();
                crate::bitboard::lemma_bits_of_constants(f.idx() as u64);
            }
        }
    }
}

/// A pawn attack goes one rank forward, and the target attacks the origin
/// backwards.
proof fn lemma_pawn_attack_back(from: Square, to: Square, t: Color)
    requires
        bit(pawn_attack_spec(from, t), to.idx()),
    ensures
        to.idx() / 8 == from.idx() / 8 + (if t == Color::White { 1int } else { -1int }),
        bit(pawn_attack_spec(to, t.opp()), from.idx()),
{
    from.lemma_repr_roundtrip();
    to.lemma_repr_roundtrip();
    lemma_pawn_attack_bits(from, t, to.idx());
    lemma_pawn_attack_bits(to, t.opp(), from.idx());
}

/// What a pseudo-legal pawn capture says of its squares.
proof fn lemma_pawn_capture_back(p: Position, m: ChessMove)
    requires
        p.wf(),
        spec_pseudo_legal(p, m),
        p.sboard().spec_piece_at(m.from) == Some(Piece::Pawn),
        m.hint == ChessMoveHint::Caputre || (m.hint.spec_is_promotion() && m.hint.spec_is_capture()),
        p.sboard().spec_piece_at(m.to) != Some(Piece::King),
    ensures
        p.sboard().spec_color_at(m.from) == Some(p.sturn()),
        bit(pawn_attack_spec(m.from, p.sturn()), m.to.idx()),
        target_ok(p, m.to, false),
        m.hint != ChessMoveHint::Caputre ==> m.to.idx() / 8 == crate::movegen::rank_for(p.sturn(), 7),
{
    reveal(spec_pseudo_legal);
    let b = p.sboard();
    b.lemma_color_iff_piece(m.to);
    b.lemma_color_iff_piece(m.from);
    let c = b.spec_color_at(m.to);
    if c is Some {
        assert(c == Some(p.sturn()) || c == Some(p.sturn().opp())) by {
            match c.unwrap() {
                Color::White => {},
                Color::Black => {},
            }
        }
    }
}

/// A castling right that fits the board has its king and rook on their
/// initial squares.
pub proof fn lemma_castling_squares(b: Board, castling: CastlingRights, color: Color)
    requires
        b.wf(),
        spec_castling_allowed(b, castling),
    ensures
        ({
            let k: u8 = if color == Color::White { 1 } else { 4 };
            castling.0 & k == k ==> b.spec_color_at(color.spec_mirror_square(Square::E1)) == Some(color)
                && b.spec_piece_at(color.spec_mirror_square(Square::E1)) == Some(Piece::King)
                && b.spec_color_at(color.spec_mirror_square(Square::H1)) == Some(color)
                && b.spec_piece_at(color.spec_mirror_square(Square::H1)) == Some(Piece::Rook)
        }),
        ({
            let k: u8 = if color == Color::White { 2 } else { 8 };
            castling.0 & k == k ==> b.spec_color_at(color.spec_mirror_square(Square::E1)) == Some(color)
                && b.spec_piece_at(color.spec_mirror_square(Square::E1)) == Some(Piece::King)
                && b.spec_color_at(color.spec_mirror_square(Square::A1)) == Some(color)
                && b.spec_piece_at(color.spec_mirror_square(Square::A1)) == Some(Piece::Rook)
        }),
{
    let wk = b.color_piece_bb(Color::White, Piece::King);
    let wr = b.color_piece_bb(Color::White, Piece::Rook);
    let bk = b.color_piece_bb(Color::Black, Piece::King);
    let br = b.color_piece_bb(Color::Black, Piece::Rook);
    let w: u8 = if !bit(wk, 4) { 0 } else { ((if bit(wr, 7) { 1int } else { 0 }) + (if bit(wr, 0) { 2int } else { 0 })) as u8 };
    let bb: u8 = if !bit(bk, 60) { 0 } else { ((if bit(br, 63) { 4int } else { 0 }) + (if bit(br, 56) { 8int } else { 0 })) as u8 };
    let m = spec_castling_max(b);
    assert(m == (w + bb) as u8);
    let c = castling.0;
    assert(w < 4 && (bb == 0 || bb == 4 || bb == 8 || bb == 12) && ((w + bb) as u8) & c == c ==> (c & 1 == 1 ==> w & 1 == 1)
        && (c & 2 == 2 ==> w & 2 == 2) && (c & 4 == 4 ==> bb & 4 == 4) && (c & 8 == 8 ==> bb & 8 == 8)) by (bit_vector);
    assert(0u8 & 1 == 0 && 1u8 & 1 == 1 && 2u8 & 1 == 0 && 3u8 & 1 == 1 && 0u8 & 2 == 0 && 1u8 & 2 == 0
        && 2u8 & 2 == 2 && 3u8 & 2 == 2 && 0u8 & 4 == 0 && 4u8 & 4 == 4 && 8u8 & 4 == 0 && 12u8 & 4 == 4
        && 0u8 & 8 == 0 && 4u8 & 8 == 0 && 8u8 & 8 == 8 && 12u8 & 8 == 8) by (bit_vector);
    Square::lemma_from_repr_in_range(60);
    Square::lemma_from_repr_in_range(63);
    Square::lemma_from_repr_in_range(56);
    let e1 = color.spec_mirror_square(Square::E1);
    let h1 = color.spec_mirror_square(Square::H1);
    let a1 = color.spec_mirror_square(Square::A1);
    e1.lemma_repr_roundtrip();
    h1.lemma_repr_roundtrip();
    a1.lemma_repr_roundtrip();
    if bit(b.color_piece_bb(color, Piece::King), e1.idx()) {
        lemma_own_piece(b, color, Piece::King, e1);
    }
    if bit(b.color_piece_bb(color, Piece::Rook), h1.idx()) {
        lemma_own_piece(b, color, Piece::Rook, h1);
    }
    if bit(b.color_piece_bb(color, Piece::Rook), a1.idx()) {
        lemma_own_piece(b, color, Piece::Rook, a1);
    }
}

/// The castling move of the color to the king side or to the queen side.
pub open spec fn castling_move(color: Color, kingside: bool) -> ChessMove {
    ChessMove {
        from: color.spec_mirror_square(Square::E1),
        to: color.spec_mirror_square(if kingside { Square::G1 } else { Square::C1 }),
        hint: if kingside { ChessMoveHint::KingCastle } else { ChessMoveHint::QueenCastle },
    }
}

impl Position {
    /// Generate pseudo-legal castling moves from this position.
    #[verifier::spinoff_prover]
    #[verifier::rlimit(40)]
    pub fn push_castlings(&self, moves: &mut Vec<ChessMove>)
        requires
            self.wf(),
            self.rights_fit(),
        ensures
            pushes_ok(*self, old(moves)@, final(moves)@),
            final(moves)@ == old(moves)@ + (if spec_kingside_allowed(*self, self.sturn()) {
                seq![castling_move(self.sturn(), true)]
            } else {
                Seq::empty()
            }) + (if spec_queenside_allowed(*self, self.sturn()) {
                seq![castling_move(self.sturn(), false)]
            } else {
                Seq::empty()
            }),
    {
        let turn = self.turn();
        proof {
            crate::position::lemma_one_king_mask(self.sboard(), turn);
            lemma_castling_squares(self.sboard(), self.scastling(), turn);
        }
        let ghost start = moves@;
        if self.board().is_king_in_check(turn) {
            proof {
                assert(moves@ =~= start + Seq::<ChessMove>::empty() + Seq::<ChessMove>::empty());
            }
            return;
        }
        if self.is_kingside_castling_allowed(turn) {
            let m = ChessMove {
                from: turn.mirror_square(Square::E1),
                to: turn.mirror_square(Square::G1),
                hint: ChessMoveHint::KingCastle,
            };
            proof {
                self.sboard().lemma_color_iff_piece(m.to);
                reveal(spec_pseudo_legal);
            }
            moves.push(m);
        }
        if self.is_queenside_castling_allowed(turn) {
            let m = ChessMove {
                from: turn.mirror_square(Square::E1),
                to: turn.mirror_square(Square::C1),
                hint: ChessMoveHint::QueenCastle,
            };
            proof {
                self.sboard().lemma_color_iff_piece(m.to);
                reveal(spec_pseudo_legal);
            }
            moves.push(m);
        }
        proof {
            let k = if spec_kingside_allowed(*self, self.sturn()) {
                seq![castling_move(self.sturn(), true)]
            } else {
                Seq::<ChessMove>::empty()
            };
            let q = if spec_queenside_allowed(*self, self.sturn()) {
                seq![castling_move(self.sturn(), false)]
            } else {
                Seq::<ChessMove>::empty()
            };
            assert(moves@ =~= start + k + q);
        }
    }
}

impl Position {
    /// Generate pseudo-legal pawn captures from this position: promotions with
    /// capture first, then en passant captures, then plain captures.
    pub fn push_pawn_attacks(&self, moves: &mut Vec<ChessMove>)
        requires
            self.wf(),
            self.rights_fit(),
        ensures
            pushes_ok(*self, old(moves)@, final(moves)@),
            forall|m: ChessMove| #[trigger] spec_pseudo_legal(*self, m) && self.sboard().spec_piece_at(m.from) == Some(
                Piece::Pawn,
            ) && (((m.hint == ChessMoveHint::Caputre && m.to.idx() / 8 != crate::movegen::rank_for(self.sturn(), 7))
                || (m.hint.spec_is_promotion() && m.hint.spec_is_capture())) && self.sboard().spec_piece_at(m.to)
                != Some(Piece::King) || m.hint == ChessMoveHint::EnPassantCapture) ==> final(moves)@.contains(m),
            forall|k: int| old(moves)@.len() <= k < final(moves)@.len() ==> self.sboard().spec_piece_at(
                (#[trigger] final(moves)@[k]).from,
            ) == Some(Piece::Pawn) && final(moves)@[k].hint.spec_is_capture() && (final(moves)@[k].hint
                != ChessMoveHint::EnPassantCapture ==> self.sboard().spec_piece_at(final(moves)@[k].to) != Some(
                Piece::King,
            )) && (final(moves)@[k].hint == ChessMoveHint::Caputre ==> final(moves)@[k].to.idx() / 8
                != crate::movegen::rank_for(self.sturn(), 7)),
            distinct_new(old(moves)@, final(moves)@),
    {
        let ghost start = moves@;
        let turn = self.turn();
        let all_pawns = self.board().get_color_piece(turn, Piece::Pawn);
        let promoters = all_pawns.bitand(BitBoard::from_rank(turn.mirror_rank(Rank::R7)));
        let pawns = all_pawns.bitand(promoters.not());
        let ghost b = self.sboard();
        proof {
            let ri: u64 = if turn == Color::White { 6 } else { 1 };
            assert forall|s: Square| #[trigger] bit(promoters.0, s.idx()) implies b.spec_color_at(s) == Some(turn)
                && b.spec_piece_at(s) == Some(Piece::Pawn) && s.idx() / 8 == crate::movegen::rank_for(turn, 6) by {
                s.lemma_repr_roundtrip();
                lemma_bit_ops(all_pawns.0, (0xffu64 << (8 * ri)));
                crate::bitboard::lemma_rank_bits(ri, s.idx() as u64);
                lemma_own_piece(b, turn, Piece::Pawn, s);
            }
            assert forall|s: Square| #[trigger] bit(pawns.0, s.idx()) implies b.spec_color_at(s) == Some(turn)
                && b.spec_piece_at(s) == Some(Piece::Pawn) && s.idx() / 8 != crate::movegen::rank_for(turn, 6) by {
                s.lemma_repr_roundtrip();
                lemma_bit_ops(all_pawns.0, !promoters.0);
                lemma_bit_ops(promoters.0, 0);
                lemma_bit_ops(all_pawns.0, (0xffu64 << (8 * ri)));
                crate::bitboard::lemma_rank_bits(ri, s.idx() as u64);
                lemma_own_piece(b, turn, Piece::Pawn, s);
                assert(bit(all_pawns.0, s.idx()));
                assert(!bit(promoters.0, s.idx()));
            }
        }
        self.push_pawn_captures(moves, promoters, true);
        let ghost p1 = moves@;
        proof {
            assert forall|k: int| start.len() <= k < p1.len() implies self.sboard().spec_piece_at(
                (#[trigger] p1[k]).from,
            ) == Some(Piece::Pawn) && p1[k].hint.spec_is_capture() && (p1[k].hint != ChessMoveHint::EnPassantCapture
                ==> self.sboard().spec_piece_at(p1[k].to) != Some(Piece::King)) && (p1[k].hint == ChessMoveHint::Caputre
                ==> p1[k].to.idx() / 8 != crate::movegen::rank_for(self.sturn(), 7)) by {
                assert(bit(promoters.0, p1[k].from.idx()));
            }
        }
        match self.en_passant() {
            Some(file) => {
                let to = Square::new(turn.mirror_rank(Rank::R6), file);
                let sources = pawns.bitand(BitBoard::pawn_attacks(to, turn.not()));
                proof {
                    assert forall|s: Square| #[trigger] bit(sources.0, s.idx()) implies spec_pseudo_legal(
                        *self,
                        ChessMove { to, from: s, hint: ChessMoveHint::EnPassantCapture },
                    ) by {
                        s.lemma_repr_roundtrip();
                        lemma_bit_ops(pawns.0, crate::attacks::pawn_attack_spec(to, turn.opp()));
                        lemma_en_passant_ok(*self, s, to, file);
                    }
                }
                self.push_en_passants(moves, sources, to);
                proof {
                    assert forall|k: int| start.len() <= k < moves@.len() implies self.sboard().spec_piece_at(
                        (#[trigger] moves@[k]).from,
                    ) == Some(Piece::Pawn) && moves@[k].hint.spec_is_capture() && (moves@[k].hint
                        != ChessMoveHint::EnPassantCapture ==> self.sboard().spec_piece_at(moves@[k].to) != Some(
                        Piece::King,
                    )) && (moves@[k].hint == ChessMoveHint::Caputre ==> moves@[k].to.idx() / 8
                        != crate::movegen::rank_for(self.sturn(), 7)) by {
                        if k < p1.len() {
                            assert(moves@[k] == p1[k]);
                        } else {
                            let fs = moves@[k].from;
                            fs.lemma_repr_roundtrip();
                            lemma_bit_ops(pawns.0, crate::attacks::pawn_attack_spec(to, turn.opp()));
                            assert(bit(pawns.0, fs.idx()));
                        }
                    }
                    assert forall|m: ChessMove| #[trigger] spec_pseudo_legal(*self, m) && self.sboard().spec_piece_at(m.from)
                        == Some(Piece::Pawn) && m.hint == ChessMoveHint::EnPassantCapture implies moves@.contains(m) by {
                        reveal(spec_pseudo_legal);
                        self.sboard().lemma_color_iff_piece(m.from);
                        m.to.lemma_repr_roundtrip();
                        m.from.lemma_repr_roundtrip();
                        to.lemma_repr_roundtrip();
                        file.lemma_repr_roundtrip();
                        Square::lemma_idx_injective(m.to, to);
                        lemma_pawn_attack_back(m.from, m.to, turn);
                        lemma_piece_on_masks(b, turn, Piece::Pawn, m.from);
                        crate::bitboard::lemma_rank_bits(if turn == Color::White { 6u64 } else { 1u64 }, m.from.idx() as u64);
                        lemma_bit_ops(all_pawns.0, (0xffu64 << (8 * (if turn == Color::White { 6u64 } else { 1u64 }))));
                        lemma_bit_ops(all_pawns.0, !promoters.0);
                        lemma_bit_ops(promoters.0, 0);
                        lemma_bit_ops(pawns.0, crate::attacks::pawn_attack_spec(to, turn.opp()));
                        assert(bit(sources.0, m.from.idx()));
                    }
                }
            },
            None => {},
        }
        let ghost p2 = moves@;
        self.push_pawn_captures(moves, pawns, false);
        proof {
            assert(distinct_new(start, p1));
            assert(distinct_new(p1, p2));
            assert forall|i: int, j: int| start.len() <= i < j < moves@.len() implies #[trigger] moves@[i]
                != #[trigger] moves@[j] by {
                if i < p1.len() { assert(moves@[i] == p1[i]); } else if i < p2.len() { assert(moves@[i] == p2[i]); }
                if j < p1.len() { assert(moves@[j] == p1[j]); } else if j < p2.len() { assert(moves@[j] == p2[j]); }
            }
            assert forall|k: int| start.len() <= k < moves@.len() implies self.sboard().spec_piece_at(
                (#[trigger] moves@[k]).from,
            ) == Some(Piece::Pawn) && moves@[k].hint.spec_is_capture() && (moves@[k].hint
                != ChessMoveHint::EnPassantCapture ==> self.sboard().spec_piece_at(moves@[k].to) != Some(Piece::King)) && (
            moves@[k].hint == ChessMoveHint::Caputre ==> moves@[k].to.idx() / 8 != crate::movegen::rank_for(
                self.sturn(),
                7,
            )) by {
                if k < p2.len() {
                    assert(moves@[k] == p2[k]);
                } else {
                    assert(bit(pawns.0, moves@[k].from.idx()));
                }
            }
            lemma_extends_contains(p1, p2);
            lemma_extends_contains(p2, moves@);
            let ri: u64 = if turn == Color::White { 6 } else { 1 };
            assert forall|m: ChessMove| #[trigger] spec_pseudo_legal(*self, m) && self.sboard().spec_piece_at(m.from) == Some(
                Piece::Pawn,
            ) && (((m.hint == ChessMoveHint::Caputre && m.to.idx() / 8 != crate::movegen::rank_for(self.sturn(), 7))
                || (m.hint.spec_is_promotion() && m.hint.spec_is_capture())) && self.sboard().spec_piece_at(m.to)
                != Some(Piece::King) || m.hint == ChessMoveHint::EnPassantCapture) implies moves@.contains(m) by {
                if m.hint == ChessMoveHint::EnPassantCapture {
                    reveal(spec_pseudo_legal);
                    assert(self.sen_passant() is Some);
                    assert(p2.contains(m));
                } else {
                    lemma_pawn_capture_back(*self, m);
                    lemma_pawn_attack_back(m.from, m.to, turn);
                    m.from.lemma_repr_roundtrip();
                    lemma_piece_on_masks(b, turn, Piece::Pawn, m.from);
                    crate::bitboard::lemma_rank_bits(ri, m.from.idx() as u64);
                    lemma_bit_ops(all_pawns.0, (0xffu64 << (8 * ri)));
                    lemma_bit_ops(all_pawns.0, !promoters.0);
                    lemma_bit_ops(promoters.0, 0);
                    if m.hint == ChessMoveHint::Caputre {
                        assert(bit(pawns.0, m.from.idx()));
                        assert(covers_pawn(*self, moves@, m.from, m.hint));
                    } else {
                        assert(bit(promoters.0, m.from.idx()));
                        assert(pawn_capture_hint(true, m.hint));
                        assert(covers_pawn(*self, p1, m.from, m.hint));
                        assert(p1.contains(m));
                    }
                }
            }
        }
    }

    /// Appends the en passant captures onto `to` from the squares of `sources`.
    fn push_en_passants(&self, moves: &mut Vec<ChessMove>, sources: BitBoard, to: Square)
        requires
            forall|s: Square| #[trigger] bit(sources.0, s.idx()) ==> spec_pseudo_legal(
                *self,
                ChessMove { to, from: s, hint: ChessMoveHint::EnPassantCapture },
            ),
        ensures
            pushes_ok(*self, old(moves)@, final(moves)@),
            forall|s: Square| #[trigger] bit(sources.0, s.idx()) ==> final(moves)@.contains(
                ChessMove { to, from: s, hint: ChessMoveHint::EnPassantCapture },
            ),
            forall|k: int| old(moves)@.len() <= k < final(moves)@.len() ==> (#[trigger] final(moves)@[k]).hint
                == ChessMoveHint::EnPassantCapture && bit(sources.0, final(moves)@[k].from.idx()),
            distinct_new(old(moves)@, final(moves)@),
    {
        let mut rest = sources;
        let ghost start = moves@;
        while !rest.is_empty()
            invariant
                forall|j: int| 0 <= j < 64 && #[trigger] bit(rest.0, j) ==> bit(sources.0, j),
                forall|s: Square| #[trigger] bit(sources.0, s.idx()) ==> spec_pseudo_legal(
                    *self,
                    ChessMove { to, from: s, hint: ChessMoveHint::EnPassantCapture },
                ),
                pushes_ok(*self, start, moves@),
                forall|k: int| start.len() <= k < moves@.len() ==> (#[trigger] moves@[k]).hint
                    == ChessMoveHint::EnPassantCapture && bit(sources.0, moves@[k].from.idx()) && !bit(
                    rest.0,
                    moves@[k].from.idx(),
                ),
                distinct_new(start, moves@),
                forall|s: Square| #[trigger] bit(sources.0, s.idx()) && !bit(rest.0, s.idx()) ==> moves@.contains(
                    ChessMove { to, from: s, hint: ChessMoveHint::EnPassantCapture },
                ),
            decreases rest.0,
        {
            proof {
                lemma_lsb(rest.0);
                lemma_reset_lsb_decreases(rest.0);
            }
            let ghost before = rest.0;
            let ghost old_moves = moves@;
            let from = rest.iterator_next().unwrap();
            proof {
                lemma_squares_sound(before, 0);
                lemma_take_lowest(before);
                from.lemma_repr_roundtrip();
                assert forall|j: int| 0 <= j < 64 && #[trigger] bit(rest.0, j) implies bit(sources.0, j) by {
                    assert(bit(before & ((before - 1) as u64), j) ==> bit(before, j));
                }
                assert(bit(sources.0, from.idx()));
            }
            moves.push(ChessMove { from, to, hint: ChessMoveHint::EnPassantCapture });
            proof {
                assert forall|k: int| start.len() <= k < moves@.len() implies (#[trigger] moves@[k]).hint
                    == ChessMoveHint::EnPassantCapture && bit(sources.0, moves@[k].from.idx()) && !bit(
                    rest.0,
                    moves@[k].from.idx(),
                ) by {
                    if k < old_moves.len() {
                        assert(moves@[k] == old_moves[k]);
                        assert(!bit(before, old_moves[k].from.idx()));
                        old_moves[k].from.lemma_repr_roundtrip();
                    }
                }
                assert forall|i: int, j: int| start.len() <= i < j < moves@.len() implies #[trigger] moves@[i]
                    != #[trigger] moves@[j] by {
                    assert(moves@[i] == old_moves[i]);
                    if j < old_moves.len() {
                        assert(moves@[j] == old_moves[j]);
                    } else {
                        assert(!bit(before, old_moves[i].from.idx()));
                    }
                }
                lemma_extends_contains(old_moves, moves@);
                assert(moves@[moves@.len() - 1] == ChessMove { to, from, hint: ChessMoveHint::EnPassantCapture });
                assert forall|s: Square| #[trigger] bit(sources.0, s.idx()) && !bit(rest.0, s.idx()) implies moves@.contains(
                    ChessMove { to, from: s, hint: ChessMoveHint::EnPassantCapture },
                ) by {
                    s.lemma_repr_roundtrip();
                    if s.idx() == from.idx() {
                        Square::lemma_idx_injective(s, from);
                    } else {
                        assert(!bit(before, s.idx()));
                        assert(old_moves.contains(ChessMove { to, from: s, hint: ChessMoveHint::EnPassantCapture }));
                    }
                }
            }
        }
        proof {
            assert forall|s: Square| #[trigger] bit(sources.0, s.idx()) implies moves@.contains(
                ChessMove { to, from: s, hint: ChessMoveHint::EnPassantCapture },
            ) by {
                s.lemma_repr_roundtrip();
                crate::bitboard::lemma_bits_of_constants(s.idx() as u64);
            }
        }
    }

    /// The king of the side to move is attacked by two pieces or more.
    pub open spec fn spec_double_check(self) -> bool {
        squares_of(
            self.sboard().spec_color_attackers_to(self.sboard().spec_king(self.sturn()), self.sturn().opp()),
        ).len() >= 2
    }

    /// The moves the generator produces: the pseudo-legal moves, but for
    /// captures of the king, plain pawn moves onto the last rank (made as
    /// promotions instead), en passant captures by another piece than a pawn,
    /// and, in double check, all but the plain moves of the king.
    pub open spec fn spec_generated(self, m: ChessMove) -> bool {
        let piece = self.sboard().spec_piece_at(m.from);
        &&& spec_pseudo_legal(self, m)
        &&& self.sboard().spec_piece_at(m.to) != Some(Piece::King)
        &&& (self.spec_double_check() ==> piece == Some(Piece::King) && (m.hint == ChessMoveHint::Quiet || m.hint
            == ChessMoveHint::Caputre))
        &&& match m.hint {
            ChessMoveHint::Quiet | ChessMoveHint::Caputre => piece == Some(Piece::Pawn) ==> m.to.idx() / 8
                != crate::movegen::rank_for(self.sturn(), 7),
            ChessMoveHint::EnPassantCapture => piece == Some(Piece::Pawn),
            _ => true,
        }
    }

    /// Generate pseudo-legal moves from this position: only king moves when the
    /// king is in double check; otherwise captures first (pawns, knights,
    /// bishop-like, rook-like pieces, king), then castlings and quiet moves
    /// (king, rook-like, bishop-like pieces, knights, pawns).
    pub fn push_moves(&self, moves: &mut Vec<ChessMove>)
        requires
            self.wf(),
            self.rights_fit(),
        ensures
            pushes_ok(*self, old(moves)@, final(moves)@),
            forall|m: ChessMove| #[trigger] self.spec_generated(m) ==> final(moves)@.contains(m),
            self.spec_double_check() ==> forall|k: int|
                old(moves)@.len() <= k < final(moves)@.len() ==> self.sboard().spec_piece_at(
                    (#[trigger] final(moves)@[k]).from,
                ) == Some(Piece::King),
            distinct_new(old(moves)@, final(moves)@),
    {
        proof {
            crate::position::lemma_one_king_mask(self.sboard(), self.sturn());
        }
        let ghost q0 = moves@;
        if self.board().get_king_checkers(self.turn()).count() >= 2 {
            self.push_king_attacks(moves);
            let ghost k1 = moves@;
            self.push_king_quiets(moves);
            proof {
                assert forall|i: int, j: int| q0.len() <= i < j < moves@.len() implies #[trigger] moves@[i]
                    != #[trigger] moves@[j] by {
                    if i < k1.len() {
                        assert(moves@[i] == k1[i]);
                        if j < k1.len() {
                            assert(moves@[j] == k1[j]);
                        }
                    }
                }
                lemma_extends_contains(k1, moves@);
                assert forall|m: ChessMove| #[trigger] self.spec_generated(m) implies moves@.contains(m) by {
                    if m.hint == ChessMoveHint::Caputre {
                        assert(k1.contains(m));
                    }
                }
            }
            return;
        }
        self.push_pawn_attacks(moves);
        let ghost q1 = moves@;
        self.push_knight_attacks(moves);
        let ghost q2 = moves@;
        self.push_bishop_attacks(moves);
        let ghost q3 = moves@;
        self.push_rook_attacks(moves);
        let ghost q4 = moves@;
        self.push_king_attacks(moves);
        let ghost q5 = moves@;
        self.push_castlings(moves);
        let ghost q6 = moves@;
        self.push_king_quiets(moves);
        let ghost q7 = moves@;
        self.push_rook_quiets(moves);
        let ghost q8 = moves@;
        self.push_bishop_quiets(moves);
        let ghost q9 = moves@;
        self.push_knight_quiets(moves);
        let ghost q10 = moves@;
        self.push_pawn_quiets(moves);
        proof {
            lemma_extends_trans(q9, q10, moves@);
            lemma_extends_trans(q8, q9, moves@);
            lemma_extends_trans(q7, q8, moves@);
            lemma_extends_trans(q6, q7, moves@);
            lemma_extends_trans(q5, q6, moves@);
            lemma_extends_trans(q4, q5, moves@);
            lemma_extends_trans(q3, q4, moves@);
            lemma_extends_trans(q2, q3, moves@);
            lemma_extends_trans(q1, q2, moves@);
            lemma_extends_contains(q1, moves@);
            lemma_extends_contains(q2, moves@);
            lemma_extends_contains(q3, moves@);
            lemma_extends_contains(q4, moves@);
            lemma_extends_contains(q5, moves@);
            lemma_extends_contains(q6, moves@);
            lemma_extends_contains(q7, moves@);
            lemma_extends_contains(q8, moves@);
            lemma_extends_contains(q9, moves@);
            lemma_extends_contains(q10, moves@);
            assert forall|m: ChessMove| #[trigger] self.spec_generated(m) implies moves@.contains(m) by {
                lemma_generated_covered(*self, m, q1, q2, q3, q4, q5, q6, q7, q8, q9, q10, moves@);
            }
            lemma_pass_pawn(*self, q0, q1, true);
            lemma_pass_piece(*self, q1, q2, Piece::Knight, ChessMoveHint::Caputre);
            lemma_pass_piece(*self, q2, q3, Piece::Bishop, ChessMoveHint::Caputre);
            lemma_pass_piece(*self, q3, q4, Piece::Rook, ChessMoveHint::Caputre);
            lemma_pass_king(*self, q4, q5, ChessMoveHint::Caputre);
            lemma_pass_castle(*self, q5, q6);
            lemma_pass_king(*self, q6, q7, ChessMoveHint::Quiet);
            lemma_pass_piece(*self, q7, q8, Piece::Rook, ChessMoveHint::Quiet);
            lemma_pass_piece(*self, q8, q9, Piece::Bishop, ChessMoveHint::Quiet);
            lemma_pass_piece(*self, q9, q10, Piece::Knight, ChessMoveHint::Quiet);
            lemma_pass_pawn(*self, q10, moves@, false);
            lemma_generated_distinct(*self, q0, q1, q2, q3, q4, q5, q6, q7, q8, q9, q10, moves@);
        }
    }
}

/// What a generated move says of its squares: a piece stands on its origin;
/// it is a capture exactly where its destination holds a piece (en passant
/// aside); castling ends on an empty square; pawn-only hints are made by a
/// pawn; a queen moves along a bishop's or a rook's line.
pub proof fn lemma_generated_shape(p: Position, m: ChessMove)
    requires
        p.wf(),
        p.spec_generated(m),
    ensures
        p.sboard().spec_piece_at(m.from) is Some,
        p.sboard().spec_piece_at(m.to) is Some ==> m.hint.spec_is_capture(),
        p.sboard().spec_piece_at(m.to) is None ==> !m.hint.spec_is_capture() || m.hint
            == ChessMoveHint::EnPassantCapture,
        m.hint == ChessMoveHint::KingCastle || m.hint == ChessMoveHint::QueenCastle ==> p.sboard().spec_piece_at(
            m.to,
        ) is None,
        m.hint == ChessMoveHint::KingCastle || m.hint == ChessMoveHint::QueenCastle ==> p.sboard().spec_piece_at(
            m.from,
        ) == Some(Piece::King),
        m.hint == ChessMoveHint::KingCastle ==> m == castling_move(p.sturn(), true),
        m.hint == ChessMoveHint::QueenCastle ==> m == castling_move(p.sturn(), false),
        m.hint == ChessMoveHint::KingCastle ==> spec_kingside_allowed(p, p.sturn()),
        m.hint == ChessMoveHint::QueenCastle ==> spec_queenside_allowed(p, p.sturn()),
        m.hint == ChessMoveHint::EnPassantCapture || m.hint == ChessMoveHint::DoublePawn
            || m.hint.spec_is_promotion() ==> p.sboard().spec_piece_at(m.from) == Some(Piece::Pawn),
        p.sboard().spec_piece_at(m.from) == Some(Piece::Queen) && (m.hint == ChessMoveHint::Quiet || m.hint
            == ChessMoveHint::Caputre) ==> bit(bishop_spec(p.sboard().occupied_bb(), m.from), m.to.idx()) || bit(
            rook_spec(p.sboard().occupied_bb(), m.from),
            m.to.idx(),
        ),
{
    let b = p.sboard();
    b.lemma_color_iff_piece(m.from);
    b.lemma_color_iff_piece(m.to);
    assert(b.spec_piece_at(m.from) is Some) by {
        reveal(spec_pseudo_legal);
    }
    assert(b.spec_piece_at(m.to) is Some ==> m.hint.spec_is_capture()) by {
        reveal(spec_pseudo_legal);
    }
    assert(b.spec_piece_at(m.to) is None ==> !m.hint.spec_is_capture() || m.hint
        == ChessMoveHint::EnPassantCapture) by {
        reveal(spec_pseudo_legal);
    }
    assert(m.hint == ChessMoveHint::DoublePawn || m.hint.spec_is_promotion() ==> b.spec_piece_at(m.from) == Some(
        Piece::Pawn,
    )) by {
        reveal(spec_pseudo_legal);
    }
    if m.hint == ChessMoveHint::KingCastle || m.hint == ChessMoveHint::QueenCastle {
        assert(b.spec_piece_at(m.from) == Some(Piece::King)) by {
            reveal(spec_pseudo_legal);
        }
        assert(m.hint == ChessMoveHint::KingCastle ==> m == castling_move(p.sturn(), true)) by {
            reveal(spec_pseudo_legal);
        }
        assert(m.hint == ChessMoveHint::QueenCastle ==> m == castling_move(p.sturn(), false)) by {
            reveal(spec_pseudo_legal);
        }
        assert(spec_kingside_allowed(p, p.sturn()) || m.hint != ChessMoveHint::KingCastle) by {
            reveal(spec_pseudo_legal);
        }
        assert(spec_queenside_allowed(p, p.sturn()) || m.hint != ChessMoveHint::QueenCastle) by {
            reveal(spec_pseudo_legal);
        }
    }
    if b.spec_piece_at(m.from) == Some(Piece::Queen) && (m.hint == ChessMoveHint::Quiet || m.hint
        == ChessMoveHint::Caputre) {
        lemma_piece_move_shape(p, m, Piece::Queen);
        crate::bitboard::lemma_bit_ops(bishop_spec(b.occupied_bb(), m.from), rook_spec(b.occupied_bb(), m.from));
    }
}

/// The pass of the generator that a move belongs to, from its hint and the
/// piece on its origin: pawn, knight, bishop-like, rook-like and king
/// captures, castlings, then king, rook-like, bishop-like, knight and pawn
/// quiet moves (a queen's move counts as bishop-like along a diagonal and as
/// rook-like otherwise).
pub open spec fn move_pass(p: Position, m: ChessMove) -> int {
    let b = p.sboard();
    let piece = b.spec_piece_at(m.from);
    let diag = bit(bishop_spec(b.occupied_bb(), m.from), m.to.idx());
    if m.hint == ChessMoveHint::KingCastle || m.hint == ChessMoveHint::QueenCastle {
        6
    } else if m.hint == ChessMoveHint::Caputre {
        if piece == Some(Piece::Pawn) {
            1
        } else if piece == Some(Piece::Knight) {
            2
        } else if piece == Some(Piece::Bishop) || (piece == Some(Piece::Queen) && diag) {
            3
        } else if piece == Some(Piece::Rook) || piece == Some(Piece::Queen) {
            4
        } else {
            5
        }
    } else if m.hint == ChessMoveHint::Quiet {
        if piece == Some(Piece::Pawn) {
            11
        } else if piece == Some(Piece::Knight) {
            10
        } else if piece == Some(Piece::Bishop) || (piece == Some(Piece::Queen) && diag) {
            9
        } else if piece == Some(Piece::Rook) || piece == Some(Piece::Queen) {
            8
        } else {
            7
        }
    } else if m.hint.spec_is_capture() {
        1
    } else {
        11
    }
}

/// The moves of a pass that all belong to it, and no move twice.
pub open spec fn pass_ok(p: Position, old: Seq<ChessMove>, new: Seq<ChessMove>, pass: int) -> bool {
    &&& distinct_new(old, new)
    &&& forall|k: int| old.len() <= k < new.len() ==> move_pass(p, #[trigger] new[k]) == pass
}

/// A pass of pawn captures (or of pawn moves that capture nothing).
proof fn lemma_pass_pawn(p: Position, old: Seq<ChessMove>, new: Seq<ChessMove>, captures: bool)
    requires
        distinct_new(old, new),
        forall|k: int| old.len() <= k < new.len() ==> p.sboard().spec_piece_at((#[trigger] new[k]).from) == Some(
            Piece::Pawn,
        ) && (if captures { new[k].hint.spec_is_capture() } else { pawn_quiet_hint(new[k].hint) }),
    ensures
        pass_ok(p, old, new, if captures { 1 } else { 11 }),
{
    assert forall|k: int| old.len() <= k < new.len() implies move_pass(p, #[trigger] new[k]) == (if captures {
        1int
    } else {
        11int
    }) by {
        assert(p.sboard().spec_piece_at(new[k].from) == Some(Piece::Pawn));
    }
}

/// A pass of knight, bishop-like or rook-like moves with one hint.
proof fn lemma_pass_piece(p: Position, old: Seq<ChessMove>, new: Seq<ChessMove>, kind: Piece, hint: ChessMoveHint)
    requires
        p.wf(),
        kind == Piece::Knight || kind == Piece::Bishop || kind == Piece::Rook,
        hint == ChessMoveHint::Quiet || hint == ChessMoveHint::Caputre,
        distinct_new(old, new),
        forall|k: int| old.len() <= k < new.len() ==> #[trigger] piece_move_of(p, new[k], kind, hint),
    ensures
        pass_ok(p, old, new, if hint == ChessMoveHint::Caputre {
            if kind == Piece::Knight { 2int } else if kind == Piece::Bishop { 3int } else { 4int }
        } else {
            if kind == Piece::Knight { 10int } else if kind == Piece::Bishop { 9int } else { 8int }
        }),
{
    let occ = p.sboard().occupied_bb();
    assert forall|k: int| old.len() <= k < new.len() implies move_pass(p, #[trigger] new[k]) == (if hint
        == ChessMoveHint::Caputre {
        if kind == Piece::Knight { 2int } else if kind == Piece::Bishop { 3int } else { 4int }
    } else {
        if kind == Piece::Knight { 10int } else if kind == Piece::Bishop { 9int } else { 8int }
    }) by {
        assert(piece_move_of(p, new[k], kind, hint));
        new[k].to.lemma_repr_roundtrip();
        crate::attacks::lemma_bishop_rook_apart(occ, new[k].from, new[k].to.idx());
    }
}

/// A pass of king moves with one hint.
proof fn lemma_pass_king(p: Position, old: Seq<ChessMove>, new: Seq<ChessMove>, hint: ChessMoveHint)
    requires
        hint == ChessMoveHint::Quiet || hint == ChessMoveHint::Caputre,
        distinct_new(old, new),
        forall|k: int| old.len() <= k < new.len() ==> p.sboard().spec_piece_at((#[trigger] new[k]).from) == Some(
            Piece::King,
        ) && new[k].hint == hint,
    ensures
        pass_ok(p, old, new, if hint == ChessMoveHint::Caputre { 5 } else { 7 }),
{
    assert forall|k: int| old.len() <= k < new.len() implies move_pass(p, #[trigger] new[k]) == (if hint
        == ChessMoveHint::Caputre { 5int } else { 7int }) by {
        assert(p.sboard().spec_piece_at(new[k].from) == Some(Piece::King));
    }
}

/// The castling pass.
proof fn lemma_pass_castle(p: Position, old: Seq<ChessMove>, new: Seq<ChessMove>)
    requires
        new == old + (if spec_kingside_allowed(p, p.sturn()) {
            seq![castling_move(p.sturn(), true)]
        } else {
            Seq::empty()
        }) + (if spec_queenside_allowed(p, p.sturn()) {
            seq![castling_move(p.sturn(), false)]
        } else {
            Seq::empty()
        }),
    ensures
        pass_ok(p, old, new, 6),
{
    assert forall|k: int| old.len() <= k < new.len() implies move_pass(p, #[trigger] new[k]) == 6 by {}
    assert forall|i: int, j: int| old.len() <= i < j < new.len() implies #[trigger] new[i] != #[trigger] new[j] by {
        assert(new[i].hint == ChessMoveHint::KingCastle);
        assert(new[j].hint == ChessMoveHint::QueenCastle);
    }
}

/// The passes of the generator add each move once: the moves of different
/// passes differ, and no pass adds a move twice.
proof fn lemma_generated_distinct(
    p: Position,
    q0: Seq<ChessMove>,
    q1: Seq<ChessMove>,
    q2: Seq<ChessMove>,
    q3: Seq<ChessMove>,
    q4: Seq<ChessMove>,
    q5: Seq<ChessMove>,
    q6: Seq<ChessMove>,
    q7: Seq<ChessMove>,
    q8: Seq<ChessMove>,
    q9: Seq<ChessMove>,
    q10: Seq<ChessMove>,
    fin: Seq<ChessMove>,
)
    requires
        extends(q0, q1),
        extends(q1, fin),
        extends(q2, fin),
        extends(q3, fin),
        extends(q4, fin),
        extends(q5, fin),
        extends(q6, fin),
        extends(q7, fin),
        extends(q8, fin),
        extends(q9, fin),
        extends(q10, fin),
        q1.len() <= q2.len() <= q3.len() <= q4.len() <= q5.len() <= q6.len() <= q7.len() <= q8.len() <= q9.len()
            <= q10.len() <= fin.len(),
        pass_ok(p, q0, q1, 1),
        pass_ok(p, q1, q2, 2),
        pass_ok(p, q2, q3, 3),
        pass_ok(p, q3, q4, 4),
        pass_ok(p, q4, q5, 5),
        pass_ok(p, q5, q6, 6),
        pass_ok(p, q6, q7, 7),
        pass_ok(p, q7, q8, 8),
        pass_ok(p, q8, q9, 9),
        pass_ok(p, q9, q10, 10),
        pass_ok(p, q10, fin, 11),
    ensures
        distinct_new(q0, fin),
{
    let b = seq![q0.len() as int, q1.len() as int, q2.len() as int, q3.len() as int, q4.len() as int,
        q5.len() as int, q6.len() as int, q7.len() as int, q8.len() as int, q9.len() as int, q10.len() as int,
        fin.len() as int];
    assert forall|k: int| q0.len() <= k < fin.len() implies 1 <= move_pass(p, #[trigger] fin[k]) <= 11 && b[
        move_pass(p, fin[k]) - 1] <= k < b[move_pass(p, fin[k])] by {
        if k < q1.len() {
            assert(fin[k] == q1[k]);
        } else if k < q2.len() {
            assert(fin[k] == q2[k]);
        } else if k < q3.len() {
            assert(fin[k] == q3[k]);
        } else if k < q4.len() {
            assert(fin[k] == q4[k]);
        } else if k < q5.len() {
            assert(fin[k] == q5[k]);
        } else if k < q6.len() {
            assert(fin[k] == q6[k]);
        } else if k < q7.len() {
            assert(fin[k] == q7[k]);
        } else if k < q8.len() {
            assert(fin[k] == q8[k]);
        } else if k < q9.len() {
            assert(fin[k] == q9[k]);
        } else if k < q10.len() {
            assert(fin[k] == q10[k]);
        }
    }
    assert forall|i: int, j: int| q0.len() <= i < j < fin.len() implies #[trigger] fin[i] != #[trigger] fin[j] by {
        if fin[i] == fin[j] {
            let c = move_pass(p, fin[i]);
            assert(b[c - 1] <= i < j < b[c]);
            if c == 1 {
                assert(fin[i] == q1[i] && fin[j] == q1[j]);
            } else if c == 2 {
                assert(fin[i] == q2[i] && fin[j] == q2[j]);
            } else if c == 3 {
                assert(fin[i] == q3[i] && fin[j] == q3[j]);
            } else if c == 4 {
                assert(fin[i] == q4[i] && fin[j] == q4[j]);
            } else if c == 5 {
                assert(fin[i] == q5[i] && fin[j] == q5[j]);
            } else if c == 6 {
                assert(fin[i] == q6[i] && fin[j] == q6[j]);
            } else if c == 7 {
                assert(fin[i] == q7[i] && fin[j] == q7[j]);
            } else if c == 8 {
                assert(fin[i] == q8[i] && fin[j] == q8[j]);
            } else if c == 9 {
                assert(fin[i] == q9[i] && fin[j] == q9[j]);
            } else if c == 10 {
                assert(fin[i] == q10[i] && fin[j] == q10[j]);
            }
        }
    }
}

/// Keeping moves in front is transitive.
proof fn lemma_extends_trans(a: Seq<ChessMove>, b: Seq<ChessMove>, c: Seq<ChessMove>)
    requires
        extends(a, b),
        extends(b, c),
    ensures
        extends(a, c),
{
}

/// Each move the generator owes stands in the list that the generation
/// passes built one after another (pawn, knight, bishop-like, rook-like and
/// king captures, castlings, king, rook-like, bishop-like, knight and pawn
/// quiet moves), given what each pass is known to add.
#[verifier::spinoff_prover]
#[verifier::rlimit(60)]
proof fn lemma_generated_covered(
    p: Position,
    m: ChessMove,
    q1: Seq<ChessMove>,
    q2: Seq<ChessMove>,
    q3: Seq<ChessMove>,
    q4: Seq<ChessMove>,
    q5: Seq<ChessMove>,
    q6: Seq<ChessMove>,
    q7: Seq<ChessMove>,
    q8: Seq<ChessMove>,
    q9: Seq<ChessMove>,
    q10: Seq<ChessMove>,
    fin: Seq<ChessMove>,
)
    requires
        p.wf(),
        p.spec_generated(m),
        forall|x: ChessMove| q1.contains(x) ==> #[trigger] fin.contains(x),
        forall|x: ChessMove| q2.contains(x) ==> #[trigger] fin.contains(x),
        forall|x: ChessMove| q3.contains(x) ==> #[trigger] fin.contains(x),
        forall|x: ChessMove| q4.contains(x) ==> #[trigger] fin.contains(x),
        forall|x: ChessMove| q5.contains(x) ==> #[trigger] fin.contains(x),
        forall|x: ChessMove| q6.contains(x) ==> #[trigger] fin.contains(x),
        forall|x: ChessMove| q7.contains(x) ==> #[trigger] fin.contains(x),
        forall|x: ChessMove| q8.contains(x) ==> #[trigger] fin.contains(x),
        forall|x: ChessMove| q9.contains(x) ==> #[trigger] fin.contains(x),
        forall|x: ChessMove| q10.contains(x) ==> #[trigger] fin.contains(x),
        forall|x: ChessMove| #[trigger] spec_pseudo_legal(p, x) && p.sboard().spec_piece_at(x.from) == Some(
            Piece::Pawn,
        ) && (((x.hint == ChessMoveHint::Caputre && x.to.idx() / 8 != crate::movegen::rank_for(p.sturn(), 7))
            || (x.hint.spec_is_promotion() && x.hint.spec_is_capture())) && p.sboard().spec_piece_at(x.to)
            != Some(Piece::King) || x.hint == ChessMoveHint::EnPassantCapture) ==> q1.contains(x),
        forall|x: ChessMove| #[trigger] spec_pseudo_legal(p, x) && x.hint == ChessMoveHint::Caputre
            && p.sboard().spec_piece_at(x.from) == Some(Piece::Knight) && p.sboard().spec_piece_at(x.to) != Some(
            Piece::King,
        ) ==> q2.contains(x),
        forall|x: ChessMove| #[trigger] spec_pseudo_legal(p, x) && x.hint == ChessMoveHint::Caputre && (
        p.sboard().spec_piece_at(x.from) == Some(Piece::Bishop) || (p.sboard().spec_piece_at(x.from) == Some(
            Piece::Queen,
        ) && bit(bishop_spec(p.sboard().occupied_bb(), x.from), x.to.idx()))) && p.sboard().spec_piece_at(x.to)
            != Some(Piece::King) ==> q3.contains(x),
        forall|x: ChessMove| #[trigger] spec_pseudo_legal(p, x) && x.hint == ChessMoveHint::Caputre && (
        p.sboard().spec_piece_at(x.from) == Some(Piece::Rook) || (p.sboard().spec_piece_at(x.from) == Some(
            Piece::Queen,
        ) && bit(rook_spec(p.sboard().occupied_bb(), x.from), x.to.idx()))) && p.sboard().spec_piece_at(x.to)
            != Some(Piece::King) ==> q4.contains(x),
        forall|x: ChessMove| #[trigger] spec_pseudo_legal(p, x) && x.hint == ChessMoveHint::Caputre
            && p.sboard().spec_piece_at(x.from) == Some(Piece::King) && p.sboard().spec_piece_at(x.to) != Some(
            Piece::King,
        ) ==> q5.contains(x),
        q6 == q5 + (if spec_kingside_allowed(p, p.sturn()) {
            seq![castling_move(p.sturn(), true)]
        } else {
            Seq::<ChessMove>::empty()
        }) + (if spec_queenside_allowed(p, p.sturn()) {
            seq![castling_move(p.sturn(), false)]
        } else {
            Seq::<ChessMove>::empty()
        }),
        forall|x: ChessMove| #[trigger] spec_pseudo_legal(p, x) && x.hint == ChessMoveHint::Quiet
            && p.sboard().spec_piece_at(x.from) == Some(Piece::King) ==> q7.contains(x),
        forall|x: ChessMove| #[trigger] spec_pseudo_legal(p, x) && x.hint == ChessMoveHint::Quiet && (
        p.sboard().spec_piece_at(x.from) == Some(Piece::Rook) || (p.sboard().spec_piece_at(x.from) == Some(
            Piece::Queen,
        ) && bit(rook_spec(p.sboard().occupied_bb(), x.from), x.to.idx()))) ==> q8.contains(x),
        forall|x: ChessMove| #[trigger] spec_pseudo_legal(p, x) && x.hint == ChessMoveHint::Quiet && (
        p.sboard().spec_piece_at(x.from) == Some(Piece::Bishop) || (p.sboard().spec_piece_at(x.from) == Some(
            Piece::Queen,
        ) && bit(bishop_spec(p.sboard().occupied_bb(), x.from), x.to.idx()))) ==> q9.contains(x),
        forall|x: ChessMove| #[trigger] spec_pseudo_legal(p, x) && x.hint == ChessMoveHint::Quiet
            && p.sboard().spec_piece_at(x.from) == Some(Piece::Knight) ==> q10.contains(x),
        forall|x: ChessMove| #[trigger] spec_pseudo_legal(p, x) && p.sboard().spec_piece_at(x.from) == Some(
            Piece::Pawn,
        ) && ((x.hint == ChessMoveHint::Quiet && x.to.idx() / 8 != crate::movegen::rank_for(p.sturn(), 7))
            || x.hint == ChessMoveHint::DoublePawn || (x.hint.spec_is_promotion() && !x.hint.spec_is_capture()))
            ==> fin.contains(x),
    ensures
        fin.contains(m),
{
    let b = p.sboard();
    let piece = b.spec_piece_at(m.from);
    b.lemma_color_iff_piece(m.from);
    assert(piece is Some) by {
        reveal(spec_pseudo_legal);
    }
    assert(m.hint == ChessMoveHint::DoublePawn || m.hint.spec_is_promotion() ==> piece == Some(Piece::Pawn)) by {
        reveal(spec_pseudo_legal);
    }
    if m.hint == ChessMoveHint::KingCastle || m.hint == ChessMoveHint::QueenCastle {
        assert(b.spec_piece_at(m.from) == Some(Piece::King)) by {
            reveal(spec_pseudo_legal);
        }
        assert(m.hint == ChessMoveHint::KingCastle ==> m == castling_move(p.sturn(), true)) by {
            reveal(spec_pseudo_legal);
        }
        assert(m.hint == ChessMoveHint::QueenCastle ==> m == castling_move(p.sturn(), false)) by {
            reveal(spec_pseudo_legal);
        }
        assert(spec_kingside_allowed(p, p.sturn()) || m.hint != ChessMoveHint::KingCastle) by {
            reveal(spec_pseudo_legal);
        }
        assert(spec_queenside_allowed(p, p.sturn()) || m.hint != ChessMoveHint::QueenCastle) by {
            reveal(spec_pseudo_legal);
        }
        assert(m.hint == ChessMoveHint::KingCastle ==> m == castling_move(p.sturn(), true)) by {
            reveal(spec_pseudo_legal);
        }
        assert(m.hint == ChessMoveHint::QueenCastle ==> m == castling_move(p.sturn(), false)) by {
            reveal(spec_pseudo_legal);
        }
        let k = if spec_kingside_allowed(p, p.sturn()) {
            seq![castling_move(p.sturn(), true)]
        } else {
            Seq::<ChessMove>::empty()
        };
        if m.hint == ChessMoveHint::KingCastle {
            assert(q6[q5.len() as int] == m);
        } else {
            assert(q6[(q5.len() + k.len()) as int] == m);
        }
        assert(q6.contains(m));
    } else if m.hint == ChessMoveHint::Quiet || m.hint == ChessMoveHint::Caputre {
        let quiet = m.hint == ChessMoveHint::Quiet;
        match piece.unwrap() {
            Piece::Pawn => {
                if !quiet {
                    assert(q1.contains(m));
                }
            },
            Piece::Knight => {
                if quiet {
                    assert(q10.contains(m));
                } else {
                    assert(q2.contains(m));
                }
            },
            Piece::Bishop => {
                if quiet {
                    assert(q9.contains(m));
                } else {
                    assert(q3.contains(m));
                }
            },
            Piece::Rook => {
                if quiet {
                    assert(q8.contains(m));
                } else {
                    assert(q4.contains(m));
                }
            },
            Piece::Queen => {
                lemma_piece_move_shape(p, m, Piece::Queen);
                crate::bitboard::lemma_bit_ops(
                    bishop_spec(b.occupied_bb(), m.from),
                    rook_spec(b.occupied_bb(), m.from),
                );
                if bit(bishop_spec(b.occupied_bb(), m.from), m.to.idx()) {
                    if quiet {
                        assert(q9.contains(m));
                    } else {
                        assert(q3.contains(m));
                    }
                } else {
                    if quiet {
                        assert(q8.contains(m));
                    } else {
                        assert(q4.contains(m));
                    }
                }
            },
            Piece::King => {
                if quiet {
                    assert(q7.contains(m));
                } else {
                    assert(q5.contains(m));
                }
            },
        }
    } else if m.hint == ChessMoveHint::EnPassantCapture || m.hint.spec_is_capture() {
        assert(q1.contains(m));
    }
}

} // verus!
