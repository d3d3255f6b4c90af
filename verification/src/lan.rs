//! Moves in Long Algebraic Notation.

use vstd::prelude::*;
use vstd::string::*;

use crate::move_generation::{lemma_extends_contains, lemma_generated_shape};
use crate::movegen::{spec_kingside_allowed, spec_pseudo_legal, ChessMove, ChessMoveHint};
use crate::pieces::{Piece, Promotion};
use crate::position::Position;
use crate::square::{file_from_char, rank_from_char, Square};

verus! {

/// A chess move in a [LAN (Long Algebraic Notation)].
///
/// [LAN (Long Algebraic Notation)]:
/// https://www.chessprogramming.org/Algebraic_Chess_Notation#Long_Algebraic_Notation_.28LAN.29
#[derive(Debug, Clone, Copy, PartialEq, Eq, Structural, Hash)]
pub struct LanMove {
    /// The origin square.
    pub from: Square,
    /// The destination square.
    pub to: Square,
    /// The kind of promotion (if move is a promotion) or `None`.
    pub promotion: Option<Promotion>,
}

/// The move a LAN string names: the origin and destination squares (file
/// letter, rank digit, in either case) and an optional promotion letter.
pub open spec fn spec_lan_parse(s: Seq<char>) -> Option<LanMove> {
    if (s.len() == 4 || s.len() == 5) && Square::spec_parse(s.subrange(0, 2)) is Some && Square::spec_parse(
        s.subrange(2, 4),
    ) is Some && (s.len() == 4 || Promotion::spec_from_char(s[4]) is Some) {
        Some(
            LanMove {
                from: Square::spec_parse(s.subrange(0, 2)).unwrap(),
                to: Square::spec_parse(s.subrange(2, 4)).unwrap(),
                promotion: if s.len() == 4 { None } else { Promotion::spec_from_char(s[4]) },
            },
        )
    } else {
        None
    }
}

/// The square named by the two characters at `i` of the string.
fn parse_square_at(s: &str, i: usize) -> (r: Option<Square>)
    requires
        i <= 2,
        i + 2 <= s@.len(),
    ensures
        r == Square::spec_parse(s@.subrange(i as int, i + 2)),
{
    let f = file_from_char(s.get_char(i));
    let r = rank_from_char(s.get_char(i + 1));
    proof {
        let w = s@.subrange(i as int, i + 2);
        assert(w[0] == s@[i as int] && w[1] == s@[i + 1]);
    }
    match (f, r) {
        (Some(f), Some(r)) => Some(Square::new(r, f)),
        _ => None,
    }
}

impl LanMove {
    /// Parses a move in LAN.
    pub fn parse(s: &str) -> (r: Result<LanMove, ()>)
        ensures
            r is Ok <==> spec_lan_parse(s@) is Some,
            r matches Ok(m) ==> spec_lan_parse(s@) == Some(m),
    {
        let n = s.unicode_len();
        if n != 4 && n != 5 {
            return Err(());
        }
        let from = match parse_square_at(s, 0) {
            Some(sq) => sq,
            None => return Err(()),
        };
        let to = match parse_square_at(s, 2) {
            Some(sq) => sq,
            None => return Err(()),
        };
        let promotion = if n == 4 {
            None
        } else {
            match Promotion::from_char(s.get_char(4)) {
                Some(p) => Some(p),
                None => return Err(()),
            }
        };
        Ok(LanMove { from, to, promotion })
    }

    /// The LAN text of the move: the names of both squares followed by the
    /// letter of the promotion, if any.
    pub fn name(&self) -> (r: String)
        ensures
            spec_lan_parse(r@) == Some(*self),
    {
        let f1 = self.from.into_file().name();
        let r1 = self.from.into_rank().name();
        let f2 = self.to.into_file().name();
        let r2 = self.to.into_rank().name();
        let mut s = String::new();
        s.append(f1);
        s.append(r1);
        s.append(f2);
        s.append(r2);
        let ghost w4 = s@;
        proof {
            assert(w4 =~= f1@ + r1@ + f2@ + r2@);
            assert(w4.subrange(0, 2) =~= seq![f1@[0], r1@[0]]);
            assert(w4.subrange(2, 4) =~= seq![f2@[0], r2@[0]]);
            self.from.lemma_rank_file();
            self.to.lemma_rank_file();
            assert(Square::spec_parse(w4.subrange(0, 2)) == Some(self.from));
            assert(Square::spec_parse(w4.subrange(2, 4)) == Some(self.to));
        }
        match self.promotion {
            Some(p) => {
                let pn = p.name();
                s.append(pn);
                proof {
                    assert(s@ =~= w4 + pn@);
                    assert(s@.subrange(0, 4) =~= w4);
                    assert(s@.subrange(0, 2) =~= w4.subrange(0, 2));
                    assert(s@.subrange(2, 4) =~= w4.subrange(2, 4));
                    assert(s@[4] == pn@[0]);
                }
            },
            None => {},
        }
        s
    }
}

impl std::str::FromStr for LanMove {
    type Err = ();

    fn from_str(s: &str) -> (r: Result<Self, Self::Err>)
        ensures
            r is Ok <==> spec_lan_parse(s@) is Some,
            r matches Ok(m) ==> spec_lan_parse(s@) == Some(m),
    {
        LanMove::parse(s)
    }
}

impl ChessMove {
    /// The LAN form of the move.
    pub open spec fn spec_lan(self) -> LanMove {
        LanMove { from: self.from, to: self.to, promotion: self.hint.spec_promotion() }
    }

    /// Converts the move to [`LanMove`].
    pub fn lan(self) -> (r: LanMove)
        ensures
            r == self.spec_lan(),
    {
        LanMove { to: self.to, from: self.from, promotion: self.hint.promotion() }
    }
}

impl Position {
    /// The generated moves of `piece` that may capture on the destination of `lan_move`.
    fn capture_candidates(&self, lan_move: LanMove, piece: Piece) -> (moves: Vec<ChessMove>)
        requires
            self.wf(),
            self.rights_fit(),
            self.sboard().spec_piece_at(lan_move.from) == Some(piece),
            self.sboard().spec_piece_at(lan_move.to) is Some,
        ensures
            forall|k: int| 0 <= k < moves@.len() ==> spec_pseudo_legal(*self, #[trigger] moves@[k]),
            forall|m: ChessMove| #[trigger] self.spec_generated(m) && m.spec_lan() == lan_move ==> moves@.contains(m),
    {
        let mut moves: Vec<ChessMove> = Vec::new();
        match piece {
            Piece::Pawn => {
                self.push_pawn_attacks(&mut moves);
                proof {
                    assert forall|m: ChessMove| #[trigger] self.spec_generated(m) && m.spec_lan() == lan_move
                        implies moves@.contains(m) by {
                        lemma_generated_shape(*self, m);
                    }
                }
            },
            Piece::Bishop => {
                self.push_bishop_attacks(&mut moves);
                proof {
                    assert forall|m: ChessMove| #[trigger] self.spec_generated(m) && m.spec_lan() == lan_move
                        implies moves@.contains(m) by {
                        lemma_generated_shape(*self, m);
                    }
                }
            },
            Piece::Knight => {
                self.push_knight_attacks(&mut moves);
                proof {
                    assert forall|m: ChessMove| #[trigger] self.spec_generated(m) && m.spec_lan() == lan_move
                        implies moves@.contains(m) by {
                        lemma_generated_shape(*self, m);
                    }
                }
            },
            Piece::Rook => {
                self.push_rook_attacks(&mut moves);
                proof {
                    assert forall|m: ChessMove| #[trigger] self.spec_generated(m) && m.spec_lan() == lan_move
                        implies moves@.contains(m) by {
                        lemma_generated_shape(*self, m);
                    }
                }
            },
            Piece::Queen => {
                self.push_bishop_attacks(&mut moves);
                let ghost mid = moves@;
                self.push_rook_attacks(&mut moves);
                proof {
                    lemma_extends_contains(mid, moves@);
                    assert forall|m: ChessMove| #[trigger] self.spec_generated(m) && m.spec_lan() == lan_move
                        implies moves@.contains(m) by {
                        lemma_generated_shape(*self, m);
                    }
                }
            },
            Piece::King => {
                self.push_king_attacks(&mut moves);
                proof {
                    assert forall|m: ChessMove| #[trigger] self.spec_generated(m) && m.spec_lan() == lan_move
                        implies moves@.contains(m) by {
                        lemma_generated_shape(*self, m);
                    }
                }
            },
        }
        moves
    }

    /// The generated moves of `piece` that may go to the empty destination of `lan_move`.
    fn quiet_candidates(&self, lan_move: LanMove, piece: Piece) -> (moves: Vec<ChessMove>)
        requires
            self.wf(),
            self.rights_fit(),
            self.sboard().spec_piece_at(lan_move.from) == Some(piece),
            self.sboard().spec_piece_at(lan_move.to) is None,
        ensures
            forall|k: int| 0 <= k < moves@.len() ==> spec_pseudo_legal(*self, #[trigger] moves@[k]),
            forall|m: ChessMove| #[trigger] self.spec_generated(m) && m.spec_lan() == lan_move ==> moves@.contains(m),
    {
        let mut moves: Vec<ChessMove> = Vec::new();
        match piece {
            Piece::Pawn => {
                // "to" is unoccupied for en passant.
                self.push_pawn_attacks(&mut moves);
                let ghost mid = moves@;
                self.push_pawn_quiets(&mut moves);
                proof {
                    lemma_extends_contains(mid, moves@);
                    assert forall|m: ChessMove| #[trigger] self.spec_generated(m) && m.spec_lan() == lan_move
                        implies moves@.contains(m) by {
                        lemma_generated_shape(*self, m);
                        if m.hint == ChessMoveHint::EnPassantCapture {
                            assert(mid.contains(m));
                        }
                    }
                }
            },
            Piece::Bishop => {
                self.push_bishop_quiets(&mut moves);
                proof {
                    assert forall|m: ChessMove| #[trigger] self.spec_generated(m) && m.spec_lan() == lan_move
                        implies moves@.contains(m) by {
                        lemma_generated_shape(*self, m);
                    }
                }
            },
            Piece::Knight => {
                self.push_knight_quiets(&mut moves);
                proof {
                    assert forall|m: ChessMove| #[trigger] self.spec_generated(m) && m.spec_lan() == lan_move
                        implies moves@.contains(m) by {
                        lemma_generated_shape(*self, m);
                    }
                }
            },
            Piece::Rook => {
                self.push_rook_quiets(&mut moves);
                proof {
                    assert forall|m: ChessMove| #[trigger] self.spec_generated(m) && m.spec_lan() == lan_move
                        implies moves@.contains(m) by {
                        lemma_generated_shape(*self, m);
                    }
                }
            },
            Piece::Queen => {
                self.push_bishop_quiets(&mut moves);
                let ghost mid = moves@;
                self.push_rook_quiets(&mut moves);
                proof {
                    lemma_extends_contains(mid, moves@);
                    assert forall|m: ChessMove| #[trigger] self.spec_generated(m) && m.spec_lan() == lan_move
                        implies moves@.contains(m) by {
                        lemma_generated_shape(*self, m);
                    }
                }
            },
            Piece::King => {
                self.push_castlings(&mut moves);
                let ghost mid = moves@;
                self.push_king_quiets(&mut moves);
                proof {
                    lemma_extends_contains(mid, moves@);
                    assert forall|m: ChessMove| #[trigger] self.spec_generated(m) && m.spec_lan() == lan_move
                        implies moves@.contains(m) by {
                        lemma_generated_shape(*self, m);
                        if m.hint == ChessMoveHint::KingCastle {
                            assert(mid[0] == m);
                        } else if m.hint == ChessMoveHint::QueenCastle {
                            if spec_kingside_allowed(*self, self.sturn()) {
                                assert(mid[1] == m);
                            } else {
                                assert(mid[0] == m);
                            }
                        }
                    }
                }
            },
        }
        moves
    }

    /// Returns an equivalent `ChessMove` for a `LanMove` in this position: a
    /// generated pseudo-legal move of the piece on the origin square with the
    /// same squares and promotion.
    pub fn lan_move(&self, lan_move: LanMove) -> (r: Option<ChessMove>)
        requires
            self.wf(),
            self.rights_fit(),
        ensures
            r matches Some(m) ==> m.spec_lan() == lan_move && spec_pseudo_legal(*self, m),
            self.sboard().spec_piece_at(lan_move.from) is None ==> r is None,
            (exists|m: ChessMove| #[trigger] self.spec_generated(m) && m.spec_lan() == lan_move) ==> r is Some,
    {
        let piece = match self.board().get_piece_at(lan_move.from) {
            Some(p) => p,
            None => {
                proof {
                    if exists|m: ChessMove| #[trigger] self.spec_generated(m) && m.spec_lan() == lan_move {
                        let m = choose|m: ChessMove| #[trigger] self.spec_generated(m) && m.spec_lan() == lan_move;
                        lemma_generated_shape(*self, m);
                    }
                }
                return None;
            },
        };
        let moves = if self.board().get_piece_at(lan_move.to).is_some() {
            self.capture_candidates(lan_move, piece)
        } else {
            self.quiet_candidates(lan_move, piece)
        };
        let mut result: Option<ChessMove> = None;
        let mut i: usize = 0;
        while i < moves.len()
            invariant
                i <= moves@.len(),
                forall|k: int| 0 <= k < moves@.len() ==> spec_pseudo_legal(*self, #[trigger] moves@[k]),
                result matches Some(m) ==> m.spec_lan() == lan_move && spec_pseudo_legal(*self, m),
                (exists|k: int| 0 <= k < i && (#[trigger] moves@[k]).spec_lan() == lan_move) ==> result is Some,
            decreases moves.len() - i,
        {
            let m = moves[i];
            if m.lan() == lan_move {
                result = Some(m);
            }
            i = i + 1;
        }
        proof {
            if exists|m: ChessMove| #[trigger] self.spec_generated(m) && m.spec_lan() == lan_move {
                let m = choose|m: ChessMove| #[trigger] self.spec_generated(m) && m.spec_lan() == lan_move;
                assert(moves@.contains(m));
                let k = choose|k: int| 0 <= k < moves@.len() && moves@[k] == m;
                assert(moves@[k].spec_lan() == lan_move);
            }
        }
        result
    }
}

} // verus!
