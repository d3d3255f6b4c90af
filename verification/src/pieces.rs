//! Colors and kinds of chess pieces.

use vstd::prelude::*;

use crate::square::{File, Rank, Square};

verus! {

/// Color of a chess piece.
#[derive(Debug, Clone, Copy, PartialEq, Eq, Structural, Hash)]
pub enum Color {
    /// White pieces.
    White,
    /// Black pieces.
    Black,
}

impl Color {
    /// The number of colors.
    pub const COUNT: usize = 2;

    /// The opposite color.
    pub open spec fn opp(self) -> Color {
        match self {
            Color::White => Color::Black,
            Color::Black => Color::White,
        }
    }

    /// Returns the opposite color.
    pub fn not(self) -> (r: Color)
        ensures
            r == self.opp(),
    {
        match self {
            Color::White => Color::Black,
            Color::Black => Color::White,
        }
    }

    /// Returns `0` for white and `1` for black.
    pub fn repr(self) -> (r: u8)
        ensures
            r == (if self == Color::White { 0u8 } else { 1u8 }),
    {
        match self {
            Color::White => 0,
            Color::Black => 1,
        }
    }

    /// Returns the color with the given representation (`0` white, `1` black).
    pub fn from_repr(i: u8) -> (r: Option<Color>)
        ensures
            r == (if i == 0 { Some(Color::White) } else if i == 1 { Some(Color::Black) } else { None }),
    {
        match i {
            0 => Some(Color::White),
            1 => Some(Color::Black),
            _ => None,
        }
    }

    /// The square as seen from this color's side of the board.
    pub open spec fn spec_mirror_square(self, square: Square) -> Square {
        match self {
            Color::White => square,
            Color::Black => Square::spec_new(
                Rank::spec_from_repr(7 - square.idx() / 8).unwrap(),
                square.spec_file(),
            ),
        }
    }

    /// The index of a mirrored square.
    pub proof fn lemma_mirror_idx(self, square: Square)
        ensures
            self.spec_mirror_square(square).idx() == (if self == Color::White { square.idx() } else { (7
                - square.idx() / 8) * 8 + square.idx() % 8 }),
    {
        square.lemma_repr_roundtrip();
        Rank::lemma_from_repr_in_range(7 - square.idx() / 8);
        File::lemma_from_repr_in_range(square.idx() % 8);
        Square::lemma_from_repr_in_range((7 - square.idx() / 8) * 8 + square.idx() % 8);
    }

    /// Returns the same square for white and mirrors the square for black.
    pub fn mirror_square(self, square: Square) -> (r: Square)
        ensures
            r == self.spec_mirror_square(square),
            r.idx() == (if self == Color::White { square.idx() } else { (7 - square.idx() / 8) * 8
                + square.idx() % 8 }),
    {
        match self {
            Color::White => square,
            Color::Black => {
                let rank = square.rank().mirrored();
                proof {
                    Rank::lemma_from_repr_in_range(7 - square.idx() / 8);
                    Rank::lemma_idx_injective(rank, Rank::spec_from_repr(7 - square.idx() / 8).unwrap());
                }
                Square::new(rank, square.file())
            },
        }
    }

    /// Returns the same rank for white and mirrors the rank for black.
    pub fn mirror_rank(self, rank: Rank) -> (r: Rank)
        ensures
            r.idx() == (if self == Color::White { rank.idx() } else { 7 - rank.idx() }),
    {
        match self {
            Color::White => rank,
            Color::Black => rank.mirrored(),
        }
    }
}

/// Chess piece type.
#[derive(Debug, Clone, Copy, PartialEq, Eq, Structural, Hash)]
pub enum Piece {
    /// Pawn pieces.
    Pawn,
    /// Knight pieces.
    Knight,
    /// Bishop pieces.
    Bishop,
    /// Rook pieces.
    Rook,
    /// Queen pieces.
    Queen,
    /// King pieces.
    King,
}

impl Piece {
    /// The number of piece kinds.
    pub const COUNT: usize = 6;

    /// Position of the kind in the enumeration.
    pub open spec fn idx(self) -> int {
        match self {
            Piece::Pawn => 0,
            Piece::Knight => 1,
            Piece::Bishop => 2,
            Piece::Rook => 3,
            Piece::Queen => 4,
            Piece::King => 5,
        }
    }

    /// Returns the position of the kind in the enumeration.
    pub fn repr(self) -> (r: u8)
        ensures
            r == self.idx(),
    {
        match self {
            Piece::Pawn => 0,
            Piece::Knight => 1,
            Piece::Bishop => 2,
            Piece::Rook => 3,
            Piece::Queen => 4,
            Piece::King => 5,
        }
    }

    /// The promotion to this kind of piece, if pawns promote to it.
    pub open spec fn spec_promotion(self) -> Option<Promotion> {
        match self {
            Piece::Bishop => Some(Promotion::Bishop),
            Piece::Knight => Some(Promotion::Knight),
            Piece::Rook => Some(Promotion::Rook),
            Piece::Queen => Some(Promotion::Queen),
            _ => None,
        }
    }

    /// Convert a [`Piece`] to [`Promotion`] if pawns can promote to this kind of piece.
    pub fn promotion(self) -> (r: Option<Promotion>)
        ensures
            r == self.spec_promotion(),
    {
        match self {
            Piece::Bishop => Some(Promotion::Bishop),
            Piece::Knight => Some(Promotion::Knight),
            Piece::Rook => Some(Promotion::Rook),
            Piece::Queen => Some(Promotion::Queen),
            _ => None,
        }
    }
}

/// Chess piece type that pawns can promote to.
#[derive(Debug, Clone, Copy, PartialEq, Eq, Structural, Hash)]
pub enum Promotion {
    /// Promotion to bishop.
    Bishop,
    /// Promotion to knight.
    Knight,
    /// Promotion to rook.
    Rook,
    /// Promotion to queen.
    Queen,
}

impl Promotion {
    /// The kind of piece the pawn becomes.
    pub open spec fn spec_piece(self) -> Piece {
        match self {
            Promotion::Bishop => Piece::Bishop,
            Promotion::Knight => Piece::Knight,
            Promotion::Rook => Piece::Rook,
            Promotion::Queen => Piece::Queen,
        }
    }

    /// Converts promotion to the underlying piece.
    pub fn piece(self) -> (r: Piece)
        ensures
            r == self.spec_piece(),
            r.spec_promotion() == Some(self),
    {
        match self {
            Promotion::Bishop => Piece::Bishop,
            Promotion::Knight => Piece::Knight,
            Promotion::Rook => Piece::Rook,
            Promotion::Queen => Piece::Queen,
        }
    }

    /// The promotion named by a letter in either case (`b`, `n`, `r`, `q`).
    pub open spec fn spec_from_char(c: char) -> Option<Promotion> {
        if c == 'b' || c == 'B' {
            Some(Promotion::Bishop)
        } else if c == 'n' || c == 'N' {
            Some(Promotion::Knight)
        } else if c == 'r' || c == 'R' {
            Some(Promotion::Rook)
        } else if c == 'q' || c == 'Q' {
            Some(Promotion::Queen)
        } else {
            None
        }
    }

    /// Parses a promotion letter in either case.
    pub fn from_char(c: char) -> (r: Option<Promotion>)
        ensures
            r == Promotion::spec_from_char(c),
    {
        match c {
            'b' | 'B' => Some(Promotion::Bishop),
            'n' | 'N' => Some(Promotion::Knight),
            'r' | 'R' => Some(Promotion::Rook),
            'q' | 'Q' => Some(Promotion::Queen),
            _ => None,
        }
    }

    /// The lower-case letter naming the promotion.
    pub fn name(self) -> (r: &'static str)
        ensures
            r@.len() == 1,
            Promotion::spec_from_char(r@[0]) == Some(self),
    {
        match self {
            Promotion::Bishop => {
                proof {
                    reveal_strlit("b");
                }
                "b"
            },
            Promotion::Knight => {
                proof {
                    reveal_strlit("n");
                }
                "n"
            },
            Promotion::Rook => {
                proof {
                    reveal_strlit("r");
                }
                "r"
            },
            Promotion::Queen => {
                proof {
                    reveal_strlit("q");
                }
                "q"
            },
        }
    }
}

/// The color and kind of the piece written as a letter in FEN.
pub open spec fn spec_piece_from_fen(ch: char) -> Option<(Color, Piece)> {
    let piece = if ch == 'p' || ch == 'P' {
        Some(Piece::Pawn)
    } else if ch == 'n' || ch == 'N' {
        Some(Piece::Knight)
    } else if ch == 'b' || ch == 'B' {
        Some(Piece::Bishop)
    } else if ch == 'r' || ch == 'R' {
        Some(Piece::Rook)
    } else if ch == 'q' || ch == 'Q' {
        Some(Piece::Queen)
    } else if ch == 'k' || ch == 'K' {
        Some(Piece::King)
    } else {
        None
    };
    match piece {
        Some(p) => Some((if 'a' <= ch && ch <= 'z' { Color::Black } else { Color::White }, p)),
        None => None,
    }
}

/// The FEN letter of a piece: upper case for white, lower case for black.
pub open spec fn spec_piece_to_fen(color: Color, piece: Piece) -> char {
    let letter = match piece {
        Piece::Pawn => 'p',
        Piece::Knight => 'n',
        Piece::Bishop => 'b',
        Piece::Rook => 'r',
        Piece::Queen => 'q',
        Piece::King => 'k',
    };
    if color == Color::White {
        ((letter as u32) - 32) as char
    } else {
        letter
    }
}

/// Converts the piece in FEN notation to color/piece kind combination.
pub fn piece_from_fen(ch: char) -> (r: Option<(Color, Piece)>)
    ensures
        r == spec_piece_from_fen(ch),
{
    let piece = match ch {
        'p' | 'P' => Piece::Pawn,
        'n' | 'N' => Piece::Knight,
        'b' | 'B' => Piece::Bishop,
        'r' | 'R' => Piece::Rook,
        'q' | 'Q' => Piece::Queen,
        'k' | 'K' => Piece::King,
        _ => return None,
    };
    let color = match 'a' <= ch && ch <= 'z' {
        true => Color::Black,
        false => Color::White,
    };
    Some((color, piece))
}

/// Converts the color and piece kind to FEN piece.
pub fn piece_to_fen(color: Color, piece: Piece) -> (r: char)
    ensures
        r == spec_piece_to_fen(color, piece),
        spec_piece_from_fen(r) == Some((color, piece)),
{
    match (color, piece) {
        (Color::White, Piece::Pawn) => 'P',
        (Color::White, Piece::Knight) => 'N',
        (Color::White, Piece::Bishop) => 'B',
        (Color::White, Piece::Rook) => 'R',
        (Color::White, Piece::Queen) => 'Q',
        (Color::White, Piece::King) => 'K',
        (Color::Black, Piece::Pawn) => 'p',
        (Color::Black, Piece::Knight) => 'n',
        (Color::Black, Piece::Bishop) => 'b',
        (Color::Black, Piece::Rook) => 'r',
        (Color::Black, Piece::Queen) => 'q',
        (Color::Black, Piece::King) => 'k',
    }
}

} // verus!
