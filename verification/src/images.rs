//! Text pictures of bitboards and boards, and the squares of a bitboard one
//! by one.

use vstd::prelude::*;
use vstd::string::*;

use crate::bitboard::BitBoard;
use crate::board::Board;
use crate::fen::cell_of;
use crate::pieces::{spec_piece_to_fen, Color, Piece};
use crate::square::{File, Rank, Square};

verus! {

/// The picture of square `k` of a bitboard: `1` when it is set, `_` when not,
/// and a space.
pub open spec fn bb_cell_image(x: u64, k: int) -> Seq<char> {
    (if (x >> (k as u64)) & 1u64 != 0 {
        "1"@
    } else {
        "_"@
    }) + " "@
}

/// The pictures of the first `n` squares of row `y` of a bitboard.
pub open spec fn bb_cells_image(x: u64, y: int, n: int) -> Seq<char>
    decreases n,
{
    if n <= 0 {
        Seq::empty()
    } else {
        bb_cells_image(x, y, n - 1) + bb_cell_image(x, 8 * y + n - 1)
    }
}

/// The picture of row `y` of a bitboard: an indent, its squares, a line break.
pub open spec fn bb_row_image(x: u64, y: int) -> Seq<char> {
    "  "@ + bb_cells_image(x, y, 8) + "\n"@
}

/// The pictures of the rows below `n` of a bitboard, the highest first.
pub open spec fn bb_rows_image(x: u64, n: int) -> Seq<char>
    decreases n,
{
    if n <= 0 {
        Seq::empty()
    } else {
        bb_row_image(x, n - 1) + bb_rows_image(x, n - 1)
    }
}

impl BitBoard {
    /// Draws the bitboard as seen from the white side: the eighth rank on
    /// top, set squares as `1` and empty ones as `_`.
    pub fn image_string(self) -> (r: String)
        ensures
            r@ == "Bitboard (white side view) {\n"@ + bb_rows_image(self.0, 8) + "}"@,
    {
        let x = self.0;
        let mut drawing = String::new();
        let mut y: u64 = 0;
        proof {
            assert(drawing@ =~= bb_rows_image(x, 0));
        }
        while y < 8
            invariant
                y <= 8,
                x == self.0,
                drawing@ == bb_rows_image(x, y as int),
            decreases 8 - y,
        {
            let mut row = String::from_str("  ");
            let mut k: u64 = 0;
            proof {
                assert(row@ =~= "  "@ + bb_cells_image(x, y as int, 0));
            }
            while k < 8
                invariant
                    y < 8,
                    k <= 8,
                    row@ == "  "@ + bb_cells_image(x, y as int, k as int),
                decreases 8 - k,
            {
                let ghost before = row@;
                if (x >> (8 * y + k)) & 1 != 0 {
                    row.append("1");
                } else {
                    row.append("_");
                }
                row.append(" ");
                proof {
                    assert(row@ =~= before + bb_cell_image(x, 8 * y + k));
                }
                k = k + 1;
            }
            row.append("\n");
            row.append(drawing.as_str());
            proof {
                assert(row@ =~= bb_row_image(x, y as int) + bb_rows_image(x, y as int));
            }
            drawing = row;
            y = y + 1;
        }
        let mut image = String::from_str("Bitboard (white side view) {\n");
        image.append(drawing.as_str());
        image.append("}");
        image
    }
}

/// The squares of a bitboard, handed out one by one from the lowest.
pub struct Serialized(pub BitBoard);

impl Serialized {
    /// Hands out the lowest square left, or `None` when none is left.
    pub fn next(&mut self) -> (r: Option<Square>)
        ensures
            old(self).0.0 == 0 ==> r is None && final(self).0.0 == 0,
            old(self).0.0 != 0 ==> r == Some(old(self).0.squares()[0]) && old(self).0.squares() == seq![
                r.unwrap(),
            ] + final(self).0.squares(),
    {
        self.0.iterator_next()
    }
}

impl BitBoard {
    /// Hands out the squares of the bitboard one by one.
    pub fn serialize(self) -> (r: Serialized)
        ensures
            r.0 == self,
    {
        Serialized(self)
    }
}

/// The picture of a board square: the FEN letter of its piece, or `_`, and
/// a space.
pub open spec fn cell_image(b: Board, sq: Square) -> Seq<char> {
    (match cell_of(b, sq) {
        Some((c, p)) => seq![spec_piece_to_fen(c, p)],
        None => "_"@,
    }) + " "@
}

/// The square of a rank and a file, by their indices.
pub open spec fn square_at(r: int, f: int) -> Square {
    Square::spec_new(Rank::spec_from_repr(r).unwrap(), File::spec_from_repr(f).unwrap())
}

/// The pictures of the first `n` squares of rank `r`.
pub open spec fn cells_image(b: Board, r: int, n: int) -> Seq<char>
    decreases n,
{
    if n <= 0 {
        Seq::empty()
    } else {
        cells_image(b, r, n - 1) + cell_image(b, square_at(r, n - 1))
    }
}

/// The picture of rank `r`: a space, its squares, a line break.
pub open spec fn rank_image(b: Board, r: int) -> Seq<char> {
    " "@ + cells_image(b, r, 8) + "\n"@
}

/// The pictures of the ranks from the eighth down to rank `8 - n`.
pub open spec fn ranks_image(b: Board, n: int) -> Seq<char>
    decreases n,
{
    if n <= 0 {
        Seq::empty()
    } else {
        ranks_image(b, n - 1) + rank_image(b, 8 - n)
    }
}

/// The FEN letter of a piece, as a string.
fn piece_letter(color: Color, piece: Piece) -> (r: &'static str)
    ensures
        r@ == seq![spec_piece_to_fen(color, piece)],
{
    match (color, piece) {
        (Color::White, Piece::Pawn) => {
            proof { reveal_strlit("P"); }
            "P"
        },
        (Color::White, Piece::Knight) => {
            proof { reveal_strlit("N"); }
            "N"
        },
        (Color::White, Piece::Bishop) => {
            proof { reveal_strlit("B"); }
            "B"
        },
        (Color::White, Piece::Rook) => {
            proof { reveal_strlit("R"); }
            "R"
        },
        (Color::White, Piece::Queen) => {
            proof { reveal_strlit("Q"); }
            "Q"
        },
        (Color::White, Piece::King) => {
            proof { reveal_strlit("K"); }
            "K"
        },
        (Color::Black, Piece::Pawn) => {
            proof { reveal_strlit("p"); }
            "p"
        },
        (Color::Black, Piece::Knight) => {
            proof { reveal_strlit("n"); }
            "n"
        },
        (Color::Black, Piece::Bishop) => {
            proof { reveal_strlit("b"); }
            "b"
        },
        (Color::Black, Piece::Rook) => {
            proof { reveal_strlit("r"); }
            "r"
        },
        (Color::Black, Piece::Queen) => {
            proof { reveal_strlit("q"); }
            "q"
        },
        (Color::Black, Piece::King) => {
            proof { reveal_strlit("k"); }
            "k"
        },
    }
}

impl Board {
    /// Draws the board with the eighth rank on top: the FEN letter of each
    /// piece, `_` for an empty square.
    pub fn ascii_image(&self) -> (r: String)
        requires
            self.wf(),
        ensures
            r@ == ranks_image(*self, 8),
    {
        let mut img = String::new();
        let mut n: u8 = 0;
        proof {
            assert(img@ =~= ranks_image(*self, 0));
        }
        while n < 8
            invariant
                n <= 8,
                self.wf(),
                img@ == ranks_image(*self, n as int),
            decreases 8 - n,
        {
            let rank = Rank::from_repr(7 - n).unwrap();
            let ghost r = 7 - n;
            let ghost before = img@;
            img.append(" ");
            let mut f: u8 = 0;
            proof {
                assert(img@ =~= before + " "@ + cells_image(*self, r as int, 0));
            }
            while f < 8
                invariant
                    n < 8,
                    r == 7 - n,
                    f <= 8,
                    self.wf(),
                    rank == Rank::spec_from_repr(r as int).unwrap(),
                    img@ == before + " "@ + cells_image(*self, r as int, f as int),
                decreases 8 - f,
            {
                let file = File::from_repr(f).unwrap();
                let sq = Square::new(rank, file);
                let ghost cells = img@;
                match self.get_color_piece_at(sq) {
                    Some((color, piece)) => img.append(piece_letter(color, piece)),
                    None => img.append("_"),
                }
                img.append(" ");
                proof {
                    assert(sq == square_at(r as int, f as int));
                    assert(img@ =~= cells + cell_image(*self, sq));
                }
                f = f + 1;
            }
            img.append("\n");
            proof {
                assert(img@ =~= ranks_image(*self, n + 1));
            }
            n = n + 1;
        }
        img
    }
}

} // verus!
