//! Squares attacked by each kind of piece.

use vstd::prelude::*;

use crate::bitboard::{bit, BitBoard};
use crate::pieces::Color;
use crate::square::Square;

verus! {

/// Whether the rank and file name a square of the board.
pub open spec fn on_board(r: int, f: int) -> bool {
    0 <= r < 8 && 0 <= f < 8
}

/// The word with only the square on rank `r` and file `f` set, or `0` off the board.
pub open spec fn sq_bit(r: int, f: int) -> u64 {
    if on_board(r, f) {
        1u64 << ((r * 8 + f) as u64)
    } else {
        0
    }
}

/// The square `dr` ranks and `df` files away from `s`, as a word (`0` off the board).
pub open spec fn step(s: Square, dr: int, df: int) -> u64 {
    sq_bit(s.idx() / 8 + dr, s.idx() % 8 + df)
}

/// Squares a knight on `s` jumps to.
pub open spec fn knight_spec(s: Square) -> u64 {
    step(s, 1, 2) | step(s, 2, 1) | step(s, 2, -1) | step(s, 1, -2) | step(s, -1, -2) | step(
        s,
        -2,
        -1,
    ) | step(s, -2, 1) | step(s, -1, 2)
}

/// Squares a king on `s` steps to.
pub open spec fn king_spec(s: Square) -> u64 {
    step(s, 1, -1) | step(s, 1, 0) | step(s, 1, 1) | step(s, 0, -1) | step(s, 0, 1) | step(
        s,
        -1,
        -1,
    ) | step(s, -1, 0) | step(s, -1, 1)
}

/// Squares a pawn of the color on `s` captures on.
pub open spec fn pawn_attack_spec(s: Square, color: Color) -> u64 {
    if color == Color::White {
        step(s, 1, -1) | step(s, 1, 1)
    } else {
        step(s, -1, -1) | step(s, -1, 1)
    }
}

/// The squares seen from rank `r`, file `f` in the direction `(dr, df)`, up to `n` steps:
/// every square up to and including the first occupied one.
pub open spec fn ray(occ: u64, r: int, f: int, dr: int, df: int, n: nat) -> u64
    decreases n,
{
    if n == 0 || !on_board(r + dr, f + df) {
        0
    } else if bit(occ, (r + dr) * 8 + f + df) {
        sq_bit(r + dr, f + df)
    } else {
        sq_bit(r + dr, f + df) | ray(occ, r + dr, f + df, dr, df, (n - 1) as nat)
    }
}

/// The ray from a square in the direction `(dr, df)`.
pub open spec fn ray_from(occ: u64, s: Square, dr: int, df: int) -> u64 {
    ray(occ, s.idx() / 8, s.idx() % 8, dr, df, 7)
}

/// Attacks along the rank.
pub open spec fn rank_spec(occ: u64, s: Square) -> u64 {
    ray_from(occ, s, 0, 1) | ray_from(occ, s, 0, -1)
}

/// Attacks along the file.
pub open spec fn file_spec(occ: u64, s: Square) -> u64 {
    ray_from(occ, s, 1, 0) | ray_from(occ, s, -1, 0)
}

/// Attacks along the positive diagonal.
pub open spec fn diagonal_spec(occ: u64, s: Square) -> u64 {
    ray_from(occ, s, 1, 1) | ray_from(occ, s, -1, -1)
}

/// Attacks along the negative diagonal.
pub open spec fn antidiag_spec(occ: u64, s: Square) -> u64 {
    ray_from(occ, s, 1, -1) | ray_from(occ, s, -1, 1)
}

/// Attacks of a bishop.
pub open spec fn bishop_spec(occ: u64, s: Square) -> u64 {
    diagonal_spec(occ, s) | antidiag_spec(occ, s)
}

/// Attacks of a rook.
pub open spec fn rook_spec(occ: u64, s: Square) -> u64 {
    file_spec(occ, s) | rank_spec(occ, s)
}

/// Attacks of a queen.
pub open spec fn queen_spec(occ: u64, s: Square) -> u64 {
    bishop_spec(occ, s) | rook_spec(occ, s)
}

/// Single pushes of the pawns of the color onto `empty` squares.
pub open spec fn pawn_push_spec(pawns: u64, empty: u64, color: Color) -> u64 {
    ((pawns << 8u64) >> (if color == Color::White { 0u64 } else { 16u64 })) & empty
}

/// `d` moves along an axis the way the step `dr` does: forwards, backwards or
/// not at all.
pub open spec fn same_way(dr: int, d: int) -> bool {
    &&& dr > 0 ==> d > 0
    &&& dr < 0 ==> d < 0
    &&& dr == 0 ==> d == 0
}

/// Every square of a ray lies in the ray's direction from its start.
pub proof fn lemma_ray_direction(occ: u64, r: int, f: int, dr: int, df: int, n: nat, j: int)
    requires
        0 <= j < 64,
        -1 <= dr <= 1,
        -1 <= df <= 1,
        bit(ray(occ, r, f, dr, df, n), j),
    ensures
        same_way(dr, j / 8 - r),
        same_way(df, j % 8 - f),
    decreases n,
{
    if n == 0 || !on_board(r + dr, f + df) {
        crate::bitboard::lemma_bits_of_constants(j as u64);
    } else {
        let k = (r + dr) * 8 + f + df;
        crate::bitboard::lemma_bit_single(k);
        if bit(occ, k) {
            assert(j == k);
        } else {
            crate::bitboard::lemma_bit_ops(sq_bit(r + dr, f + df), ray(occ, r + dr, f + df, dr, df, (n - 1) as nat));
            if j != k {
                lemma_ray_direction(occ, r + dr, f + df, dr, df, (n - 1) as nat, j);
            }
        }
    }
}

/// No square is reached from the same square both along a diagonal and along
/// a rank or a file: the bishop's and the rook's squares are apart.
pub proof fn lemma_bishop_rook_apart(occ: u64, s: Square, j: int)
    requires
        0 <= j < 64,
    ensures
        !(bit(bishop_spec(occ, s), j) && bit(rook_spec(occ, s), j)),
{
    let r = s.idx() / 8;
    let f = s.idx() % 8;
    crate::bitboard::lemma_bit_ops(ray_from(occ, s, 1, 1), ray_from(occ, s, -1, -1));
    crate::bitboard::lemma_bit_ops(ray_from(occ, s, 1, -1), ray_from(occ, s, -1, 1));
    crate::bitboard::lemma_bit_ops(diagonal_spec(occ, s), antidiag_spec(occ, s));
    crate::bitboard::lemma_bit_ops(ray_from(occ, s, 1, 0), ray_from(occ, s, -1, 0));
    crate::bitboard::lemma_bit_ops(ray_from(occ, s, 0, 1), ray_from(occ, s, 0, -1));
    crate::bitboard::lemma_bit_ops(file_spec(occ, s), rank_spec(occ, s));
    if bit(bishop_spec(occ, s), j) {
        if bit(ray_from(occ, s, 1, 1), j) {
            lemma_ray_direction(occ, r, f, 1, 1, 7, j);
        } else if bit(ray_from(occ, s, -1, -1), j) {
            lemma_ray_direction(occ, r, f, -1, -1, 7, j);
        } else if bit(ray_from(occ, s, 1, -1), j) {
            lemma_ray_direction(occ, r, f, 1, -1, 7, j);
        } else {
            lemma_ray_direction(occ, r, f, -1, 1, 7, j);
        }
        if bit(ray_from(occ, s, 1, 0), j) {
            lemma_ray_direction(occ, r, f, 1, 0, 7, j);
        } else if bit(ray_from(occ, s, -1, 0), j) {
            lemma_ray_direction(occ, r, f, -1, 0, 7, j);
        } else if bit(ray_from(occ, s, 0, 1), j) {
            lemma_ray_direction(occ, r, f, 0, 1, 7, j);
        } else if bit(ray_from(occ, s, 0, -1), j) {
            lemma_ray_direction(occ, r, f, 0, -1, 7, j);
        }
    }
}

/// The bits of a step: only the target square, when it is on the board.
pub proof fn lemma_step_bits(s: Square, dr: int, df: int, j: int)
    requires
        0 <= j < 64,
    ensures
        bit(step(s, dr, df), j) <==> (on_board(s.idx() / 8 + dr, s.idx() % 8 + df) && j == (s.idx()
            / 8 + dr) * 8 + s.idx() % 8 + df),
{
    s.lemma_repr_roundtrip();
    let r = s.idx() / 8 + dr;
    let f = s.idx() % 8 + df;
    if on_board(r, f) {
        crate::bitboard::lemma_bit_single(r * 8 + f);
    } else {
        if 0 <= j < 64 {
            crate::bitboard::lemma_bits_of_constants(j as u64);
        }
    }
}

/// The squares a pawn captures on are on the next rank (from the pawn's side)
/// and on a neighbouring file.
pub proof fn lemma_pawn_attack_bits(s: Square, color: Color, j: int)
    requires
        0 <= j < 64,
    ensures
        bit(pawn_attack_spec(s, color), j) <==> (j / 8 == s.idx() / 8 + (if color == Color::White { 1int } else { -1int })
            && (j % 8 == s.idx() % 8 - 1 || j % 8 == s.idx() % 8 + 1)),
{
    let dr: int = if color == Color::White { 1 } else { -1 };
    s.lemma_repr_roundtrip();
    lemma_step_bits(s, dr, -1, j);
    lemma_step_bits(s, dr, 1, j);
    crate::bitboard::lemma_bit_ops(step(s, dr, -1), step(s, dr, 1));
}

/// The word for one square given by rank and file, `0` off the board.
fn square_bit(r: i8, f: i8) -> (b: u64)
    requires
        -16 <= r <= 16,
        -16 <= f <= 16,
    ensures
        b == sq_bit(r as int, f as int),
{
    if 0 <= r && r < 8 && 0 <= f && f < 8 {
        1u64 << ((r * 8 + f) as u64)
    } else {
        0
    }
}

/// The ray from rank `r`, file `f` in direction `(dr, df)`, up to `n` steps.
fn ray_attacks(occ: u64, r: i8, f: i8, dr: i8, df: i8, n: u8) -> (b: u64)
    requires
        -1 <= r <= 8,
        -1 <= f <= 8,
        -1 <= dr <= 1,
        -1 <= df <= 1,
    ensures
        b == ray(occ, r as int, f as int, dr as int, df as int, n as nat),
    decreases n,
{
    if n == 0 {
        return 0;
    }
    let r1 = r + dr;
    let f1 = f + df;
    if !(0 <= r1 && r1 < 8 && 0 <= f1 && f1 < 8) {
        return 0;
    }
    let i = (r1 * 8 + f1) as u64;
    let b = 1u64 << i;
    let blocked = occ & b != 0;
    proof {
        assert(i < 64 ==> ((occ & (1u64 << i)) != 0 <==> (occ >> i) & 1u64 == 1u64))
            by (bit_vector);
    }
    if blocked {
        b
    } else {
        b | ray_attacks(occ, r1, f1, dr, df, n - 1)
    }
}

impl BitBoard {
    /// The word of the square `dr` ranks and `df` files away from `sq` (`0` off the board).
    fn step_from(sq: Square, dr: i8, df: i8) -> (b: u64)
        requires
            -2 <= dr <= 2,
            -2 <= df <= 2,
        ensures
            b == step(sq, dr as int, df as int),
    {
        let r = sq.rank().repr() as i8;
        let f = sq.file().repr() as i8;
        proof {
            sq.lemma_repr_roundtrip();
        }
        square_bit(r + dr, f + df)
    }

    /// The ray from `sq` in direction `(dr, df)`.
    fn ray_from(occ: BitBoard, sq: Square, dr: i8, df: i8) -> (b: u64)
        requires
            -1 <= dr <= 1,
            -1 <= df <= 1,
        ensures
            b == ray_from(occ.0, sq, dr as int, df as int),
    {
        proof {
            sq.lemma_repr_roundtrip();
        }
        ray_attacks(occ.0, sq.rank().repr() as i8, sq.file().repr() as i8, dr, df, 7)
    }

    /// Squares a pawn of the given color on `sq` attacks.
    pub fn pawn_attacks(sq: Square, color: Color) -> (r: BitBoard)
        ensures
            r.0 == pawn_attack_spec(sq, color),
    {
        let dr: i8 = if color == Color::White { 1 } else { -1 };
        BitBoard(Self::step_from(sq, dr, -1) | Self::step_from(sq, dr, 1))
    }

    /// Squares a knight on `sq` attacks.
    pub fn knight_attacks(sq: Square) -> (r: BitBoard)
        ensures
            r.0 == knight_spec(sq),
    {
        BitBoard(
            Self::step_from(sq, 1, 2) | Self::step_from(sq, 2, 1) | Self::step_from(sq, 2, -1)
                | Self::step_from(sq, 1, -2) | Self::step_from(sq, -1, -2) | Self::step_from(
                sq,
                -2,
                -1,
            ) | Self::step_from(sq, -2, 1) | Self::step_from(sq, -1, 2),
        )
    }

    /// Squares a king on `sq` attacks.
    pub fn king_attacks(sq: Square) -> (r: BitBoard)
        ensures
            r.0 == king_spec(sq),
    {
        BitBoard(
            Self::step_from(sq, 1, -1) | Self::step_from(sq, 1, 0) | Self::step_from(sq, 1, 1)
                | Self::step_from(sq, 0, -1) | Self::step_from(sq, 0, 1) | Self::step_from(
                sq,
                -1,
                -1,
            ) | Self::step_from(sq, -1, 0) | Self::step_from(sq, -1, 1),
        )
    }

    /// Squares attacked along the positive diagonal through `sq`, given the occupancy.
    pub fn diagonal_attacks(occ: BitBoard, sq: Square) -> (r: BitBoard)
        ensures
            r.0 == diagonal_spec(occ.0, sq),
    {
        BitBoard(Self::ray_from(occ, sq, 1, 1) | Self::ray_from(occ, sq, -1, -1))
    }

    /// Squares attacked along the negative diagonal through `sq`, given the occupancy.
    pub fn antidiag_attacks(occ: BitBoard, sq: Square) -> (r: BitBoard)
        ensures
            r.0 == antidiag_spec(occ.0, sq),
    {
        BitBoard(Self::ray_from(occ, sq, 1, -1) | Self::ray_from(occ, sq, -1, 1))
    }

    /// Squares attacked along the rank of `sq`, given the occupancy.
    pub fn rank_attacks(occ: BitBoard, sq: Square) -> (r: BitBoard)
        ensures
            r.0 == rank_spec(occ.0, sq),
    {
        BitBoard(Self::ray_from(occ, sq, 0, 1) | Self::ray_from(occ, sq, 0, -1))
    }

    /// Squares attacked along the file of `sq`, given the occupancy.
    pub fn file_attacks(occ: BitBoard, sq: Square) -> (r: BitBoard)
        ensures
            r.0 == file_spec(occ.0, sq),
    {
        BitBoard(Self::ray_from(occ, sq, 1, 0) | Self::ray_from(occ, sq, -1, 0))
    }

    /// Squares a bishop on `sq` attacks, given the occupancy.
    pub fn bishop_attacks(occ: BitBoard, sq: Square) -> (r: BitBoard)
        ensures
            r.0 == bishop_spec(occ.0, sq),
    {
        BitBoard::diagonal_attacks(occ, sq).bitor(BitBoard::antidiag_attacks(occ, sq))
    }

    /// Squares a rook on `sq` attacks, given the occupancy.
    pub fn rook_attacks(occ: BitBoard, sq: Square) -> (r: BitBoard)
        ensures
            r.0 == rook_spec(occ.0, sq),
    {
        BitBoard::file_attacks(occ, sq).bitor(BitBoard::rank_attacks(occ, sq))
    }

    /// Squares a queen on `sq` attacks, given the occupancy.
    pub fn queen_attacks(occ: BitBoard, sq: Square) -> (r: BitBoard)
        ensures
            r.0 == queen_spec(occ.0, sq),
    {
        BitBoard::bishop_attacks(occ, sq).bitor(BitBoard::rook_attacks(occ, sq))
    }

    /// Squares the pawns of the given color move to with a single push onto `empty` squares.
    pub fn pawn_pushes(pawns: BitBoard, empty: BitBoard, color: Color) -> (r: BitBoard)
        ensures
            r.0 == pawn_push_spec(pawns.0, empty.0, color),
    {
        let shift: u64 = if color == Color::White { 0 } else { 16 };
        BitBoard(((pawns.0 << 8u64) >> shift) & empty.0)
    }
}

} // verus!
