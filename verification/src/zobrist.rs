//! [Zobrist hashing] keys.
//!
//! [Zobrist hashing]: https://www.chessprogramming.org/Zobrist_Hashing

use vstd::prelude::*;
use vstd::wrapping::u64_specs::wrapping_mul;

use crate::castling_rights::CastlingRights;
use crate::pieces::{Color, Piece};
use crate::square::{File, Square};

verus! {

/// The pseudo-random key number `n` (the SplitMix64 output for the state `n`).
pub open spec fn zobrist_key(n: u64) -> u64 {
    let z0 = wrapping_mul(n, 0x9E3779B97F4A7C15u64);
    let z1 = wrapping_mul(z0 ^ (z0 >> 30u64), 0xBF58476D1CE4E5B9u64);
    let z2 = wrapping_mul(z1 ^ (z1 >> 27u64), 0x94D049BB133111EBu64);
    z2 ^ (z2 >> 31u64)
}

/// Offset of the turn keys among the key numbers.
pub open spec fn turn_offset() -> int {
    768
}

/// Offset of the en passant keys among the key numbers.
pub open spec fn en_passant_offset() -> int {
    770
}

/// Offset of the castling keys among the key numbers.
pub open spec fn castling_offset() -> int {
    779
}

/// Computes the key number `n`.
fn random_key(n: u64) -> (r: u64)
    ensures
        r == zobrist_key(n),
{
    let z0 = n.wrapping_mul(0x9E3779B97F4A7C15);
    let z1 = (z0 ^ (z0 >> 30u64)).wrapping_mul(0xBF58476D1CE4E5B9);
    let z2 = (z1 ^ (z1 >> 27u64)).wrapping_mul(0x94D049BB133111EB);
    z2 ^ (z2 >> 31u64)
}

/// The key number of a piece of the color and kind on the square: one number
/// for each color, kind and square, below the other keys' numbers.
pub open spec fn square_key_index(color: Color, piece: Piece, sq: Square) -> int {
    (piece.idx() * 2 + (if color == Color::White { 0int } else { 1int })) * 64 + sq.idx()
}

/// The key of a piece of the color and kind on the square.
#[verifier::opaque]
pub open spec fn spec_square_zobrist(color: Color, piece: Piece, sq: Square) -> u64 {
    zobrist_key(square_key_index(color, piece, sq) as u64)
}

/// Each color, kind and square has a key number of its own, and the numbers
/// lie below those of the turn, en passant and castling keys.
pub proof fn lemma_square_key_index_injective(c1: Color, p1: Piece, s1: Square, c2: Color, p2: Piece, s2: Square)
    ensures
        0 <= square_key_index(c1, p1, s1) < turn_offset(),
        square_key_index(c1, p1, s1) == square_key_index(c2, p2, s2) ==> c1 == c2 && p1 == p2 && s1 == s2,
{
    reveal(square_key_index);
    s1.lemma_repr_roundtrip();
    s2.lemma_repr_roundtrip();
    if square_key_index(c1, p1, s1) == square_key_index(c2, p2, s2) {
        Square::lemma_idx_injective(s1, s2);
    }
}

/// The xor-shift steps of the key mixing lose no information.
proof fn lemma_xor_shift_injective(a: u64, b: u64)
    by (bit_vector)
    ensures
        a ^ (a >> 30u64) == b ^ (b >> 30u64) ==> a == b,
        a ^ (a >> 27u64) == b ^ (b >> 27u64) ==> a == b,
        a ^ (a >> 31u64) == b ^ (b >> 31u64) ==> a == b,
{
}

/// Multiplying by `c` modulo 2^64 is undone by multiplying by `ci` when
/// `c * ci` is one more than a multiple of 2^64.
proof fn lemma_wrapping_mul_undone(x: u64, c: u64, ci: u64, k: int)
    requires
        k >= 0,
        c as int * ci as int == 1 + k * 0x1_0000_0000_0000_0000,
    ensures
        wrapping_mul(wrapping_mul(x, c), ci) == x,
{
    let m: int = 0x1_0000_0000_0000_0000;
    let xc: int = x as int * c as int;
    vstd::arithmetic::div_mod::lemma_mul_mod_noop_left(xc, ci as int, m);
    assert(xc * ci as int == m * (x as int * k) + x as int) by (nonlinear_arith)
        requires
            xc == x as int * c as int,
            c as int * ci as int == 1 + k * m,
            m == 0x1_0000_0000_0000_0000,
    ;
    vstd::arithmetic::div_mod::lemma_mod_multiples_vanish(x as int * k, x as int, m);
    vstd::arithmetic::div_mod::lemma_small_mod(x as nat, m as nat);
}

/// Different key numbers give different keys: each step of the mixing can be
/// undone.
pub proof fn lemma_zobrist_key_injective(a: u64, b: u64)
    ensures
        zobrist_key(a) == zobrist_key(b) ==> a == b,
{
    if zobrist_key(a) == zobrist_key(b) {
        let a0 = wrapping_mul(a, 0x9E3779B97F4A7C15u64);
        let b0 = wrapping_mul(b, 0x9E3779B97F4A7C15u64);
        let a1 = wrapping_mul(a0 ^ (a0 >> 30u64), 0xBF58476D1CE4E5B9u64);
        let b1 = wrapping_mul(b0 ^ (b0 >> 30u64), 0xBF58476D1CE4E5B9u64);
        let a2 = wrapping_mul(a1 ^ (a1 >> 27u64), 0x94D049BB133111EBu64);
        let b2 = wrapping_mul(b1 ^ (b1 >> 27u64), 0x94D049BB133111EBu64);
        lemma_xor_shift_injective(a2, b2);
        assert(a2 == b2);
        lemma_wrapping_mul_undone(a1 ^ (a1 >> 27u64), 0x94D049BB133111EBu64, 0x319642b2d24d8ec3u64, 2077064247507883091);
        lemma_wrapping_mul_undone(b1 ^ (b1 >> 27u64), 0x94D049BB133111EBu64, 0x319642b2d24d8ec3u64, 2077064247507883091);
        lemma_xor_shift_injective(a1, b1);
        assert(a1 == b1);
        lemma_wrapping_mul_undone(a0 ^ (a0 >> 30u64), 0xBF58476D1CE4E5B9u64, 0x96de1b173f119089u64, 8125545580553827436);
        lemma_wrapping_mul_undone(b0 ^ (b0 >> 30u64), 0xBF58476D1CE4E5B9u64, 0x96de1b173f119089u64, 8125545580553827436);
        lemma_xor_shift_injective(a0, b0);
        assert(a0 == b0);
        lemma_wrapping_mul_undone(a, 0x9E3779B97F4A7C15u64, 0xf1de83e19937733du64, 10771413168148108919);
        lemma_wrapping_mul_undone(b, 0x9E3779B97F4A7C15u64, 0xf1de83e19937733du64, 10771413168148108919);
    }
}

/// Every piece of a color and kind on a square has a key of its own, and it
/// differs from each key of the turn, the en passant files and the castling
/// rights.
pub proof fn lemma_square_zobrist_distinct(c1: Color, p1: Piece, s1: Square, c2: Color, p2: Piece, s2: Square)
    ensures
        spec_square_zobrist(c1, p1, s1) == spec_square_zobrist(c2, p2, s2) ==> c1 == c2 && p1 == p2 && s1 == s2,
        forall|n: u64| turn_offset() <= n ==> spec_square_zobrist(c1, p1, s1) != #[trigger] zobrist_key(n),
{
    reveal(spec_square_zobrist);
    lemma_square_key_index_injective(c1, p1, s1, c2, p2, s2);
    lemma_square_key_index_injective(c2, p2, s2, c1, p1, s1);
    lemma_zobrist_key_injective(square_key_index(c1, p1, s1) as u64, square_key_index(c2, p2, s2) as u64);
    assert forall|n: u64| turn_offset() <= n implies spec_square_zobrist(c1, p1, s1) != #[trigger] zobrist_key(n) by {
        lemma_zobrist_key_injective(square_key_index(c1, p1, s1) as u64, n);
    }
}

/// The key of the side to move.
pub open spec fn spec_turn_zobrist(turn: Color) -> u64 {
    zobrist_key((turn_offset() + if turn == Color::White { 0int } else { 1int }) as u64)
}

/// The key of the en passant file (or of its absence).
pub open spec fn spec_en_passant_zobrist(en_passant: Option<File>) -> u64 {
    zobrist_key(
        (en_passant_offset() + match en_passant {
            Some(f) => f.idx() + 1,
            None => 0,
        }) as u64,
    )
}

/// The key of the castling rights.
pub open spec fn spec_castling_zobrist(castling_rights: CastlingRights) -> u64 {
    zobrist_key((castling_offset() + castling_rights.0) as u64)
}

/// Computes a [zobrist hash] for a chess piece.
///
/// Each color, kind and square has its own key.
///
/// [zobrist hash]: https://www.chessprogramming.org/Zobrist_Hashing
pub fn get_square_zobrist(color: Color, piece: Piece, sq: Square) -> (r: u64)
    ensures
        r == spec_square_zobrist(color, piece, sq),
        r == zobrist_key(square_key_index(color, piece, sq) as u64),
{
    proof {
        sq.lemma_repr_roundtrip();
        reveal(square_key_index);
        reveal(spec_square_zobrist);
    }
    let index = ((piece.repr() as u64) * 2 + color.repr() as u64) * 64 + sq.repr() as u64;
    random_key(index)
}

/// Computes a [zobrist hash] for the position's turn.
///
/// [zobrist hash]: https://www.chessprogramming.org/Zobrist_Hashing
pub fn get_turn_zobrist(turn: Color) -> (r: u64)
    ensures
        r == spec_turn_zobrist(turn),
{
    random_key(768 + turn.repr() as u64)
}

/// Computes a [zobrist hash] for the available en passant of a position.
///
/// [zobrist hash]: https://www.chessprogramming.org/Zobrist_Hashing
pub fn get_en_passant_zobrist(en_passant: Option<File>) -> (r: u64)
    ensures
        r == spec_en_passant_zobrist(en_passant),
{
    match en_passant {
        Some(file) => {
            proof {
                file.lemma_repr_roundtrip();
            }
            random_key(770 + file.repr() as u64 + 1)
        },
        None => random_key(770),
    }
}

/// Computes a [zobrist hash] for the current castling rights of a position.
///
/// [zobrist hash]: https://www.chessprogramming.org/Zobrist_Hashing
pub fn get_castling_zobrist(castling_rights: CastlingRights) -> (r: u64)
    ensures
        r == spec_castling_zobrist(castling_rights),
{
    random_key(779 + castling_rights.bits() as u64)
}

} // verus!
