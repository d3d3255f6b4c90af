//! A chess position: the board, the side to move, castling and en passant
//! rights, move counters and the incrementally kept Zobrist hash.

use vstd::prelude::*;

use crate::bitboard::{bit, lemma_bit_ops, lemma_bit_single, squares_of, BitBoard};
use crate::board::Board;
use crate::castling_rights::CastlingRights;
use crate::pieces::{Color, Piece};
use crate::square::{File, Rank, Square};
use crate::zobrist::{
    get_castling_zobrist, get_en_passant_zobrist, get_square_zobrist, get_turn_zobrist,
    spec_castling_zobrist, spec_en_passant_zobrist, spec_square_zobrist, spec_turn_zobrist,
};

verus! {

/// XOR of `f(0), ..., f(n - 1)`.
pub open spec fn xor_upto(f: spec_fn(int) -> u64, n: nat) -> u64
    decreases n,
{
    if n == 0 {
        0
    } else {
        xor_upto(f, (n - 1) as nat) ^ f(n - 1)
    }
}

/// Zero is neutral for exclusive or.
pub proof fn lemma_xor_zero(x: u64)
    by (bit_vector)
    ensures
        x ^ 0u64 == x,
        0u64 ^ x == x,
{
}

/// A value cancels itself under exclusive or.
pub proof fn lemma_xor_cancel(h: u64, a: u64, z: u64, w: u64)
    by (bit_vector)
    ensures
        a ^ (a ^ z) == z,
        (a ^ (a ^ z)) ^ 0u64 == z,
        (a ^ 0u64) ^ (a ^ z) == z,
        (a ^ 0u64) ^ 0u64 == a,
        h ^ a ^ (a ^ z) == h ^ z,
        h ^ a ^ (a ^ z ^ w) == h ^ z ^ w,
        h ^ (a ^ 0u64) ^ (0u64 ^ z) == h ^ a ^ z,
{
}

/// XOR distributes over pointwise XOR of the folded functions.
pub proof fn lemma_xor_upto_split(f: spec_fn(int) -> u64, g: spec_fn(int) -> u64, h: spec_fn(int) -> u64, n: nat)
    requires
        forall|j: int| 0 <= j < n ==> #[trigger] f(j) == g(j) ^ h(j),
    ensures
        xor_upto(f, n) == xor_upto(g, n) ^ xor_upto(h, n),
    decreases n,
{
    if n > 0 {
        lemma_xor_upto_split(f, g, h, (n - 1) as nat);
        let a = xor_upto(g, (n - 1) as nat);
        let b = xor_upto(h, (n - 1) as nat);
        let x = g(n - 1);
        let y = h(n - 1);
        assert(f(n - 1) == x ^ y);
        assert((a ^ b) ^ (x ^ y) == (a ^ x) ^ (b ^ y)) by (bit_vector);
    } else {
        lemma_xor_zero(0u64);
    }
}

/// A fold of a function that is zero except at `k` is the value at `k`.
pub proof fn lemma_xor_upto_single(h: spec_fn(int) -> u64, k: int, n: nat)
    requires
        forall|j: int| j != k ==> #[trigger] h(j) == 0,
    ensures
        xor_upto(h, n) == (if 0 <= k < n { h(k) } else { 0 }),
    decreases n,
{
    if n > 0 {
        lemma_xor_upto_single(h, k, (n - 1) as nat);
        let a = xor_upto(h, (n - 1) as nat);
        let x = h(n - 1);
        lemma_xor_zero(a);
        lemma_xor_zero(x);
    }
}

/// The key contributed by square `i` of the board (`0` when it is empty).
pub open spec fn square_term(b: Board, i: int) -> u64 {
    let s = Square::spec_from_repr(i).unwrap();
    match (b.spec_color_at(s), b.spec_piece_at(s)) {
        (Some(c), Some(p)) => spec_square_zobrist(c, p, s),
        _ => 0,
    }
}

/// XOR of the keys of every piece on the board.
pub open spec fn board_hash(b: Board) -> u64 {
    xor_upto(|i: int| square_term(b, i), 64)
}

/// The Zobrist hash of a position from scratch.
pub open spec fn full_hash(b: Board, turn: Color, castling: CastlingRights, en_passant: Option<File>) -> u64 {
    board_hash(b) ^ spec_turn_zobrist(turn) ^ spec_castling_zobrist(castling)
        ^ spec_en_passant_zobrist(en_passant)
}

/// Exactly one square is set.
pub open spec fn single(x: u64) -> bool {
    squares_of(x).len() == 1
}

/// The largest castling rights a board allows: a side keeps a right only while
/// its king and the corresponding rook stand on their initial squares.
pub open spec fn spec_castling_max(board: Board) -> u8 {
    let wk = board.color_piece_bb(Color::White, Piece::King);
    let wr = board.color_piece_bb(Color::White, Piece::Rook);
    let bk = board.color_piece_bb(Color::Black, Piece::King);
    let br = board.color_piece_bb(Color::Black, Piece::Rook);
    let w: int = if !bit(wk, 4) {
        0
    } else {
        (if bit(wr, 7) { 1int } else { 0 }) + (if bit(wr, 0) { 2int } else { 0 })
    };
    let b: int = if !bit(bk, 60) {
        0
    } else {
        (if bit(br, 63) { 4int } else { 0 }) + (if bit(br, 56) { 8int } else { 0 })
    };
    (w + b) as u8
}

/// Whether the castling rights are possible on the board.
pub open spec fn spec_castling_allowed(board: Board, castling: CastlingRights) -> bool {
    spec_castling_max(board) & castling.0 == castling.0
}

/// The en passant file fits the board: an enemy pawn stands on the file on the
/// fifth rank (from the mover's side) and the square behind it is empty.
pub open spec fn en_passant_fits(board: Board, turn: Color, file: File) -> bool {
    let v = if turn == Color::White { 4int } else { 3int };
    let t = if turn == Color::White { 5int } else { 2int };
    let victim = Square::spec_from_repr(v * 8 + file.idx()).unwrap();
    let target = Square::spec_from_repr(t * 8 + file.idx()).unwrap();
    &&& board.spec_color_at(victim) == Some(turn.opp())
    &&& board.spec_piece_at(victim) == Some(Piece::Pawn)
    &&& board.spec_color_at(target) is None
}

/// Whether an en passant capture on the file could be available: the file fits
/// the board and a pawn of the mover stands next to the enemy pawn.
pub open spec fn spec_en_passant_allowed(board: Board, turn: Color, file: File) -> bool {
    let r = if turn == Color::White { 4int } else { 3int };
    let sq = Square::spec_from_repr(r * 8 + file.idx()).unwrap();
    let bb = 1u64 << (sq.idx() as u64);
    let adj = ((bb >> 1u64) & 0x7f7f7f7f7f7f7f7fu64) | ((bb << 1u64) & 0xfefefefefefefefeu64);
    &&& en_passant_fits(board, turn, file)
    &&& board.color_piece_bb(turn, Piece::Pawn) & adj != 0
}

/// Boards that agree on every square but `k` have hashes differing by the
/// change of the key of square `k`.
pub proof fn lemma_hash_diff(b1: Board, b2: Board, k: int)
    requires
        0 <= k < 64,
        forall|j: int| 0 <= j < 64 && j != k ==> #[trigger] square_term(b2, j) == square_term(b1, j),
    ensures
        board_hash(b2) == board_hash(b1) ^ (square_term(b1, k) ^ square_term(b2, k)),
{
    let f = |i: int| square_term(b2, i);
    let g = |i: int| square_term(b1, i);
    let d = square_term(b1, k) ^ square_term(b2, k);
    let h = |i: int| if i == k { d } else { 0u64 };
    assert forall|j: int| 0 <= j < 64 implies #[trigger] f(j) == g(j) ^ h(j) by {
        let x = square_term(b1, j);
        let y = square_term(b2, j);
        if j == k {
            lemma_xor_cancel(0u64, x, y, 0u64);
        } else {
            lemma_xor_zero(x);
        }
    }
    lemma_xor_upto_split(f, g, h, 64);
    lemma_xor_upto_single(h, k, 64);
}

/// Squares with the same color and kind bits contribute the same key.
pub proof fn lemma_same_square(b1: Board, b2: Board, j: int)
    requires
        0 <= j < 64,
        forall|c: Color| #[trigger] bit(b1.color_bb(c), j) == bit(b2.color_bb(c), j),
        forall|p: Piece| #[trigger] bit(b1.piece_bb(p), j) == bit(b2.piece_bb(p), j),
    ensures
        square_term(b1, j) == square_term(b2, j),
        b1.sq_ok(j) == b2.sq_ok(j),
        b1.spec_color_at(Square::spec_from_repr(j).unwrap()) == b2.spec_color_at(Square::spec_from_repr(j).unwrap()),
        b1.spec_piece_at(Square::spec_from_repr(j).unwrap()) == b2.spec_piece_at(Square::spec_from_repr(j).unwrap()),
{
    Square::lemma_from_repr_in_range(j);
    assert(bit(b1.color_bb(Color::White), j) == bit(b2.color_bb(Color::White), j));
    assert(bit(b1.color_bb(Color::Black), j) == bit(b2.color_bb(Color::Black), j));
    assert(bit(b1.piece_bb(Piece::Pawn), j) == bit(b2.piece_bb(Piece::Pawn), j));
    assert(bit(b1.piece_bb(Piece::Knight), j) == bit(b2.piece_bb(Piece::Knight), j));
    assert(bit(b1.piece_bb(Piece::Bishop), j) == bit(b2.piece_bb(Piece::Bishop), j));
    assert(bit(b1.piece_bb(Piece::Rook), j) == bit(b2.piece_bb(Piece::Rook), j));
    assert(bit(b1.piece_bb(Piece::Queen), j) == bit(b2.piece_bb(Piece::Queen), j));
    assert(bit(b1.piece_bb(Piece::King), j) == bit(b2.piece_bb(Piece::King), j));
}

/// The contents of a square of a consistent board, from its bits.
pub proof fn lemma_square_contents(b: Board, j: int, c: Color, p: Piece)
    requires
        0 <= j < 64,
        b.sq_ok(j),
        bit(b.color_bb(c), j),
        bit(b.piece_bb(p), j),
    ensures
        b.spec_color_at(Square::spec_from_repr(j).unwrap()) == Some(c),
        b.spec_piece_at(Square::spec_from_repr(j).unwrap()) == Some(p),
        square_term(b, j) == spec_square_zobrist(c, p, Square::spec_from_repr(j).unwrap()),
{
    Square::lemma_from_repr_in_range(j);
}

/// An empty square of a consistent board.
pub proof fn lemma_square_empty(b: Board, j: int)
    requires
        0 <= j < 64,
        b.sq_ok(j),
        !bit(b.color_bb(Color::White), j),
        !bit(b.color_bb(Color::Black), j),
    ensures
        b.spec_color_at(Square::spec_from_repr(j).unwrap()) is None,
        b.spec_piece_at(Square::spec_from_repr(j).unwrap()) is None,
        square_term(b, j) == 0,
        forall|p: Piece| !bit(b.piece_bb(p), j),
{
    Square::lemma_from_repr_in_range(j);
    assert forall|p: Piece| !bit(b.piece_bb(p), j) by {
        match p {
            Piece::Pawn => {},
            Piece::Knight => {},
            Piece::Bishop => {},
            Piece::Rook => {},
            Piece::Queen => {},
            Piece::King => {},
        }
    }
}

/// Placing a piece on an empty square of a consistent board.
pub proof fn lemma_board_add(b: Board, c: Color, p: Piece, sq: Square)
    requires
        b.wf(),
        b.spec_color_at(sq) is None,
    ensures
        ({
            let nb = b.spec_mask_or(c, p, 1u64 << (sq.idx() as u64));
            &&& nb.wf()
            &&& nb.spec_color_at(sq) == Some(c)
            &&& nb.spec_piece_at(sq) == Some(p)
            &&& board_hash(nb) == board_hash(b) ^ spec_square_zobrist(c, p, sq)
            &&& forall|s: Square| s != sq ==> nb.spec_color_at(s) == b.spec_color_at(s)
                && nb.spec_piece_at(s) == b.spec_piece_at(s)
        }),
{
    sq.lemma_repr_roundtrip();
    let k = sq.idx();
    let m = 1u64 << (k as u64);
    let nb = b.spec_mask_or(c, p, m);
    b.lemma_with(c, p, b.color_bb(c) | m, b.piece_bb(p) | m);
    lemma_bit_single(k);
    lemma_bit_ops(b.color_bb(c), m);
    lemma_bit_ops(b.piece_bb(p), m);
    assert(b.sq_ok(k));
    lemma_square_empty(b, k);
    assert forall|j: int| 0 <= j < 64 && j != k implies #[trigger] square_term(nb, j) == square_term(b, j) by {
        assert(forall|cc: Color| #[trigger] bit(b.color_bb(cc), j) == bit(nb.color_bb(cc), j));
        assert(forall|pp: Piece| #[trigger] bit(b.piece_bb(pp), j) == bit(nb.piece_bb(pp), j));
        lemma_same_square(b, nb, j);
    }
    assert(bit(nb.color_bb(c), k));
    assert(bit(nb.piece_bb(p), k));
    assert(forall|cc: Color| cc != c ==> !#[trigger] bit(nb.color_bb(cc), k));
    assert(forall|pp: Piece| pp != p ==> !#[trigger] bit(nb.piece_bb(pp), k));
    assert(nb.sq_ok(k)) by {
        assert(!bit(b.color_bb(Color::White), k));
        assert(!bit(b.color_bb(Color::Black), k));
    }
    lemma_square_contents(nb, k, c, p);
    Square::lemma_idx_injective(Square::spec_from_repr(k).unwrap(), sq);
    assert(nb.wf()) by {
        assert forall|j: int| 0 <= j < 64 implies #[trigger] nb.sq_ok(j) by {
            if j != k {
                assert(forall|cc: Color| #[trigger] bit(b.color_bb(cc), j) == bit(nb.color_bb(cc), j));
                assert(forall|pp: Piece| #[trigger] bit(b.piece_bb(pp), j) == bit(nb.piece_bb(pp), j));
                lemma_same_square(b, nb, j);
                assert(b.sq_ok(j));
            }
        }
    }
    assert(nb.spec_color_at(sq) == Some(c));
    assert(nb.spec_piece_at(sq) == Some(p));
    assert(square_term(b, k) == 0);
    lemma_hash_diff(b, nb, k);
    let z = spec_square_zobrist(c, p, sq);
    lemma_xor_zero(z);
    assert forall|s: Square| s != sq implies nb.spec_color_at(s) == b.spec_color_at(s)
        && nb.spec_piece_at(s) == b.spec_piece_at(s) by {
        s.lemma_repr_roundtrip();
        Square::lemma_idx_injective(s, sq);
        Square::lemma_idx_injective(Square::spec_from_repr(s.idx()).unwrap(), s);
        assert(forall|cc: Color| #[trigger] bit(b.color_bb(cc), s.idx()) == bit(nb.color_bb(cc), s.idx()));
        assert(forall|pp: Piece| #[trigger] bit(b.piece_bb(pp), s.idx()) == bit(nb.piece_bb(pp), s.idx()));
        lemma_same_square(b, nb, s.idx());
    }
}


/// Removing a piece from a square of a consistent board.
pub proof fn lemma_board_remove(b: Board, c: Color, p: Piece, sq: Square)
    requires
        b.wf(),
        b.spec_color_at(sq) == Some(c),
        b.spec_piece_at(sq) == Some(p),
    ensures
        ({
            let nb = b.spec_mask_and(c, p, !(1u64 << (sq.idx() as u64)));
            &&& nb.wf()
            &&& nb.spec_color_at(sq) is None
            &&& nb.spec_piece_at(sq) is None
            &&& board_hash(nb) == board_hash(b) ^ spec_square_zobrist(c, p, sq)
            &&& forall|s: Square| s != sq ==> nb.spec_color_at(s) == b.spec_color_at(s)
                && nb.spec_piece_at(s) == b.spec_piece_at(s)
        }),
{
    sq.lemma_repr_roundtrip();
    let k = sq.idx();
    let m1 = 1u64 << (k as u64);
    let m = !m1;
    let nb = b.spec_mask_and(c, p, m);
    b.lemma_with(c, p, b.color_bb(c) & m, b.piece_bb(p) & m);
    lemma_bit_single(k);
    lemma_bit_ops(m1, m1);
    lemma_bit_ops(b.color_bb(c), m);
    lemma_bit_ops(b.piece_bb(p), m);
    assert(b.sq_ok(k));
    Square::lemma_idx_injective(Square::spec_from_repr(k).unwrap(), sq);
    assert(bit(b.color_bb(c), k));
    assert(bit(b.piece_bb(p), k));
    lemma_square_contents(b, k, c, p);
    assert forall|j: int| 0 <= j < 64 && j != k implies #[trigger] square_term(nb, j) == square_term(b, j) by {
        assert(forall|cc: Color| #[trigger] bit(b.color_bb(cc), j) == bit(nb.color_bb(cc), j));
        assert(forall|pp: Piece| #[trigger] bit(b.piece_bb(pp), j) == bit(nb.piece_bb(pp), j));
        lemma_same_square(b, nb, j);
    }
    assert(!bit(nb.color_bb(Color::White), k));
    assert(!bit(nb.color_bb(Color::Black), k)) by {
        assert(!(bit(b.color_bb(Color::White), k) && bit(b.color_bb(Color::Black), k)));
    }
    assert(forall|pp: Piece| !#[trigger] bit(nb.piece_bb(pp), k)) by {
        assert(b.kinds_at(k) == 1);
    }
    assert(nb.sq_ok(k));
    assert(nb.wf()) by {
        assert forall|j: int| 0 <= j < 64 implies #[trigger] nb.sq_ok(j) by {
            if j != k {
                assert(forall|cc: Color| #[trigger] bit(b.color_bb(cc), j) == bit(nb.color_bb(cc), j));
                assert(forall|pp: Piece| #[trigger] bit(b.piece_bb(pp), j) == bit(nb.piece_bb(pp), j));
                lemma_same_square(b, nb, j);
                assert(b.sq_ok(j));
            }
        }
    }
    lemma_square_empty(nb, k);
    lemma_hash_diff(b, nb, k);
    let z = spec_square_zobrist(c, p, sq);
    lemma_xor_zero(z);
    assert forall|s: Square| s != sq implies nb.spec_color_at(s) == b.spec_color_at(s)
        && nb.spec_piece_at(s) == b.spec_piece_at(s) by {
        s.lemma_repr_roundtrip();
        Square::lemma_idx_injective(s, sq);
        Square::lemma_idx_injective(Square::spec_from_repr(s.idx()).unwrap(), s);
        assert(forall|cc: Color| #[trigger] bit(b.color_bb(cc), s.idx()) == bit(nb.color_bb(cc), s.idx()));
        assert(forall|pp: Piece| #[trigger] bit(b.piece_bb(pp), s.idx()) == bit(nb.piece_bb(pp), s.idx()));
        lemma_same_square(b, nb, s.idx());
    }
}

/// Boards that agree on every square but `k1` and `k2`.
pub proof fn lemma_hash_diff2(b1: Board, b2: Board, k1: int, k2: int)
    requires
        0 <= k1 < 64,
        0 <= k2 < 64,
        k1 != k2,
        forall|j: int| 0 <= j < 64 && j != k1 && j != k2 ==> #[trigger] square_term(b2, j) == square_term(b1, j),
    ensures
        board_hash(b2) == board_hash(b1) ^ (square_term(b1, k1) ^ square_term(b2, k1)) ^ (
        square_term(b1, k2) ^ square_term(b2, k2)),
{
    let f = |i: int| square_term(b2, i);
    let g = |i: int| square_term(b1, i);
    let d1 = square_term(b1, k1) ^ square_term(b2, k1);
    let d2 = square_term(b1, k2) ^ square_term(b2, k2);
    let h1 = |i: int| if i == k1 { d1 } else { 0u64 };
    let h2 = |i: int| if i == k2 { d2 } else { 0u64 };
    let h = |i: int| h1(i) ^ h2(i);
    let gh = |i: int| g(i) ^ h1(i);
    assert forall|j: int| 0 <= j < 64 implies #[trigger] f(j) == gh(j) ^ h2(j) by {
        let x = square_term(b1, j);
        let y = square_term(b2, j);
        if j == k1 {
            lemma_xor_cancel(0u64, x, y, 0u64);
        } else if j == k2 {
            lemma_xor_cancel(0u64, x, y, 0u64);
        } else {
            lemma_xor_cancel(0u64, x, x, 0u64);
        }
    }
    lemma_xor_upto_split(f, gh, h2, 64);
    assert forall|j: int| 0 <= j < 64 implies #[trigger] gh(j) == g(j) ^ h1(j) by {}
    lemma_xor_upto_split(gh, g, h1, 64);
    lemma_xor_upto_single(h1, k1, 64);
    lemma_xor_upto_single(h2, k2, 64);
}

/// Moving a piece to an empty square of a consistent board.
pub proof fn lemma_board_move(b: Board, c: Color, p: Piece, from: Square, to: Square)
    requires
        b.wf(),
        b.spec_color_at(from) == Some(c),
        b.spec_piece_at(from) == Some(p),
        b.spec_color_at(to) is None,
    ensures
        ({
            let nb = b.spec_mask_xor(c, p, (1u64 << (from.idx() as u64)) | (1u64 << (to.idx() as u64)));
            &&& nb.wf()
            &&& nb.spec_color_at(to) == Some(c)
            &&& nb.spec_piece_at(to) == Some(p)
            &&& nb.spec_color_at(from) is None
            &&& nb.spec_piece_at(from) is None
            &&& board_hash(nb) == board_hash(b) ^ spec_square_zobrist(c, p, from) ^ spec_square_zobrist(c, p, to)
            &&& forall|s: Square| s != from && s != to ==> nb.spec_color_at(s) == b.spec_color_at(s)
                && nb.spec_piece_at(s) == b.spec_piece_at(s)
        }),
{
    from.lemma_repr_roundtrip();
    to.lemma_repr_roundtrip();
    let k1 = from.idx();
    let k2 = to.idx();
    let m1 = 1u64 << (k1 as u64);
    let m2 = 1u64 << (k2 as u64);
    let m = m1 | m2;
    let nb = b.spec_mask_xor(c, p, m);
    b.lemma_with(c, p, b.color_bb(c) ^ m, b.piece_bb(p) ^ m);
    lemma_bit_single(k1);
    lemma_bit_single(k2);
    lemma_bit_ops(m1, m2);
    lemma_bit_ops(b.color_bb(c), m);
    lemma_bit_ops(b.piece_bb(p), m);
    assert(b.sq_ok(k1));
    assert(b.sq_ok(k2));
    Square::lemma_idx_injective(Square::spec_from_repr(k1).unwrap(), from);
    Square::lemma_idx_injective(Square::spec_from_repr(k2).unwrap(), to);
    Square::lemma_idx_injective(from, to);
    assert(bit(b.color_bb(c), k1));
    assert(bit(b.piece_bb(p), k1));
    lemma_square_contents(b, k1, c, p);
    lemma_square_empty(b, k2);
    assert forall|j: int| 0 <= j < 64 && j != k1 && j != k2 implies #[trigger] square_term(nb, j) == square_term(b, j) by {
        assert(forall|cc: Color| #[trigger] bit(b.color_bb(cc), j) == bit(nb.color_bb(cc), j));
        assert(forall|pp: Piece| #[trigger] bit(b.piece_bb(pp), j) == bit(nb.piece_bb(pp), j));
        lemma_same_square(b, nb, j);
    }
    assert(!bit(nb.color_bb(Color::White), k1));
    assert(!bit(nb.color_bb(Color::Black), k1)) by {
        assert(!(bit(b.color_bb(Color::White), k1) && bit(b.color_bb(Color::Black), k1)));
    }
    assert(forall|pp: Piece| !#[trigger] bit(nb.piece_bb(pp), k1)) by {
        assert(b.kinds_at(k1) == 1);
    }
    assert(nb.sq_ok(k1));
    assert(bit(nb.color_bb(c), k2));
    assert(bit(nb.piece_bb(p), k2));
    assert(forall|cc: Color| cc != c ==> !#[trigger] bit(nb.color_bb(cc), k2));
    assert(forall|pp: Piece| pp != p ==> !#[trigger] bit(nb.piece_bb(pp), k2));
    assert(nb.sq_ok(k2)) by {
        assert(!bit(b.color_bb(Color::White), k2));
        assert(!bit(b.color_bb(Color::Black), k2));
    }
    assert(nb.wf()) by {
        assert forall|j: int| 0 <= j < 64 implies #[trigger] nb.sq_ok(j) by {
            if j != k1 && j != k2 {
                assert(forall|cc: Color| #[trigger] bit(b.color_bb(cc), j) == bit(nb.color_bb(cc), j));
                assert(forall|pp: Piece| #[trigger] bit(b.piece_bb(pp), j) == bit(nb.piece_bb(pp), j));
                lemma_same_square(b, nb, j);
                assert(b.sq_ok(j));
            }
        }
    }
    lemma_square_empty(nb, k1);
    lemma_square_contents(nb, k2, c, p);
    lemma_hash_diff2(b, nb, k1, k2);
    let z1 = spec_square_zobrist(c, p, from);
    let z2 = spec_square_zobrist(c, p, to);
    let h = board_hash(b);
    lemma_xor_cancel(h, z1, z2, 0u64);
    assert forall|s: Square| s != from && s != to implies nb.spec_color_at(s) == b.spec_color_at(s)
        && nb.spec_piece_at(s) == b.spec_piece_at(s) by {
        s.lemma_repr_roundtrip();
        Square::lemma_idx_injective(s, from);
        Square::lemma_idx_injective(s, to);
        Square::lemma_idx_injective(Square::spec_from_repr(s.idx()).unwrap(), s);
        assert(forall|cc: Color| #[trigger] bit(b.color_bb(cc), s.idx()) == bit(nb.color_bb(cc), s.idx()));
        assert(forall|pp: Piece| #[trigger] bit(b.piece_bb(pp), s.idx()) == bit(nb.piece_bb(pp), s.idx()));
        lemma_same_square(b, nb, s.idx());
    }
}


/// On a consistent board, the bits of square `i` are exactly its contents.
pub proof fn lemma_bits_are_contents(b: Board, i: int)
    requires
        b.wf(),
        0 <= i < 64,
    ensures
        forall|c: Color| #[trigger] bit(b.color_bb(c), i) <==> b.spec_color_at(Square::spec_from_repr(i).unwrap()) == Some(c),
        forall|p: Piece| #[trigger] bit(b.piece_bb(p), i) <==> b.spec_piece_at(Square::spec_from_repr(i).unwrap()) == Some(p),
{
    Square::lemma_from_repr_in_range(i);
    assert(b.sq_ok(i));
    assert forall|c: Color| #[trigger] bit(b.color_bb(c), i) <==> b.spec_color_at(Square::spec_from_repr(i).unwrap()) == Some(c) by {
        match c {
            Color::White => {},
            Color::Black => {},
        }
    }
    assert forall|p: Piece| #[trigger] bit(b.piece_bb(p), i) <==> b.spec_piece_at(Square::spec_from_repr(i).unwrap()) == Some(p) by {
        match p {
            Piece::Pawn => {},
            Piece::Knight => {},
            Piece::Bishop => {},
            Piece::Rook => {},
            Piece::Queen => {},
            Piece::King => {},
        }
    }
}

/// Two consistent boards with the same contents on every square are equal.
pub proof fn lemma_board_contents_equal(b1: Board, b2: Board)
    requires
        b1.wf(),
        b2.wf(),
        forall|s: Square| b1.spec_color_at(s) == b2.spec_color_at(s) && b1.spec_piece_at(s) == b2.spec_piece_at(s),
    ensures
        b1 == b2,
{
    assert forall|c: Color| b1.color_bb(c) == b2.color_bb(c) by {
        assert forall|i: int| 0 <= i < 64 implies #[trigger] bit(b1.color_bb(c), i) == bit(b2.color_bb(c), i) by {
            lemma_bits_are_contents(b1, i);
            lemma_bits_are_contents(b2, i);
            let s = Square::spec_from_repr(i).unwrap();
            assert(b1.spec_color_at(s) == b2.spec_color_at(s));
        }
        crate::bitboard::lemma_bits_equal(b1.color_bb(c), b2.color_bb(c));
    }
    assert forall|p: Piece| b1.piece_bb(p) == b2.piece_bb(p) by {
        assert forall|i: int| 0 <= i < 64 implies #[trigger] bit(b1.piece_bb(p), i) == bit(b2.piece_bb(p), i) by {
            lemma_bits_are_contents(b1, i);
            lemma_bits_are_contents(b2, i);
            let s = Square::spec_from_repr(i).unwrap();
            assert(b1.spec_piece_at(s) == b2.spec_piece_at(s));
        }
        crate::bitboard::lemma_bits_equal(b1.piece_bb(p), b2.piece_bb(p));
    }
    Board::lemma_ext_equal(b1, b2);
}

/// Two positions with consistent hashes that agree on every part but the hash are equal.
pub proof fn lemma_position_equal(a: Position, b: Position)
    requires
        a.hash_ok(),
        b.hash_ok(),
        a.sboard() == b.sboard(),
        a.sturn() == b.sturn(),
        a.scastling() == b.scastling(),
        a.sen_passant() == b.sen_passant(),
        a.smove_index() == b.smove_index(),
        a.srule_50() == b.srule_50(),
    ensures
        a == b,
{
    Position::lemma_ext_equal(a, b);
}


/// A king of the color stands on the square.
pub open spec fn king_at(b: Board, c: Color, s: Square) -> bool {
    b.spec_color_at(s) == Some(c) && b.spec_piece_at(s) == Some(Piece::King)
}

/// The board has exactly one king of the color.
pub open spec fn one_king(b: Board, c: Color) -> bool {
    exists|s: Square| #[trigger] king_at(b, c, s) && forall|s2: Square| #[trigger] king_at(b, c, s2) ==> s2 == s
}

/// The king squares of a consistent board are the squares of its king mask.
pub proof fn lemma_king_bits(b: Board, c: Color)
    requires
        b.wf(),
    ensures
        forall|s: Square| #[trigger] king_at(b, c, s) <==> bit(b.color_piece_bb(c, Piece::King), s.idx()),
{
    assert forall|s: Square| #[trigger] king_at(b, c, s) <==> bit(b.color_piece_bb(c, Piece::King), s.idx()) by {
        s.lemma_repr_roundtrip();
        lemma_bits_are_contents(b, s.idx());
        Square::lemma_idx_injective(Square::spec_from_repr(s.idx()).unwrap(), s);
        lemma_bit_ops(b.color_bb(c), b.piece_bb(Piece::King));
        assert(bit(b.color_bb(c), s.idx()) <==> b.spec_color_at(s) == Some(c));
        assert(bit(b.piece_bb(Piece::King), s.idx()) <==> b.spec_piece_at(s) == Some(Piece::King));
    }
}

/// A board with one king of the color has a nonempty king mask whose first square is the king.
pub proof fn lemma_one_king_mask(b: Board, c: Color)
    requires
        b.wf(),
        one_king(b, c),
    ensures
        b.color_piece_bb(c, Piece::King) != 0,
        king_at(b, c, b.spec_king(c)),
        forall|s: Square| #[trigger] king_at(b, c, s) ==> s == b.spec_king(c),
{
    lemma_king_bits(b, c);
    let s = choose|s: Square| #[trigger] king_at(b, c, s) && forall|s2: Square| #[trigger] king_at(b, c, s2) ==> s2 == s;
    let x = b.color_piece_bb(c, Piece::King);
    s.lemma_repr_roundtrip();
    assert(bit(x, s.idx()));
    let ii = s.idx() as u64;
    assert(ii < 64 && (x >> ii) & 1u64 == 1u64 ==> x != 0) by (bit_vector);
    crate::bitboard::lemma_squares_sound(x, 0);
    let k = BitBoard(x).squares()[0];
    k.lemma_repr_roundtrip();
    assert(king_at(b, c, k));
}

/// A consistent board whose king mask has exactly one square has one king of the color.
pub proof fn lemma_single_one_king(b: Board, c: Color)
    requires
        b.wf(),
        single(b.color_piece_bb(c, Piece::King)),
    ensures
        one_king(b, c),
{
    lemma_king_bits(b, c);
    let x = b.color_piece_bb(c, Piece::King);
    if x == 0 {
        assert(squares_of(0).len() == 0);
    }
    crate::bitboard::lemma_lsb(x);
    crate::bitboard::lemma_reset_lsb_decreases(x);
    let y = x & ((x - 1) as u64);
    if y != 0 {
        crate::bitboard::lemma_squares_len(y);
        assert(squares_of(y).len() >= 1);
    }
    assert(y == 0);
    let t = vstd::std_specs::bits::u64_trailing_zeros(x) as int;
    Square::lemma_from_repr_in_range(t);
    let s = Square::spec_from_repr(t).unwrap();
    assert(king_at(b, c, s));
    assert forall|s2: Square| #[trigger] king_at(b, c, s2) implies s2 == s by {
        s2.lemma_repr_roundtrip();
        let jj = s2.idx();
        assert(bit(x, jj));
        assert(bit(y, jj) <==> (bit(x, jj) && jj != t));
        assert(!bit(0u64, jj)) by {
            crate::bitboard::lemma_bits_of_constants(jj as u64);
        }
        Square::lemma_idx_injective(s2, s);
    }
}

/// Error returned when a FEN string cannot be parsed into a valid position.
#[derive(Debug, Clone, Copy, PartialEq, Eq, Structural)]
pub struct ParseFenError;

/// A valid chess position.
#[derive(Debug, Clone, Copy, PartialEq, Eq, Structural, Hash)]
pub struct Position {
    board: Board,
    turn: Color,
    castling: CastlingRights,
    en_passant: Option<File>,
    zobrist: u64,
    move_index: u32,
    move_index_rule_50: u32,
}

impl Position {
    /// The board.
    pub closed spec fn sboard(self) -> Board {
        self.board
    }

    /// The side to move.
    pub closed spec fn sturn(self) -> Color {
        self.turn
    }

    /// The castling rights.
    pub closed spec fn scastling(self) -> CastlingRights {
        self.castling
    }

    /// The en passant file.
    pub closed spec fn sen_passant(self) -> Option<File> {
        self.en_passant
    }

    /// The stored hash.
    pub closed spec fn shash(self) -> u64 {
        self.zobrist
    }

    /// The number of plies played.
    pub closed spec fn smove_index(self) -> u32 {
        self.move_index
    }

    /// The ply at which the fifty-move counter was last reset.
    pub closed spec fn srule_50(self) -> u32 {
        self.move_index_rule_50
    }

    /// Two positions that agree on every part are equal.
    pub proof fn lemma_ext_equal(a: Position, b: Position)
        requires
            a.sboard() == b.sboard(),
            a.sturn() == b.sturn(),
            a.scastling() == b.scastling(),
            a.sen_passant() == b.sen_passant(),
            a.shash() == b.shash(),
            a.smove_index() == b.smove_index(),
            a.srule_50() == b.srule_50(),
        ensures
            a == b,
    {
    }

    /// A consistent position: a consistent board with one king of each color,
    /// a stored hash equal to the hash from scratch and ordered move counters.
    pub open spec fn wf(self) -> bool {
        &&& self.sboard().wf()
        &&& one_king(self.sboard(), Color::White)
        &&& one_king(self.sboard(), Color::Black)
        &&& self.shash() == full_hash(
            self.sboard(),
            self.sturn(),
            self.scastling(),
            self.sen_passant(),
        )
        &&& self.srule_50() <= self.smove_index()
    }

    /// The castling rights and the en passant file fit the board: a side keeps
    /// a castling right only while its king and rook stand on their initial
    /// squares, and an en passant file names an enemy pawn that has just passed
    /// an empty square.
    pub open spec fn rights_fit(self) -> bool {
        &&& spec_castling_allowed(self.sboard(), self.scastling())
        &&& match self.sen_passant() {
            Some(f) => en_passant_fits(self.sboard(), self.sturn(), f),
            None => true,
        }
    }
}


/// XOR bookkeeping: replacing one summand of a consistent hash.
pub proof fn lemma_xor_replace(h: u64, a: u64, b: u64, c: u64, d: u64, d2: u64)
    requires
        h == a ^ b ^ c ^ d,
    ensures
        h ^ d ^ d2 == a ^ b ^ c ^ d2,
        h ^ c ^ d2 == a ^ b ^ d2 ^ d,
        h ^ b ^ d2 == a ^ d2 ^ c ^ d,
        h ^ a ^ d2 == d2 ^ b ^ c ^ d,
{
    assert(h == a ^ b ^ c ^ d ==> h ^ d ^ d2 == a ^ b ^ c ^ d2 && h ^ c ^ d2 == a ^ b ^ d2 ^ d && h ^ b ^ d2
        == a ^ d2 ^ c ^ d && h ^ a ^ d2 == d2 ^ b ^ c ^ d) by (bit_vector);
}

impl Position {
    /// The position made of the given parts.
    pub closed spec fn mk(
        board: Board,
        turn: Color,
        castling: CastlingRights,
        en_passant: Option<File>,
        zobrist: u64,
        move_index: u32,
        move_index_rule_50: u32,
    ) -> Position {
        Position { board, turn, castling, en_passant, zobrist, move_index, move_index_rule_50 }
    }

    /// The parts of [`Position::mk`].
    pub broadcast proof fn lemma_mk(
        board: Board,
        turn: Color,
        castling: CastlingRights,
        en_passant: Option<File>,
        zobrist: u64,
        move_index: u32,
        move_index_rule_50: u32,
    )
        ensures
            #![trigger Position::mk(board, turn, castling, en_passant, zobrist, move_index, move_index_rule_50)]
            Position::mk(board, turn, castling, en_passant, zobrist, move_index, move_index_rule_50).sboard() == board,
            Position::mk(board, turn, castling, en_passant, zobrist, move_index, move_index_rule_50).sturn() == turn,
            Position::mk(board, turn, castling, en_passant, zobrist, move_index, move_index_rule_50).scastling() == castling,
            Position::mk(board, turn, castling, en_passant, zobrist, move_index, move_index_rule_50).sen_passant() == en_passant,
            Position::mk(board, turn, castling, en_passant, zobrist, move_index, move_index_rule_50).shash() == zobrist,
            Position::mk(board, turn, castling, en_passant, zobrist, move_index, move_index_rule_50).smove_index() == move_index,
            Position::mk(board, turn, castling, en_passant, zobrist, move_index, move_index_rule_50).srule_50() == move_index_rule_50,
    {
    }

    /// The stored hash matches the hash from scratch.
    pub open spec fn hash_ok(self) -> bool {
        self.shash() == full_hash(self.sboard(), self.sturn(), self.scastling(), self.sen_passant())
    }

    /// The position with a piece added on a square.
    pub open spec fn spec_add(self, color: Color, piece: Piece, sq: Square) -> Position {
        Position::mk(
            self.sboard().spec_mask_or(color, piece, 1u64 << (sq.idx() as u64)),
            self.sturn(),
            self.scastling(),
            self.sen_passant(),
            self.shash() ^ spec_square_zobrist(color, piece, sq),
            self.smove_index(),
            self.srule_50(),
        )
    }

    /// The position with a piece removed from a square.
    pub open spec fn spec_remove(self, color: Color, piece: Piece, sq: Square) -> Position {
        Position::mk(
            self.sboard().spec_mask_and(color, piece, !(1u64 << (sq.idx() as u64))),
            self.sturn(),
            self.scastling(),
            self.sen_passant(),
            self.shash() ^ spec_square_zobrist(color, piece, sq),
            self.smove_index(),
            self.srule_50(),
        )
    }

    /// The position with a piece moved between two squares.
    pub open spec fn spec_move(self, color: Color, piece: Piece, from: Square, to: Square) -> Position {
        Position::mk(
            self.sboard().spec_mask_xor(
                color,
                piece,
                (1u64 << (from.idx() as u64)) | (1u64 << (to.idx() as u64)),
            ),
            self.sturn(),
            self.scastling(),
            self.sen_passant(),
            self.shash() ^ spec_square_zobrist(color, piece, from) ^ spec_square_zobrist(
                color,
                piece,
                to,
            ),
            self.smove_index(),
            self.srule_50(),
        )
    }

    /// The position with the en passant file replaced.
    pub open spec fn spec_set_en_passant(self, en_passant: Option<File>) -> Position {
        Position::mk(
            self.sboard(),
            self.sturn(),
            self.scastling(),
            en_passant,
            self.shash() ^ spec_en_passant_zobrist(self.sen_passant()) ^ spec_en_passant_zobrist(
                en_passant,
            ),
            self.smove_index(),
            self.srule_50(),
        )
    }

    /// The position with the castling rights replaced.
    pub open spec fn spec_set_castling(self, castling: CastlingRights) -> Position {
        Position::mk(
            self.sboard(),
            self.sturn(),
            castling,
            self.sen_passant(),
            self.shash() ^ spec_castling_zobrist(self.scastling()) ^ spec_castling_zobrist(
                castling,
            ),
            self.smove_index(),
            self.srule_50(),
        )
    }

    /// The position with the other side to move.
    pub open spec fn spec_swap_turn(self) -> Position {
        Position::mk(
            self.sboard(),
            self.sturn().opp(),
            self.scastling(),
            self.sen_passant(),
            self.shash() ^ spec_turn_zobrist(self.sturn()) ^ spec_turn_zobrist(self.sturn().opp()),
            self.smove_index(),
            self.srule_50(),
        )
    }

    /// The position with new move counters.
    pub open spec fn spec_set_counters(self, move_index: u32, move_index_rule_50: u32) -> Position {
        Position::mk(
            self.sboard(),
            self.sturn(),
            self.scastling(),
            self.sen_passant(),
            self.shash(),
            move_index,
            move_index_rule_50,
        )
    }

    /// Returns the zobrist hash for the current position (never zero).
    pub fn zobrist(&self) -> (r: u64)
        ensures
            r == (if self.shash() == 0 { u64::MAX } else { self.shash() }),
            r != 0,
    {
        if self.zobrist == 0 {
            u64::MAX
        } else {
            self.zobrist
        }
    }

    /// Returns the file of the available en passant.
    pub fn en_passant(&self) -> (r: Option<File>)
        ensures
            r == self.sen_passant(),
    {
        self.en_passant
    }

    /// Returns the castling rights for this position.
    pub fn castling_rights(&self) -> (r: CastlingRights)
        ensures
            r == self.scastling(),
    {
        self.castling
    }

    /// Returns the board state.
    pub fn board(&self) -> (r: &Board)
        ensures
            *r == self.sboard(),
    {
        &self.board
    }

    /// Returns the color of the player making the turn.
    pub fn turn(&self) -> (r: Color)
        ensures
            r == self.sturn(),
    {
        self.turn
    }

    /// Returns the number of plies played so far.
    pub fn move_index(&self) -> (r: u32)
        ensures
            r == self.smove_index(),
    {
        self.move_index
    }

    /// Returns the number of plies played so far.
    pub fn ply_index(&self) -> (r: u32)
        ensures
            r == self.smove_index(),
    {
        self.move_index
    }

    /// Returns the ply at which the halfmove clock was last reset.
    pub fn move_index_rule_50(&self) -> (r: u32)
        ensures
            r == self.srule_50(),
    {
        self.move_index_rule_50
    }

    /// Returns the current state of the halfmove clock.
    pub fn halfmove_clock(&self) -> (r: u32)
        requires
            self.srule_50() <= self.smove_index(),
        ensures
            r == self.smove_index() - self.srule_50(),
    {
        self.move_index - self.move_index_rule_50
    }

    /// Sets (or resets) the en passant file.
    pub fn set_en_passant(&mut self, en_passant: Option<File>)
        ensures
            *final(self) == old(self).spec_set_en_passant(en_passant),
            old(self).hash_ok() ==> final(self).hash_ok(),
    {
        proof {
            broadcast use Position::lemma_mk;
            if self.hash_ok() {
                lemma_xor_replace(
                    self.zobrist,
                    board_hash(self.board),
                    spec_turn_zobrist(self.turn),
                    spec_castling_zobrist(self.castling),
                    spec_en_passant_zobrist(self.en_passant),
                    spec_en_passant_zobrist(en_passant),
                );
            }
        }
        self.zobrist = self.zobrist ^ get_en_passant_zobrist(self.en_passant);
        self.zobrist = self.zobrist ^ get_en_passant_zobrist(en_passant);
        self.en_passant = en_passant;
    }

    /// Sets the castling rights, which must be ones the board can hold (the
    /// king and the rook of each right on their initial squares).
    pub fn set_castling_rights(&mut self, castling_rights: CastlingRights)
        requires
            spec_castling_allowed(old(self).sboard(), castling_rights),
        ensures
            *final(self) == old(self).spec_set_castling(castling_rights),
            old(self).hash_ok() ==> final(self).hash_ok(),
    {
        self.store_castling_rights(castling_rights);
    }

    /// Stores the castling rights and updates the hash, whatever the board
    /// holds at the time (making and taking back a move store the rights
    /// while the pieces are on their way).
    pub(crate) fn store_castling_rights(&mut self, castling_rights: CastlingRights)
        ensures
            *final(self) == old(self).spec_set_castling(castling_rights),
            old(self).hash_ok() ==> final(self).hash_ok(),
    {
        proof {
            broadcast use Position::lemma_mk;
            if self.hash_ok() {
                lemma_xor_replace(
                    self.zobrist,
                    board_hash(self.board),
                    spec_turn_zobrist(self.turn),
                    spec_castling_zobrist(self.castling),
                    spec_en_passant_zobrist(self.en_passant),
                    spec_castling_zobrist(castling_rights),
                );
            }
        }
        self.zobrist = self.zobrist ^ get_castling_zobrist(self.castling);
        self.zobrist = self.zobrist ^ get_castling_zobrist(castling_rights);
        self.castling = castling_rights;
    }

    /// Adds a piece to an empty square of the board, updating the zobrist hash.
    pub fn add_color_piece(&mut self, color: Color, piece: Piece, sq: Square)
        requires
            old(self).sboard().wf(),
            old(self).sboard().spec_color_at(sq) is None,
        ensures
            *final(self) == old(self).spec_add(color, piece, sq),
            final(self).sboard().wf(),
            final(self).sboard().spec_color_at(sq) == Some(color),
            final(self).sboard().spec_piece_at(sq) == Some(piece),
            forall|s: Square| s != sq ==> final(self).sboard().spec_color_at(s) == old(self).sboard().spec_color_at(s)
                && final(self).sboard().spec_piece_at(s) == old(self).sboard().spec_piece_at(s),
            old(self).hash_ok() ==> final(self).hash_ok(),
    {
        proof {
            self.lemma_add(color, piece, sq);
        }
        self.zobrist = self.zobrist ^ get_square_zobrist(color, piece, sq);
        self.board.mask_or(color, piece, BitBoard::from_square(sq));
    }

    /// Removes a piece from the board, updating the zobrist hash.
    pub fn remove_color_piece(&mut self, color: Color, piece: Piece, sq: Square)
        requires
            old(self).sboard().wf(),
            old(self).sboard().spec_color_at(sq) == Some(color),
            old(self).sboard().spec_piece_at(sq) == Some(piece),
        ensures
            *final(self) == old(self).spec_remove(color, piece, sq),
            final(self).sboard().wf(),
            final(self).sboard().spec_color_at(sq) is None,
            final(self).sboard().spec_piece_at(sq) is None,
            forall|s: Square| s != sq ==> final(self).sboard().spec_color_at(s) == old(self).sboard().spec_color_at(s)
                && final(self).sboard().spec_piece_at(s) == old(self).sboard().spec_piece_at(s),
            old(self).hash_ok() ==> final(self).hash_ok(),
    {
        proof {
            self.lemma_remove(color, piece, sq);
        }
        self.zobrist = self.zobrist ^ get_square_zobrist(color, piece, sq);
        self.board.mask_and(color, piece, BitBoard::from_square(sq).not());
    }

    /// Moves a piece to an empty square of the board, updating the zobrist hash.
    pub fn move_color_piece(&mut self, color: Color, piece: Piece, from: Square, to: Square)
        requires
            old(self).sboard().wf(),
            old(self).sboard().spec_color_at(from) == Some(color),
            old(self).sboard().spec_piece_at(from) == Some(piece),
            old(self).sboard().spec_color_at(to) is None,
        ensures
            *final(self) == old(self).spec_move(color, piece, from, to),
            final(self).sboard().wf(),
            final(self).sboard().spec_color_at(to) == Some(color),
            final(self).sboard().spec_piece_at(to) == Some(piece),
            final(self).sboard().spec_color_at(from) is None,
            final(self).sboard().spec_piece_at(from) is None,
            forall|s: Square| s != from && s != to ==> final(self).sboard().spec_color_at(s) == old(self).sboard().spec_color_at(s)
                && final(self).sboard().spec_piece_at(s) == old(self).sboard().spec_piece_at(s),
            old(self).hash_ok() ==> final(self).hash_ok(),
    {
        proof {
            self.lemma_move(color, piece, from, to);
        }
        self.zobrist = self.zobrist ^ get_square_zobrist(color, piece, from);
        self.zobrist = self.zobrist ^ get_square_zobrist(color, piece, to);
        self.board.mask_xor(color, piece, BitBoard::from_square(from).bitor(BitBoard::from_square(to)));
    }

    /// Changes the color of side to move, updating the zobrist hash.
    pub fn swap_turn(&mut self)
        ensures
            *final(self) == old(self).spec_swap_turn(),
            old(self).hash_ok() ==> final(self).hash_ok(),
    {
        proof {
            broadcast use Position::lemma_mk;
            if self.hash_ok() {
                lemma_xor_replace(
                    self.zobrist,
                    board_hash(self.board),
                    spec_turn_zobrist(self.turn),
                    spec_castling_zobrist(self.castling),
                    spec_en_passant_zobrist(self.en_passant),
                    spec_turn_zobrist(self.turn.opp()),
                );
            }
        }
        self.zobrist = self.zobrist ^ get_turn_zobrist(self.turn);
        self.turn = self.turn.not();
        self.zobrist = self.zobrist ^ get_turn_zobrist(self.turn);
    }

    /// Increments the move index and returns the previous state of the halfmove clock;
    /// the clock restarts when `reset_hm_clock` is set.
    pub fn next_move_index(&mut self, reset_hm_clock: bool) -> (r: u32)
        requires
            old(self).srule_50() <= old(self).smove_index() < u32::MAX,
        ensures
            r == old(self).smove_index() - old(self).srule_50(),
            *final(self) == old(self).spec_set_counters(
                (old(self).smove_index() + 1) as u32,
                if reset_hm_clock { (old(self).smove_index() + 1) as u32 } else { old(self).srule_50() },
            ),
    {
        proof {
            broadcast use Position::lemma_mk;
        }
        let res = self.move_index - self.move_index_rule_50;
        self.move_index = self.move_index + 1;
        if reset_hm_clock {
            self.move_index_rule_50 = self.move_index;
        }
        res
    }

    /// Sets the move counters: the number of plies played and the ply at which
    /// the halfmove clock was last reset.
    pub(crate) fn set_move_counters(&mut self, move_index: u32, move_index_rule_50: u32)
        ensures
            *final(self) == old(self).spec_set_counters(move_index, move_index_rule_50),
    {
        proof {
            broadcast use Position::lemma_mk;
        }
        self.move_index = move_index;
        self.move_index_rule_50 = move_index_rule_50;
    }

    /// Decrements the move index and sets the state of the halfmove clock.
    pub fn prev_move_index(&mut self, hm_clock_state: u32)
        requires
            1 <= old(self).smove_index(),
            hm_clock_state <= old(self).smove_index() - 1,
        ensures
            *final(self) == old(self).spec_set_counters(
                (old(self).smove_index() - 1) as u32,
                (old(self).smove_index() - 1 - hm_clock_state) as u32,
            ),
    {
        proof {
            broadcast use Position::lemma_mk;
        }
        self.move_index = self.move_index - 1;
        self.move_index_rule_50 = self.move_index - hm_clock_state;
    }
}



impl Position {
    /// Adding a piece to an empty square keeps the board consistent and the hash in step.
    pub proof fn lemma_add(self, color: Color, piece: Piece, sq: Square)
        requires
            self.sboard().wf(),
            self.sboard().spec_color_at(sq) is None,
        ensures
            ({
                let q = self.spec_add(color, piece, sq);
                &&& q.sboard().wf()
                &&& q.sboard().spec_color_at(sq) == Some(color)
                &&& q.sboard().spec_piece_at(sq) == Some(piece)
                &&& forall|s: Square| s != sq ==> q.sboard().spec_color_at(s) == self.sboard().spec_color_at(s)
                    && q.sboard().spec_piece_at(s) == self.sboard().spec_piece_at(s)
                &&& self.hash_ok() ==> q.hash_ok()
                &&& q.sturn() == self.sturn() && q.scastling() == self.scastling()
                    && q.sen_passant() == self.sen_passant() && q.smove_index() == self.smove_index()
                    && q.srule_50() == self.srule_50()
            }),
    {
        broadcast use Position::lemma_mk;
        lemma_board_add(self.sboard(), color, piece, sq);
        if self.hash_ok() {
            let h = self.shash();
            let a = board_hash(self.sboard());
            let z = spec_square_zobrist(color, piece, sq);
            lemma_xor_replace(
                h,
                a,
                spec_turn_zobrist(self.sturn()),
                spec_castling_zobrist(self.scastling()),
                spec_en_passant_zobrist(self.sen_passant()),
                a ^ z,
            );
            lemma_xor_cancel(h, a, z, 0u64);
        }
    }

    /// Removing a piece keeps the board consistent and the hash in step.
    pub proof fn lemma_remove(self, color: Color, piece: Piece, sq: Square)
        requires
            self.sboard().wf(),
            self.sboard().spec_color_at(sq) == Some(color),
            self.sboard().spec_piece_at(sq) == Some(piece),
        ensures
            ({
                let q = self.spec_remove(color, piece, sq);
                &&& q.sboard().wf()
                &&& q.sboard().spec_color_at(sq) is None
                &&& q.sboard().spec_piece_at(sq) is None
                &&& forall|s: Square| s != sq ==> q.sboard().spec_color_at(s) == self.sboard().spec_color_at(s)
                    && q.sboard().spec_piece_at(s) == self.sboard().spec_piece_at(s)
                &&& self.hash_ok() ==> q.hash_ok()
                &&& q.sturn() == self.sturn() && q.scastling() == self.scastling()
                    && q.sen_passant() == self.sen_passant() && q.smove_index() == self.smove_index()
                    && q.srule_50() == self.srule_50()
            }),
    {
        broadcast use Position::lemma_mk;
        lemma_board_remove(self.sboard(), color, piece, sq);
        if self.hash_ok() {
            let h = self.shash();
            let a = board_hash(self.sboard());
            let z = spec_square_zobrist(color, piece, sq);
            lemma_xor_replace(
                h,
                a,
                spec_turn_zobrist(self.sturn()),
                spec_castling_zobrist(self.scastling()),
                spec_en_passant_zobrist(self.sen_passant()),
                a ^ z,
            );
            lemma_xor_cancel(h, a, z, 0u64);
        }
    }

    /// Moving a piece to an empty square keeps the board consistent and the hash in step.
    pub proof fn lemma_move(self, color: Color, piece: Piece, from: Square, to: Square)
        requires
            self.sboard().wf(),
            self.sboard().spec_color_at(from) == Some(color),
            self.sboard().spec_piece_at(from) == Some(piece),
            self.sboard().spec_color_at(to) is None,
        ensures
            ({
                let q = self.spec_move(color, piece, from, to);
                &&& q.sboard().wf()
                &&& q.sboard().spec_color_at(to) == Some(color)
                &&& q.sboard().spec_piece_at(to) == Some(piece)
                &&& q.sboard().spec_color_at(from) is None
                &&& q.sboard().spec_piece_at(from) is None
                &&& forall|s: Square| s != from && s != to ==> q.sboard().spec_color_at(s) == self.sboard().spec_color_at(s)
                    && q.sboard().spec_piece_at(s) == self.sboard().spec_piece_at(s)
                &&& self.hash_ok() ==> q.hash_ok()
                &&& q.sturn() == self.sturn() && q.scastling() == self.scastling()
                    && q.sen_passant() == self.sen_passant() && q.smove_index() == self.smove_index()
                    && q.srule_50() == self.srule_50()
            }),
    {
        broadcast use Position::lemma_mk;
        lemma_board_move(self.sboard(), color, piece, from, to);
        if self.hash_ok() {
            let h = self.shash();
            let a = board_hash(self.sboard());
            let z1 = spec_square_zobrist(color, piece, from);
            let z2 = spec_square_zobrist(color, piece, to);
            lemma_xor_replace(
                h,
                a,
                spec_turn_zobrist(self.sturn()),
                spec_castling_zobrist(self.scastling()),
                spec_en_passant_zobrist(self.sen_passant()),
                a ^ z1 ^ z2,
            );
            lemma_xor_cancel(h, a, z1, z2);
        }
    }

    /// The setters of castling rights, en passant, turn and counters keep the hash in step.
    pub proof fn lemma_setters(self, castling: CastlingRights, en_passant: Option<File>, mi: u32, r50: u32)
        ensures
            self.spec_set_castling(castling).sboard() == self.sboard(),
            self.spec_set_castling(castling).sturn() == self.sturn(),
            self.spec_set_castling(castling).scastling() == castling,
            self.spec_set_castling(castling).sen_passant() == self.sen_passant(),
            self.spec_set_castling(castling).smove_index() == self.smove_index(),
            self.spec_set_castling(castling).srule_50() == self.srule_50(),
            self.hash_ok() ==> self.spec_set_castling(castling).hash_ok(),
            self.spec_set_en_passant(en_passant).sboard() == self.sboard(),
            self.spec_set_en_passant(en_passant).sturn() == self.sturn(),
            self.spec_set_en_passant(en_passant).scastling() == self.scastling(),
            self.spec_set_en_passant(en_passant).sen_passant() == en_passant,
            self.spec_set_en_passant(en_passant).smove_index() == self.smove_index(),
            self.spec_set_en_passant(en_passant).srule_50() == self.srule_50(),
            self.hash_ok() ==> self.spec_set_en_passant(en_passant).hash_ok(),
            self.spec_swap_turn().sboard() == self.sboard(),
            self.spec_swap_turn().sturn() == self.sturn().opp(),
            self.spec_swap_turn().scastling() == self.scastling(),
            self.spec_swap_turn().sen_passant() == self.sen_passant(),
            self.spec_swap_turn().smove_index() == self.smove_index(),
            self.spec_swap_turn().srule_50() == self.srule_50(),
            self.hash_ok() ==> self.spec_swap_turn().hash_ok(),
            self.spec_set_counters(mi, r50).sboard() == self.sboard(),
            self.spec_set_counters(mi, r50).sturn() == self.sturn(),
            self.spec_set_counters(mi, r50).scastling() == self.scastling(),
            self.spec_set_counters(mi, r50).sen_passant() == self.sen_passant(),
            self.spec_set_counters(mi, r50).shash() == self.shash(),
            self.spec_set_counters(mi, r50).smove_index() == mi,
            self.spec_set_counters(mi, r50).srule_50() == r50,
            self.hash_ok() ==> self.spec_set_counters(mi, r50).hash_ok(),
    {
        broadcast use Position::lemma_mk;
        if self.hash_ok() {
            let h = self.shash();
            let a = board_hash(self.sboard());
            let b = spec_turn_zobrist(self.sturn());
            let c = spec_castling_zobrist(self.scastling());
            let d = spec_en_passant_zobrist(self.sen_passant());
            lemma_xor_replace(h, a, b, c, d, spec_castling_zobrist(castling));
            lemma_xor_replace(h, a, b, c, d, spec_en_passant_zobrist(en_passant));
            lemma_xor_replace(h, a, b, c, d, spec_turn_zobrist(self.sturn().opp()));
        }
    }
}

/// Returns `true` if the position can have the specified castling rights
/// considering the current state of the board.
fn is_castling_allowed(board: Board, castling: CastlingRights) -> (r: bool)
    ensures
        r == spec_castling_allowed(board, castling),
{
    let mut max: u8 = 0;
    let w_king = board.get_color_piece(Color::White, Piece::King);
    if w_king.has_square(Square::E1) {
        let w_rooks = board.get_color_piece(Color::White, Piece::Rook);
        if w_rooks.has_square(Square::H1) {
            max = max + 1;
        }
        if w_rooks.has_square(Square::A1) {
            max = max + 2;
        }
    }
    let b_king = board.get_color_piece(Color::Black, Piece::King);
    if b_king.has_square(Square::E8) {
        let b_rooks = board.get_color_piece(Color::Black, Piece::Rook);
        if b_rooks.has_square(Square::H8) {
            max = max + 4;
        }
        if b_rooks.has_square(Square::A8) {
            max = max + 8;
        }
    }
    CastlingRights(max).contains(castling)
}

/// Returns `true` if it's logically possible to perform en passant at the specified file
/// on the specified board.
fn is_en_passant_allowed(board: Board, turn: Color, en_passant_file: File) -> (r: bool)
    ensures
        r == spec_en_passant_allowed(board, turn, en_passant_file),
{
    let sq = Square::new(turn.mirror_rank(Rank::R5), en_passant_file);
    let target = Square::new(turn.mirror_rank(Rank::R6), en_passant_file);
    let adj = {
        let bb = BitBoard::from_square(sq);
        bb.left().bitor(bb.right())
    };
    proof {
        let r = if turn == Color::White { 4int } else { 3int };
        let t = if turn == Color::White { 5int } else { 2int };
        Square::lemma_from_repr_in_range(r * 8 + en_passant_file.idx());
        Square::lemma_idx_injective(sq, Square::spec_from_repr(r * 8 + en_passant_file.idx()).unwrap());
        Square::lemma_from_repr_in_range(t * 8 + en_passant_file.idx());
        Square::lemma_idx_injective(target, Square::spec_from_repr(t * 8 + en_passant_file.idx()).unwrap());
    }
    let at_sq = match (board.get_color_at(sq), board.get_piece_at(sq)) {
        (Some(c), Some(p)) => c == turn.not() && p == Piece::Pawn,
        _ => false,
    };
    at_sq && board.get_color_at(target).is_none() && !board.get_color_piece(turn, Piece::Pawn).bitand(adj).is_empty()
}

impl Position {
    /// The conditions under which [`Position::from_parts`] accepts its parts.
    pub open spec fn spec_parts_valid(
        board: Board,
        turn: Color,
        castling: CastlingRights,
        en_passant: Option<File>,
    ) -> bool {
        &&& single(board.color_piece_bb(Color::White, Piece::King))
        &&& single(board.color_piece_bb(Color::Black, Piece::King))
        &&& !board.spec_in_check(turn.opp())
        &&& spec_castling_allowed(board, castling)
        &&& match en_passant {
            Some(file) => spec_en_passant_allowed(board, turn, file),
            None => true,
        }
    }

    /// Constructs the chess position from its parts.
    ///
    /// The result is `None` unless the parts make a valid chess position:
    /// - There must be exactly one king per each color.
    /// - The position should not allow capturing the opponent's king.
    /// - If castling rights are specified, the corresponding
    ///   castlings should be logically possible on the specified board.
    /// - If the en passant is specified, the board should allow to perform it.
    pub fn from_parts(
        board: Board,
        turn: Color,
        castling: CastlingRights,
        en_passant: Option<File>,
    ) -> (r: Option<Self>)
        requires
            board.wf(),
        ensures
            r is Some <==> Position::spec_parts_valid(board, turn, castling, en_passant),
            r matches Some(p) ==> p.wf() && p.rights_fit() && p.sboard() == board && p.sturn() == turn
                && p.scastling() == castling && p.sen_passant() == en_passant
                && p.smove_index() == 0 && p.srule_50() == 0,
    {
        if board.get_color_piece(Color::White, Piece::King).count() != 1 || board.get_color_piece(
            Color::Black,
            Piece::King,
        ).count() != 1 {
            return None;
        }
        proof {
            crate::bitboard::lemma_squares_len(0);
        }
        if board.is_king_in_check(turn.not()) || !is_castling_allowed(board, castling) {
            return None;
        }
        match en_passant {
            Some(file) => {
                if !is_en_passant_allowed(board, turn, file) {
                    return None;
                }
            },
            None => {},
        }
        let mut hash: u64 = 0;
        let mut i: u8 = 0;
        while i < 64
            invariant
                i <= 64,
                board.wf(),
                hash == xor_upto(|j: int| square_term(board, j), i as nat),
            decreases 64 - i,
        {
            let sq = Square::from_repr(i).unwrap();
            proof {
                Square::lemma_idx_injective(sq, Square::spec_from_repr(i as int).unwrap());
                Square::lemma_from_repr_in_range(i as int);
            }
            match board.get_color_piece_at(sq) {
                Some((color, piece)) => {
                    hash = hash ^ get_square_zobrist(color, piece, sq);
                },
                None => {
                    proof {
                        lemma_xor_zero(hash);
                    }
                },
            }
            i = i + 1;
        }
        hash = hash ^ get_turn_zobrist(turn);
        hash = hash ^ get_castling_zobrist(castling);
        hash = hash ^ get_en_passant_zobrist(en_passant);
        proof {
            lemma_single_one_king(board, Color::White);
            lemma_single_one_king(board, Color::Black);
        }
        Some(Self {
            board,
            turn,
            castling,
            en_passant,
            zobrist: hash,
            move_index: 0,
            move_index_rule_50: 0,
        })
    }
}

} // verus!
