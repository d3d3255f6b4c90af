//! Bitboards: sets of squares packed into a `u64`.

use vstd::prelude::*;
use vstd::std_specs::bits::{u64_trailing_zeros, axiom_u64_trailing_zeros};

use crate::square::{File, NegDiag, PosDiag, Rank, Square};

verus! {

/// Whether bit `i` of `x` is set.
pub open spec fn bit(x: u64, i: int) -> bool {
    (x >> (i as u64)) & 1u64 == 1u64
}

/// A [bitboard]. Wraps u64 occupancy mask.
///
/// [bitboard]: https://www.chessprogramming.org/Bitboard_Board-Definition
#[derive(Debug, Clone, Copy, PartialEq, Eq, Structural, Hash)]
pub struct BitBoard(pub u64);

/// No bit of zero is set, and every bit of the full word is.
pub proof fn lemma_bits_of_constants(j: u64)
    by (bit_vector)
    requires
        j < 64,
    ensures
        !((0u64 >> j) & 1u64 == 1u64),
        (u64::MAX >> j) & 1u64 == 1u64,
{
}

/// Clearing the lowest set bit makes a nonzero word strictly smaller.
pub proof fn lemma_reset_lsb_decreases(x: u64)
    requires
        x != 0,
    ensures
        x & ((x - 1) as u64) < x,
{
    assert(x != 0 ==> x & ((x - 1) as u64) < x) by (bit_vector);
}

/// The squares of a word in increasing order of their index.
pub open spec fn squares_of(x: u64) -> Seq<Square>
    decreases x,
{
    if x == 0 {
        Seq::empty()
    } else {
        proof {
            lemma_reset_lsb_decreases(x);
        }
        seq![Square::spec_from_repr(u64_trailing_zeros(x) as int).unwrap()]
            + squares_of(x & ((x - 1) as u64))
    }
}

/// Facts about the lowest set bit of a nonzero word and about clearing it.
pub proof fn lemma_lsb(x: u64)
    requires
        x != 0,
    ensures
        0 <= u64_trailing_zeros(x) < 64,
        bit(x, u64_trailing_zeros(x) as int),
        forall|j: int| 0 <= j < u64_trailing_zeros(x) ==> !bit(x, j),
        forall|j: int|
            0 <= j < 64 ==> (bit(x & ((x - 1) as u64), j) <==> (bit(x, j) && j
                != u64_trailing_zeros(x))),
        x & !((x - 1) as u64) == (1u64 << u64_trailing_zeros(x)),
{
    axiom_u64_trailing_zeros(x);
    let t = u64_trailing_zeros(x) as u64;
    assert forall|j: int| 0 <= j < u64_trailing_zeros(x) implies !bit(x, j) by {
        let jj = j as u64;
        assert((x >> jj) & 1u64 == 0u64);
    }
    assert forall|j: int|
        0 <= j < 64 implies (bit(x & ((x - 1) as u64), j) <==> (bit(x, j) && j
            != u64_trailing_zeros(x))) by {
        let jj = j as u64;
        assert(x != 0 && t < 64 && (x >> t) & 1u64 == 1u64 && x << ((64 - t) as u64) == 0
            && jj < 64 ==> (((x & ((x - 1) as u64)) >> jj) & 1u64 == 1u64 <==> ((x >> jj) & 1u64
            == 1u64 && jj != t))) by (bit_vector);
    }
    assert(x != 0 && t < 64 && (x >> t) & 1u64 == 1u64 && x << ((64 - t) as u64) == 0 ==> x & !((
    x - 1) as u64) == (1u64 << t)) by (bit_vector);
}

impl BitBoard {
    /// Whether the square is in the set.
    pub open spec fn has(self, sq: Square) -> bool {
        bit(self.0, sq.idx())
    }

    /// The squares of the set in increasing order.
    pub open spec fn squares(self) -> Seq<Square> {
        squares_of(self.0)
    }

    /// Constructs a bitboard with only the given square occupied.
    pub fn from_square(value: Square) -> (r: BitBoard)
        ensures
            r.0 == 1u64 << (value.idx() as u64),
            forall|s: Square| r.has(s) <==> s == value,
    {
        let r = BitBoard(1u64 << value.repr());
        proof {
            value.lemma_repr_roundtrip();
            let v = value.idx() as u64;
            assert(r.0 == 1u64 << v);
            assert forall|s: Square| r.has(s) <==> s == value by {
                s.lemma_repr_roundtrip();
                Square::lemma_idx_injective(s, value);
                let i = s.idx() as u64;
                assert(v < 64 && i < 64 ==> (((1u64 << v) >> i) & 1u64 == 1u64 <==> i == v))
                    by (bit_vector);
            }
        }
        r
    }

    /// Returns the [complement set] (`!`) of the bitboard.
    ///
    /// [complement set]: https://www.chessprogramming.org/General_Setwise_Operations#Complement_Set
    pub fn not(self) -> (r: BitBoard)
        ensures
            r.0 == !self.0,
    {
        BitBoard(!self.0)
    }

    /// Computes the [intersection] (`&`) of two bitboards.
    ///
    /// [intersection]: https://www.chessprogramming.org/General_Setwise_Operations#Intersection
    pub fn bitand(self, rhs: BitBoard) -> (r: BitBoard)
        ensures
            r.0 == self.0 & rhs.0,
    {
        BitBoard(self.0 & rhs.0)
    }

    /// Computes the [union] (`|`) of two bitboards.
    ///
    /// [union]: https://www.chessprogramming.org/General_Setwise_Operations#Union
    pub fn bitor(self, rhs: BitBoard) -> (r: BitBoard)
        ensures
            r.0 == self.0 | rhs.0,
    {
        BitBoard(self.0 | rhs.0)
    }

    /// Computes the [exclusive OR] (`^`) of two bitboards.
    ///
    /// [exclusive OR]: https://www.chessprogramming.org/General_Setwise_Operations#Exclusive_Or
    pub fn bitxor(self, rhs: BitBoard) -> (r: BitBoard)
        ensures
            r.0 == self.0 ^ rhs.0,
    {
        BitBoard(self.0 ^ rhs.0)
    }

    /// [Multiplies] the bitboard's occupancies (wrapping).
    ///
    /// [multiplies]: https://www.chessprogramming.org/General_Setwise_Operations#Multiplication
    pub fn mul(self, rhs: BitBoard) -> (r: BitBoard)
        ensures
            r.0 == (self.0 as nat * rhs.0 as nat) % 0x1_0000_0000_0000_0000,
    {
        BitBoard(self.0.wrapping_mul(rhs.0))
    }

    /// [Bitshifts] the bitboard's occupancy towards higher values.
    ///
    /// [bitshifts]: https://www.chessprogramming.org/General_Setwise_Operations#Shifting_Bitboards
    pub fn shl(self, rhs: u8) -> (r: BitBoard)
        requires
            rhs < 64,
        ensures
            r.0 == self.0 << rhs,
    {
        BitBoard(self.0 << rhs)
    }

    /// [Bitshifts] the bitboard's occupancy towards lower values.
    ///
    /// [bitshifts]: https://www.chessprogramming.org/General_Setwise_Operations#Shifting_Bitboards
    pub fn shr(self, rhs: u8) -> (r: BitBoard)
        requires
            rhs < 64,
        ensures
            r.0 == self.0 >> rhs,
    {
        BitBoard(self.0 >> rhs)
    }

    /// Checks if two bitboards [are the same].
    ///
    /// [are the same]: https://www.chessprogramming.org/General_Setwise_Operations#Equality
    pub fn eq(&self, rhs: &BitBoard) -> (r: bool)
        ensures
            r == (self.0 == rhs.0),
    {
        self.0 == rhs.0
    }

    /// The assigning version of [`BitBoard::bitand`].
    pub fn bitand_assign(&mut self, rhs: BitBoard)
        ensures
            final(self).0 == old(self).0 & rhs.0,
    {
        *self = Self::bitand(*self, rhs);
    }

    /// The assigning version of [`BitBoard::bitor`].
    pub fn bitor_assign(&mut self, rhs: BitBoard)
        ensures
            final(self).0 == old(self).0 | rhs.0,
    {
        *self = Self::bitor(*self, rhs);
    }

    /// The assigning version of [`BitBoard::bitxor`].
    pub fn bitxor_assign(&mut self, rhs: BitBoard)
        ensures
            final(self).0 == old(self).0 ^ rhs.0,
    {
        *self = Self::bitxor(*self, rhs);
    }

    /// The assigning version of [`BitBoard::mul`].
    pub fn mul_assign(&mut self, rhs: BitBoard)
        ensures
            final(self).0 == (old(self).0 as nat * rhs.0 as nat) % 0x1_0000_0000_0000_0000,
    {
        *self = Self::mul(*self, rhs);
    }

    /// The assigning version of [`BitBoard::shl`].
    pub fn shl_assign(&mut self, rhs: u8)
        requires
            rhs < 64,
        ensures
            final(self).0 == old(self).0 << rhs,
    {
        *self = Self::shl(*self, rhs);
    }

    /// The assigning version of [`BitBoard::shr`].
    pub fn shr_assign(&mut self, rhs: u8)
        requires
            rhs < 64,
        ensures
            final(self).0 == old(self).0 >> rhs,
    {
        *self = Self::shr(*self, rhs);
    }

    /// Returns `true` if the bitboard is completely unoccupied.
    pub fn is_empty(self) -> (r: bool)
        ensures
            r == (self.0 == 0),
    {
        self.0 == 0
    }

    /// Returns `true` if the bitboard is completely unoccupied.
    pub fn none(self) -> (r: bool)
        ensures
            r == (self.0 == 0),
    {
        self.0 == 0
    }

    /// Returns `true` if the given square is occupied.
    pub fn has_square(self, sq: Square) -> (r: bool)
        ensures
            r == self.has(sq),
    {
        let b = BitBoard::from_square(sq);
        let r = !self.bitand(b).is_empty();
        proof {
            sq.lemma_repr_roundtrip();
            let x = self.0;
            let v = sq.idx() as u64;
            assert(v < 64 ==> ((x & (1u64 << v)) != 0 <==> (x >> v) & 1u64 == 1u64))
                by (bit_vector);
        }
        r
    }

    /// [Isolates] the least significant bit of occupancy.
    ///
    /// [isolates]: https://www.chessprogramming.org/General_Setwise_Operations#Isolation
    pub fn with_isolated_lsb(self) -> (r: BitBoard)
        ensures
            self.0 == 0 ==> r.0 == 0,
            self.0 != 0 ==> r.0 == 1u64 << u64_trailing_zeros(self.0),
    {
        if self.0 == 0 {
            BitBoard(0)
        } else {
            proof {
                lemma_lsb(self.0);
            }
            BitBoard(self.0 & !(self.0 - 1))
        }
    }

    /// [Isolates] the least significant bit of occupancy.
    ///
    /// [isolates]: https://www.chessprogramming.org/General_Setwise_Operations#Isolation
    pub fn isolated_ls1b(self) -> (r: BitBoard)
        ensures
            self.0 == 0 ==> r.0 == 0,
            self.0 != 0 ==> r.0 == 1u64 << u64_trailing_zeros(self.0),
    {
        self.with_isolated_lsb()
    }

    /// [Resets] the least significant bit of occupancy.
    ///
    /// [resets]: https://www.chessprogramming.org/General_Setwise_Operations#Reset
    pub fn with_reset_lsb(self) -> (r: BitBoard)
        ensures
            self.0 == 0 ==> r.0 == 0,
            self.0 != 0 ==> r.0 == self.0 & ((self.0 - 1) as u64),
    {
        if self.0 == 0 {
            BitBoard(0)
        } else {
            BitBoard(self.0 & (self.0 - 1))
        }
    }

    /// [Resets] the least significant bit of occupancy.
    ///
    /// [resets]: https://www.chessprogramming.org/General_Setwise_Operations#Reset
    pub fn reset_ls1b(self) -> (r: BitBoard)
        ensures
            self.0 == 0 ==> r.0 == 0,
            self.0 != 0 ==> r.0 == self.0 & ((self.0 - 1) as u64),
    {
        self.with_reset_lsb()
    }

    /// Sets every bit below the least significant set bit and that bit itself
    /// (all bits when the board is empty).
    pub fn separated_ls1b(self) -> (r: BitBoard)
        ensures
            self.0 == 0 ==> r.0 == u64::MAX,
            self.0 != 0 ==> r.0 == self.0 ^ ((self.0 - 1) as u64),
    {
        if self.0 == 0 {
            BitBoard(u64::MAX)
        } else {
            BitBoard(self.0 ^ (self.0 - 1))
        }
    }

    /// Returns the occupied square with the lowest index
    /// or `None` if the bitboard is empty.
    pub fn bit_scan_forward(self) -> (r: Option<Square>)
        ensures
            self.0 == 0 <==> r is None,
            r matches Some(s) ==> s.idx() == u64_trailing_zeros(self.0) && self.has(s) && (
            forall|j: int| 0 <= j < s.idx() ==> !bit(self.0, j)),
            self.0 != 0 ==> r == Some(self.squares()[0]),
    {
        if self.is_empty() {
            return None;
        }
        proof {
            lemma_lsb(self.0);
            Square::lemma_from_repr_in_range(u64_trailing_zeros(self.0) as int);
        }
        let t = self.0.trailing_zeros();
        Some(Square::from_repr(t as u8).unwrap())
    }

    /// Returns the result of [`BitBoard::bit_scan_forward`] and removes this
    /// square from the bitboard. Returns `None` if the bitboard is empty.
    pub fn iterator_next(&mut self) -> (r: Option<Square>)
        ensures
            old(self).0 == 0 ==> r is None && final(self).0 == 0,
            old(self).0 != 0 ==> r == Some(old(self).squares()[0]) && final(self).0 == old(
                self,
            ).0 & ((old(self).0 - 1) as u64),
            old(self).0 != 0 ==> old(self).squares() == seq![r.unwrap()] + final(self).squares(),
    {
        match self.bit_scan_forward() {
            Some(sq) => {
                *self = self.with_reset_lsb();
                Some(sq)
            },
            None => None,
        }
    }

    /// Bitshifts the bitboard based on the sign of the input.
    ///
    /// Positive values shift `x` bits to the left,
    /// while negative values shift `|x|` bits to the right.
    pub fn genshift(self, x: i8) -> (r: BitBoard)
        requires
            -64 < x < 64,
        ensures
            x >= 0 ==> r.0 == self.0 << (x as u64),
            x < 0 ==> r.0 == self.0 >> ((-x) as u64),
    {
        if x >= 0 {
            self.shl(x as u8)
        } else {
            self.shr((-x) as u8)
        }
    }
}


/// `x` has at most `64 - tz(x)` squares: each step of [`squares_of`] moves the lowest bit up.
pub proof fn lemma_squares_len(x: u64)
    ensures
        x != 0 ==> squares_of(x).len() <= 64 - u64_trailing_zeros(x),
        squares_of(x).len() <= 64,
    decreases x,
{
    if x != 0 {
        lemma_lsb(x);
        lemma_reset_lsb_decreases(x);
        let y = x & ((x - 1) as u64);
        lemma_squares_len(y);
        if y != 0 {
            lemma_lsb(y);
            assert forall|j: int| 0 <= j <= u64_trailing_zeros(x) implies !bit(y, j) by {
                assert(bit(x & ((x - 1) as u64), j) <==> (bit(x, j) && j != u64_trailing_zeros(x)));
                if j < u64_trailing_zeros(x) {
                    assert(!bit(x, j));
                }
            }
            assert(u64_trailing_zeros(y) > u64_trailing_zeros(x));
        }
    }
}

/// Every square listed by [`squares_of`] is in the word.
pub proof fn lemma_squares_sound(x: u64, k: int)
    requires
        0 <= k < squares_of(x).len(),
    ensures
        bit(x, squares_of(x)[k].idx()),
    decreases x,
{
    if x != 0 {
        lemma_lsb(x);
        lemma_reset_lsb_decreases(x);
        let y = x & ((x - 1) as u64);
        Square::lemma_from_repr_in_range(u64_trailing_zeros(x) as int);
        if k > 0 {
            lemma_squares_sound(y, k - 1);
            squares_of(y)[k - 1].lemma_repr_roundtrip();
        }
    }
}

/// Membership in a shifted constant pattern (ranks).
pub proof fn lemma_rank_bits(r: u64, i: u64)
    requires
        r < 8,
        i < 64,
    ensures
        (((0xffu64 << (8 * r)) >> i) & 1u64 == 1u64) <==> i / 8 == r,
{
    assert(r < 8 && i < 64 ==> ((((0xffu64 << (8 * r)) >> i) & 1u64 == 1u64) <==> i / 8 == r))
        by (bit_vector);
}

/// Membership in a shifted constant pattern (files).
proof fn lemma_file_bits(f: u64, i: u64)
    requires
        f < 8,
        i < 64,
    ensures
        (((0x0101010101010101u64 << f) >> i) & 1u64 == 1u64) <==> i % 8 == f,
{
    assert(f < 8 && i < 64 ==> ((((0x0101010101010101u64 << f) >> i) & 1u64 == 1u64) <==> i % 8
        == f)) by (bit_vector);
}

/// Membership in a shifted main diagonal.
proof fn lemma_pos_diag_bits(k: u64, i: u64)
    requires
        k < 8,
        i < 64,
    ensures
        (((0x8040201008040201u64 << (8 * k)) >> i) & 1u64 == 1u64) <==> i / 8 == i % 8 + k,
        (((0x8040201008040201u64 >> (8 * k)) >> i) & 1u64 == 1u64) <==> i % 8 == i / 8 + k,
{
    assert(k < 8 && i < 64 ==> (((((0x8040201008040201u64 << (8 * k)) >> i) & 1u64 == 1u64)
        <==> i / 8 == i % 8 + k) && ((((0x8040201008040201u64 >> (8 * k)) >> i) & 1u64 == 1u64)
        <==> i % 8 == i / 8 + k))) by (bit_vector);
}

/// Membership in a shifted main antidiagonal.
proof fn lemma_neg_diag_bits(k: u64, i: u64)
    requires
        k < 8,
        i < 64,
    ensures
        (((0x0102040810204080u64 << (8 * k)) >> i) & 1u64 == 1u64) <==> i / 8 + i % 8 == 7 + k,
        (((0x0102040810204080u64 >> (8 * k)) >> i) & 1u64 == 1u64) <==> i / 8 + i % 8 + k == 7,
{
    assert(k < 8 && i < 64 ==> (((((0x0102040810204080u64 << (8 * k)) >> i) & 1u64 == 1u64)
        <==> i / 8 + i % 8 == 7 + k) && ((((0x0102040810204080u64 >> (8 * k)) >> i) & 1u64 == 1u64)
        <==> i / 8 + i % 8 + k == 7))) by (bit_vector);
}


/// The bit at one index of the basic word operations.
proof fn lemma_bit_ops_at(x: u64, y: u64, jj: u64)
    by (bit_vector)
    requires
        jj < 64,
    ensures
        (((x | y) >> jj) & 1u64 == 1u64) <==> (((x >> jj) & 1u64 == 1u64) || ((y >> jj) & 1u64 == 1u64)),
        (((x & y) >> jj) & 1u64 == 1u64) <==> (((x >> jj) & 1u64 == 1u64) && ((y >> jj) & 1u64 == 1u64)),
        (((x ^ y) >> jj) & 1u64 == 1u64) <==> (((x >> jj) & 1u64 == 1u64) != ((y >> jj) & 1u64 == 1u64)),
        (((!x) >> jj) & 1u64 == 1u64) <==> !((x >> jj) & 1u64 == 1u64),
{
}

/// Bits of the basic word operations, square by square.
pub proof fn lemma_bit_ops(x: u64, y: u64)
    ensures
        forall|j: int| 0 <= j < 64 ==> (#[trigger] bit(x | y, j) <==> (bit(x, j) || bit(y, j))),
        forall|j: int| 0 <= j < 64 ==> (#[trigger] bit(x & y, j) <==> (bit(x, j) && bit(y, j))),
        forall|j: int| 0 <= j < 64 ==> (#[trigger] bit(x ^ y, j) <==> (bit(x, j) != bit(y, j))),
        forall|j: int| 0 <= j < 64 ==> (#[trigger] bit(!x, j) <==> !bit(x, j)),
{
    assert forall|j: int| 0 <= j < 64 implies (#[trigger] bit(x | y, j) <==> (bit(x, j) || bit(y, j))) by {
        lemma_bit_ops_at(x, y, j as u64);
    }
    assert forall|j: int| 0 <= j < 64 implies (#[trigger] bit(x & y, j) <==> (bit(x, j) && bit(y, j))) by {
        lemma_bit_ops_at(x, y, j as u64);
    }
    assert forall|j: int| 0 <= j < 64 implies (#[trigger] bit(x ^ y, j) <==> (bit(x, j) != bit(y, j))) by {
        lemma_bit_ops_at(x, y, j as u64);
    }
    assert forall|j: int| 0 <= j < 64 implies (#[trigger] bit(!x, j) <==> !bit(x, j)) by {
        lemma_bit_ops_at(x, y, j as u64);
    }
}

/// The bits of a single-square word.
pub proof fn lemma_bit_single(k: int)
    requires
        0 <= k < 64,
    ensures
        forall|j: int| 0 <= j < 64 ==> (#[trigger] bit(1u64 << (k as u64), j) <==> j == k),
{
    assert forall|j: int| 0 <= j < 64 implies (#[trigger] bit(1u64 << (k as u64), j) <==> j == k) by {
        let jj = j as u64;
        let kk = k as u64;
        assert(jj < 64 && kk < 64 ==> ((((1u64 << kk) >> jj) & 1u64 == 1u64) <==> jj == kk)) by (bit_vector);
    }
}

/// Words agreeing on their lowest `k` bits agree after shifting the other bits out.
proof fn lemma_bits_prefix(x: u64, y: u64, k: nat)
    requires
        k <= 64,
        forall|j: int| 0 <= j < k ==> #[trigger] bit(x, j) == bit(y, j),
    ensures
        k == 0 || x << ((64 - k) as u64) == y << ((64 - k) as u64),
    decreases k,
{
    if k > 0 {
        lemma_bits_prefix(x, y, (k - 1) as nat);
        let kk = (k - 1) as u64;
        assert(bit(x, kk as int) == bit(y, kk as int));
        assert(kk < 64 && (kk == 0 || x << ((64 - kk) as u64) == y << ((64 - kk) as u64)) && (((x
            >> kk) & 1u64 == 1u64) == ((y >> kk) & 1u64 == 1u64)) ==> x << ((63 - kk) as u64) == y
            << ((63 - kk) as u64)) by (bit_vector);
    }
}

/// Two words with the same 64 bits are equal.
pub proof fn lemma_bits_equal(x: u64, y: u64)
    requires
        forall|j: int| 0 <= j < 64 ==> #[trigger] bit(x, j) == bit(y, j),
    ensures
        x == y,
{
    lemma_bits_prefix(x, y, 64);
    assert(x << 0u64 == x && y << 0u64 == y) by (bit_vector);
}

impl BitBoard {
    /// Constructs a bitboard with only the given rank occupied.
    pub fn from_rank(value: Rank) -> (r: BitBoard)
        ensures
            r.0 == 0xffu64 << (8 * value.idx()) as u64,
            forall|s: Square| r.has(s) <==> s.spec_rank() == value,
    {
        proof {
            value.lemma_repr_roundtrip();
        }
        let r = BitBoard(0xff).shl(File::COUNT as u8 * value.repr());
        proof {
            assert forall|s: Square| r.has(s) <==> s.spec_rank() == value by {
                s.lemma_repr_roundtrip();
                lemma_rank_bits(value.idx() as u64, s.idx() as u64);
                Rank::lemma_from_repr_in_range(s.idx() / 8);
                Rank::lemma_idx_injective(s.spec_rank(), value);
            }
        }
        r
    }

    /// Constructs a bitboard with only the given file occupied.
    pub fn from_file(value: File) -> (r: BitBoard)
        ensures
            r.0 == 0x0101010101010101u64 << value.idx() as u64,
            forall|s: Square| r.has(s) <==> s.spec_file() == value,
    {
        proof {
            value.lemma_repr_roundtrip();
        }
        let r = BitBoard(0x0101010101010101).shl(value.repr());
        proof {
            assert forall|s: Square| r.has(s) <==> s.spec_file() == value by {
                s.lemma_repr_roundtrip();
                lemma_file_bits(value.idx() as u64, s.idx() as u64);
                File::lemma_from_repr_in_range(s.idx() % 8);
                File::lemma_idx_injective(s.spec_file(), value);
            }
        }
        r
    }

    /// Constructs a bitboard with only the given positive diagonal occupied.
    pub fn from_pos_diag(diag: PosDiag) -> (r: BitBoard)
        ensures
            diag.idx() >= 0 ==> r.0 == 0x8040201008040201u64 << (8 * diag.idx()) as u64,
            diag.idx() < 0 ==> r.0 == 0x8040201008040201u64 >> (-8 * diag.idx()) as u64,
            forall|s: Square| r.has(s) <==> s.idx() / 8 - s.idx() % 8 == diag.idx(),
    {
        proof {
            diag.lemma_repr_roundtrip();
        }
        let r = BitBoard(0x8040201008040201).genshift(diag.repr() * File::COUNT as i8);
        proof {
            assert forall|s: Square| r.has(s) <==> s.idx() / 8 - s.idx() % 8 == diag.idx() by {
                s.lemma_repr_roundtrip();
                if diag.idx() >= 0 {
                    lemma_pos_diag_bits(diag.idx() as u64, s.idx() as u64);
                } else {
                    lemma_pos_diag_bits((-diag.idx()) as u64, s.idx() as u64);
                }
            }
        }
        r
    }

    /// Constructs a bitboard with only the given negative diagonal occupied.
    pub fn from_neg_diag(diag: NegDiag) -> (r: BitBoard)
        ensures
            diag.idx() >= 0 ==> r.0 == 0x0102040810204080u64 << (8 * diag.idx()) as u64,
            diag.idx() < 0 ==> r.0 == 0x0102040810204080u64 >> (-8 * diag.idx()) as u64,
            forall|s: Square| r.has(s) <==> s.idx() / 8 + s.idx() % 8 - 7 == diag.idx(),
    {
        proof {
            diag.lemma_repr_roundtrip();
        }
        let r = BitBoard(0x0102040810204080).genshift(diag.repr() * File::COUNT as i8);
        proof {
            assert forall|s: Square| r.has(s) <==> s.idx() / 8 + s.idx() % 8 - 7 == diag.idx() by {
                s.lemma_repr_roundtrip();
                if diag.idx() >= 0 {
                    lemma_neg_diag_bits(diag.idx() as u64, s.idx() as u64);
                } else {
                    lemma_neg_diag_bits((-diag.idx()) as u64, s.idx() as u64);
                }
            }
        }
        r
    }

    /// Returns the number of occupied squares.
    pub fn count(self) -> (r: u32)
        ensures
            r == self.squares().len(),
            r <= 64,
    {
        let mut bb = self;
        let mut n: u32 = 0;
        proof {
            lemma_squares_len(self.0);
        }
        while !bb.is_empty()
            invariant
                n + squares_of(bb.0).len() == squares_of(self.0).len(),
                squares_of(self.0).len() <= 64,
            decreases bb.0,
        {
            proof {
                lemma_reset_lsb_decreases(bb.0);
            }
            let _ = bb.iterator_next();
            n = n + 1;
        }
        n
    }

    /// Moves every square one file towards the A file (squares on the A file vanish).
    pub fn left(self) -> (r: BitBoard)
        ensures
            r.0 == (self.0 >> 1u64) & 0x7f7f7f7f7f7f7f7fu64,
    {
        BitBoard((self.0 >> 1u64) & 0x7f7f7f7f7f7f7f7f)
    }

    /// Moves every square one file towards the H file (squares on the H file vanish).
    pub fn right(self) -> (r: BitBoard)
        ensures
            r.0 == (self.0 << 1u64) & 0xfefefefefefefefeu64,
    {
        BitBoard((self.0 << 1u64) & 0xfefefefefefefefe)
    }
}

} // verus!
