//! The placement of the pieces on the board.

use vstd::prelude::*;

use crate::attacks::{bishop_spec, king_spec, knight_spec, pawn_attack_spec, rook_spec};
use crate::bitboard::{bit, BitBoard};
use crate::pieces::{Color, Piece};
use crate::square::Square;

verus! {

/// Stores all the occupancy masks ([`BitBoard`]s) in chess position.
///
/// Effectively represents which pieces are placed on the board.
#[derive(Debug, Clone, Copy, PartialEq, Eq, Structural, Hash)]
pub struct Board {
    white: BitBoard,
    black: BitBoard,
    pawn: BitBoard,
    knight: BitBoard,
    bishop: BitBoard,
    rook: BitBoard,
    queen: BitBoard,
    king: BitBoard,
}

impl Board {
    /// The squares occupied by pieces of the color.
    pub closed spec fn color_bb(self, color: Color) -> u64 {
        match color {
            Color::White => self.white.0,
            Color::Black => self.black.0,
        }
    }

    /// The squares occupied by pieces of the kind.
    pub closed spec fn piece_bb(self, piece: Piece) -> u64 {
        match piece {
            Piece::Pawn => self.pawn.0,
            Piece::Knight => self.knight.0,
            Piece::Bishop => self.bishop.0,
            Piece::Rook => self.rook.0,
            Piece::Queen => self.queen.0,
            Piece::King => self.king.0,
        }
    }

    /// Two boards with the same masks are the same board.
    pub proof fn lemma_ext_equal(a: Board, b: Board)
        requires
            forall|c: Color| a.color_bb(c) == b.color_bb(c),
            forall|p: Piece| a.piece_bb(p) == b.piece_bb(p),
        ensures
            a == b,
    {
        assert(a.color_bb(Color::White) == b.color_bb(Color::White));
        assert(a.color_bb(Color::Black) == b.color_bb(Color::Black));
        assert(a.piece_bb(Piece::Pawn) == b.piece_bb(Piece::Pawn));
        assert(a.piece_bb(Piece::Knight) == b.piece_bb(Piece::Knight));
        assert(a.piece_bb(Piece::Bishop) == b.piece_bb(Piece::Bishop));
        assert(a.piece_bb(Piece::Rook) == b.piece_bb(Piece::Rook));
        assert(a.piece_bb(Piece::Queen) == b.piece_bb(Piece::Queen));
        assert(a.piece_bb(Piece::King) == b.piece_bb(Piece::King));
    }

    /// The squares occupied by pieces of the color and the kind.
    pub open spec fn color_piece_bb(self, color: Color, piece: Piece) -> u64 {
        self.color_bb(color) & self.piece_bb(piece)
    }

    /// All occupied squares.
    pub open spec fn occupied_bb(self) -> u64 {
        self.color_bb(Color::White) | self.color_bb(Color::Black)
    }

    /// The kind of the piece on the square, checking the kinds in the order
    /// pawn, bishop, knight, rook, queen, king.
    pub open spec fn spec_piece_at(self, sq: Square) -> Option<Piece> {
        if bit(self.piece_bb(Piece::Pawn), sq.idx()) {
            Some(Piece::Pawn)
        } else if bit(self.piece_bb(Piece::Bishop), sq.idx()) {
            Some(Piece::Bishop)
        } else if bit(self.piece_bb(Piece::Knight), sq.idx()) {
            Some(Piece::Knight)
        } else if bit(self.piece_bb(Piece::Rook), sq.idx()) {
            Some(Piece::Rook)
        } else if bit(self.piece_bb(Piece::Queen), sq.idx()) {
            Some(Piece::Queen)
        } else if bit(self.piece_bb(Piece::King), sq.idx()) {
            Some(Piece::King)
        } else {
            None
        }
    }

    /// The color of the piece on the square, checking white first.
    pub open spec fn spec_color_at(self, sq: Square) -> Option<Color> {
        if bit(self.color_bb(Color::White), sq.idx()) {
            Some(Color::White)
        } else if bit(self.color_bb(Color::Black), sq.idx()) {
            Some(Color::Black)
        } else {
            None
        }
    }

    /// Number of piece kinds present on square `i`.
    pub open spec fn kinds_at(self, i: int) -> int {
        (if bit(self.piece_bb(Piece::Pawn), i) { 1int } else { 0 }) + (if bit(
            self.piece_bb(Piece::Knight),
            i,
        ) { 1int } else { 0 }) + (if bit(self.piece_bb(Piece::Bishop), i) { 1int } else { 0 }) + (
        if bit(self.piece_bb(Piece::Rook), i) { 1int } else { 0 }) + (if bit(
            self.piece_bb(Piece::Queen),
            i,
        ) { 1int } else { 0 }) + (if bit(self.piece_bb(Piece::King), i) { 1int } else { 0 })
    }

    /// Square `i` is consistent: at most one color, at most one kind, and a color
    /// exactly when a kind.
    pub open spec fn sq_ok(self, i: int) -> bool {
        let w = bit(self.color_bb(Color::White), i);
        let b = bit(self.color_bb(Color::Black), i);
        &&& !(w && b)
        &&& self.kinds_at(i) <= 1
        &&& (w || b) <==> self.kinds_at(i) == 1
    }

    /// A consistent board: every square is consistent.
    pub open spec fn wf(self) -> bool {
        forall|i: int| 0 <= i < 64 ==> #[trigger] self.sq_ok(i)
    }

    /// The board with the masks of one color and one kind replaced.
    pub closed spec fn with(self, color: Color, piece: Piece, cbits: u64, pbits: u64) -> Board {
        let b1 = match color {
            Color::White => Board { white: BitBoard(cbits), ..self },
            Color::Black => Board { black: BitBoard(cbits), ..self },
        };
        match piece {
            Piece::Pawn => Board { pawn: BitBoard(pbits), ..b1 },
            Piece::Knight => Board { knight: BitBoard(pbits), ..b1 },
            Piece::Bishop => Board { bishop: BitBoard(pbits), ..b1 },
            Piece::Rook => Board { rook: BitBoard(pbits), ..b1 },
            Piece::Queen => Board { queen: BitBoard(pbits), ..b1 },
            Piece::King => Board { king: BitBoard(pbits), ..b1 },
        }
    }

    /// The masks of [`Board::with`].
    pub proof fn lemma_with(self, color: Color, piece: Piece, cbits: u64, pbits: u64)
        ensures
            self.with(color, piece, cbits, pbits).color_bb(color) == cbits,
            self.with(color, piece, cbits, pbits).piece_bb(piece) == pbits,
            forall|c: Color| c != color ==> #[trigger] self.with(color, piece, cbits, pbits).color_bb(c) == self.color_bb(c),
            forall|p: Piece| p != piece ==> #[trigger] self.with(color, piece, cbits, pbits).piece_bb(p) == self.piece_bb(p),
    {
    }

    /// The board after [`Board::mask_or`].
    pub open spec fn spec_mask_or(self, color: Color, piece: Piece, mask: u64) -> Board {
        self.with(color, piece, self.color_bb(color) | mask, self.piece_bb(piece) | mask)
    }

    /// The board after [`Board::mask_and`].
    pub open spec fn spec_mask_and(self, color: Color, piece: Piece, mask: u64) -> Board {
        self.with(color, piece, self.color_bb(color) & mask, self.piece_bb(piece) & mask)
    }

    /// The board after [`Board::mask_xor`].
    pub open spec fn spec_mask_xor(self, color: Color, piece: Piece, mask: u64) -> Board {
        self.with(color, piece, self.color_bb(color) ^ mask, self.piece_bb(piece) ^ mask)
    }

    /// Toggling the same squares twice gives the board back.
    pub proof fn lemma_xor_twice(self, color: Color, piece: Piece, a: u64, b: u64)
        ensures
            self.spec_mask_xor(color, piece, a | b).spec_mask_xor(color, piece, b | a) == self,
    {
        let b1 = self.spec_mask_xor(color, piece, a | b);
        self.lemma_with(color, piece, self.color_bb(color) ^ (a | b), self.piece_bb(piece) ^ (a | b));
        b1.lemma_with(color, piece, b1.color_bb(color) ^ (b | a), b1.piece_bb(piece) ^ (b | a));
        let x = self.color_bb(color);
        let y = self.piece_bb(piece);
        assert((x ^ (a | b)) ^ (b | a) == x && (y ^ (a | b)) ^ (b | a) == y) by (bit_vector);
        Board::lemma_ext_equal(b1.spec_mask_xor(color, piece, b | a), self);
    }

    /// Clearing a square that holds the color and the kind, then setting it
    /// again, gives the board back.
    pub proof fn lemma_clear_then_set(self, color: Color, piece: Piece, k: int)
        requires
            0 <= k < 64,
            bit(self.color_bb(color), k),
            bit(self.piece_bb(piece), k),
        ensures
            self.spec_mask_and(color, piece, !(1u64 << (k as u64))).spec_mask_or(
                color,
                piece,
                1u64 << (k as u64),
            ) == self,
    {
        let m = 1u64 << (k as u64);
        let b1 = self.spec_mask_and(color, piece, !m);
        self.lemma_with(color, piece, self.color_bb(color) & !m, self.piece_bb(piece) & !m);
        b1.lemma_with(color, piece, b1.color_bb(color) | m, b1.piece_bb(piece) | m);
        let x = self.color_bb(color);
        let y = self.piece_bb(piece);
        let kk = k as u64;
        assert((kk < 64 && (x >> kk) & 1u64 == 1u64 ==> (x & !(1u64 << kk)) | (1u64 << kk) == x) && (kk < 64 && (y
            >> kk) & 1u64 == 1u64 ==> (y & !(1u64 << kk)) | (1u64 << kk) == y)) by (bit_vector);
        Board::lemma_ext_equal(b1.spec_mask_or(color, piece, m), self);
    }

    /// Setting a square that holds neither the color nor the kind, then clearing
    /// it again, gives the board back.
    pub proof fn lemma_set_then_clear(self, color: Color, piece: Piece, k: int)
        requires
            0 <= k < 64,
            !bit(self.color_bb(color), k),
            !bit(self.piece_bb(piece), k),
        ensures
            self.spec_mask_or(color, piece, 1u64 << (k as u64)).spec_mask_and(
                color,
                piece,
                !(1u64 << (k as u64)),
            ) == self,
    {
        let m = 1u64 << (k as u64);
        let b1 = self.spec_mask_or(color, piece, m);
        self.lemma_with(color, piece, self.color_bb(color) | m, self.piece_bb(piece) | m);
        b1.lemma_with(color, piece, b1.color_bb(color) & !m, b1.piece_bb(piece) & !m);
        let x = self.color_bb(color);
        let y = self.piece_bb(piece);
        let kk = k as u64;
        assert((kk < 64 && !((x >> kk) & 1u64 == 1u64) ==> (x | (1u64 << kk)) & !(1u64 << kk) == x) && (kk < 64
            && !((y >> kk) & 1u64 == 1u64) ==> (y | (1u64 << kk)) & !(1u64 << kk) == y)) by (bit_vector);
        Board::lemma_ext_equal(b1.spec_mask_and(color, piece, !m), self);
    }

    /// Whether this is the board of the standard starting position.
    pub open spec fn is_initial(self) -> bool {
        &&& self.color_bb(Color::White) == 0xffffu64
        &&& self.color_bb(Color::Black) == 0xffff000000000000u64
        &&& self.piece_bb(Piece::Pawn) == 0x00ff00000000ff00u64
        &&& self.piece_bb(Piece::Knight) == 0x4200000000000042u64
        &&& self.piece_bb(Piece::Bishop) == 0x2400000000000024u64
        &&& self.piece_bb(Piece::Rook) == 0x8100000000000081u64
        &&& self.piece_bb(Piece::Queen) == 0x0800000000000008u64
        &&& self.piece_bb(Piece::King) == 0x1000000000000010u64
    }

    /// The board of the standard starting position.
    pub fn initial() -> (r: Self)
        ensures
            r.wf(),
            r.is_initial(),
    {
        let r = Self {
            white: BitBoard(0xffff),
            black: BitBoard(0xffff000000000000),
            pawn: BitBoard(0x00ff00000000ff00),
            knight: BitBoard(0x4200000000000042),
            bishop: BitBoard(0x2400000000000024),
            rook: BitBoard(0x8100000000000081),
            queen: BitBoard(0x0800000000000008),
            king: BitBoard(0x1000000000000010),
        };
        proof {
            assert forall|i: int| 0 <= i < 64 implies #[trigger] r.sq_ok(i) by {
                let ii = i as u64;
                assert(ii < 64 ==> {
                    let bw = (0xffffu64 >> ii) & 1 == 1;
                    let bb = (0xffff000000000000u64 >> ii) & 1 == 1;
                    let kinds = (if (0x00ff00000000ff00u64 >> ii) & 1 == 1 { 1u64 } else { 0 })
                        + (if (0x4200000000000042u64 >> ii) & 1 == 1 { 1u64 } else { 0 })
                        + (if (0x2400000000000024u64 >> ii) & 1 == 1 { 1u64 } else { 0 })
                        + (if (0x8100000000000081u64 >> ii) & 1 == 1 { 1u64 } else { 0 })
                        + (if (0x0800000000000008u64 >> ii) & 1 == 1 { 1u64 } else { 0 })
                        + (if (0x1000000000000010u64 >> ii) & 1 == 1 { 1u64 } else { 0 });
                    &&& !(bw && bb)
                    &&& kinds <= 1
                    &&& (bw || bb) <==> kinds == 1
                }) by (bit_vector);
            }
        }
        r
    }

    /// Constructs a new empty [`Board`].
    pub fn empty() -> (r: Self)
        ensures
            forall|c: Color| r.color_bb(c) == 0,
            forall|p: Piece| r.piece_bb(p) == 0,
            r.wf(),
    {
        let r = Self {
            white: BitBoard(0),
            black: BitBoard(0),
            pawn: BitBoard(0),
            knight: BitBoard(0),
            bishop: BitBoard(0),
            rook: BitBoard(0),
            queen: BitBoard(0),
            king: BitBoard(0),
        };
        proof {
            assert forall|i: int| 0 <= i < 64 implies #[trigger] r.sq_ok(i) by {
                crate::bitboard::lemma_bits_of_constants(i as u64);
            }
        }
        r
    }

    /// Returns all pieces of specified color.
    pub fn get_color(&self, color: Color) -> (r: BitBoard)
        ensures
            r.0 == self.color_bb(color),
    {
        match color {
            Color::White => self.white,
            Color::Black => self.black,
        }
    }

    /// Returns all pieces of specified kind.
    pub fn get_piece(&self, piece: Piece) -> (r: BitBoard)
        ensures
            r.0 == self.piece_bb(piece),
    {
        match piece {
            Piece::Pawn => self.pawn,
            Piece::Knight => self.knight,
            Piece::Bishop => self.bishop,
            Piece::Rook => self.rook,
            Piece::Queen => self.queen,
            Piece::King => self.king,
        }
    }

    /// Returns all pieces of the specified color that have the specified kind.
    pub fn get_color_piece(&self, color: Color, piece: Piece) -> (r: BitBoard)
        ensures
            r.0 == self.color_piece_bb(color, piece),
    {
        self.get_color(color).bitand(self.get_piece(piece))
    }

    /// Returns all the pieces on the board.
    pub fn get_occupied(&self) -> (r: BitBoard)
        ensures
            r.0 == self.occupied_bb(),
    {
        self.get_color(Color::White).bitor(self.get_color(Color::Black))
    }

    /// Returns all the pieces on the board.
    pub fn get_occupance(&self) -> (r: BitBoard)
        ensures
            r.0 == self.occupied_bb(),
    {
        self.get_occupied()
    }

    /// Returns all the empty squares.
    pub fn get_empty(&self) -> (r: BitBoard)
        ensures
            r.0 == !self.occupied_bb(),
    {
        self.get_occupied().not()
    }

    /// Returns the kind of the piece at the specified square.
    pub fn get_piece_at(&self, sq: Square) -> (r: Option<Piece>)
        ensures
            r == self.spec_piece_at(sq),
    {
        if self.get_piece(Piece::Pawn).has_square(sq) {
            Some(Piece::Pawn)
        } else if self.get_piece(Piece::Bishop).has_square(sq) {
            Some(Piece::Bishop)
        } else if self.get_piece(Piece::Knight).has_square(sq) {
            Some(Piece::Knight)
        } else if self.get_piece(Piece::Rook).has_square(sq) {
            Some(Piece::Rook)
        } else if self.get_piece(Piece::Queen).has_square(sq) {
            Some(Piece::Queen)
        } else if self.get_piece(Piece::King).has_square(sq) {
            Some(Piece::King)
        } else {
            None
        }
    }

    /// Returns the color of the piece at the specified square.
    pub fn get_color_at(&self, sq: Square) -> (r: Option<Color>)
        ensures
            r == self.spec_color_at(sq),
    {
        if self.get_color(Color::White).has_square(sq) {
            Some(Color::White)
        } else if self.get_color(Color::Black).has_square(sq) {
            Some(Color::Black)
        } else {
            None
        }
    }

    /// On a consistent board, a square has a color exactly when it has a kind.
    pub proof fn lemma_color_iff_piece(self, sq: Square)
        requires
            self.wf(),
        ensures
            self.spec_color_at(sq) is Some <==> self.spec_piece_at(sq) is Some,
            bit(self.occupied_bb(), sq.idx()) <==> self.spec_color_at(sq) is Some,
    {
        sq.lemma_repr_roundtrip();
        assert(self.sq_ok(sq.idx()));
        crate::bitboard::lemma_bit_ops(self.color_bb(Color::White), self.color_bb(Color::Black));
    }

    /// Returns the color and the kind of the piece at the specified square.
    pub fn get_color_piece_at(&self, sq: Square) -> (r: Option<(Color, Piece)>)
        requires
            self.wf(),
        ensures
            r is Some <==> self.spec_color_at(sq) is Some,
            r matches Some((c, p)) ==> self.spec_color_at(sq) == Some(c) && self.spec_piece_at(sq)
                == Some(p),
    {
        proof {
            self.lemma_color_iff_piece(sq);
        }
        let color = self.get_color_at(sq)?;
        let piece = self.get_piece_at(sq).unwrap();
        Some((color, piece))
    }

    /// Returns all piece attacking (putting pressure on) the specified square.
    pub fn get_attackers_to(&self, sq: Square) -> (r: BitBoard)
        ensures
            r.0 == (pawn_attack_spec(sq, Color::White) & self.color_piece_bb(
                Color::Black,
                Piece::Pawn,
            )) | (pawn_attack_spec(sq, Color::Black) & self.color_piece_bb(
                Color::White,
                Piece::Pawn,
            )) | (knight_spec(sq) & self.piece_bb(Piece::Knight)) | (king_spec(sq)
                & self.piece_bb(Piece::King)) | (bishop_spec(self.occupied_bb(), sq) & (
            self.piece_bb(Piece::Queen) | self.piece_bb(Piece::Bishop))) | (rook_spec(
                self.occupied_bb(),
                sq,
            ) & (self.piece_bb(Piece::Queen) | self.piece_bb(Piece::Rook))),
    {
        let occ = self.get_occupied();

        BitBoard::pawn_attacks(sq, Color::White).bitand(
            self.get_color_piece(Color::Black, Piece::Pawn),
        ).bitor(
            BitBoard::pawn_attacks(sq, Color::Black).bitand(
                self.get_color_piece(Color::White, Piece::Pawn),
            ),
        ).bitor(BitBoard::knight_attacks(sq).bitand(self.get_piece(Piece::Knight))).bitor(
            BitBoard::king_attacks(sq).bitand(self.get_piece(Piece::King)),
        ).bitor(BitBoard::bishop_attacks(occ, sq).bitand(self.get_bishop_sliders())).bitor(
            BitBoard::rook_attacks(occ, sq).bitand(self.get_rook_sliders()),
        )
    }

    /// The pieces of the color attacking the square.
    pub open spec fn spec_color_attackers_to(self, sq: Square, color: Color) -> u64 {
        self.color_bb(color) & ((pawn_attack_spec(sq, color.opp()) & self.piece_bb(Piece::Pawn))
            | (knight_spec(sq) & self.piece_bb(Piece::Knight)) | (king_spec(sq) & self.piece_bb(
            Piece::King,
        )) | (bishop_spec(self.occupied_bb(), sq) & (self.piece_bb(Piece::Queen) | self.piece_bb(
            Piece::Bishop,
        ))) | (rook_spec(self.occupied_bb(), sq) & (self.piece_bb(Piece::Queen) | self.piece_bb(
            Piece::Rook,
        ))))
    }

    /// Same as [`Board::get_attackers_to`], but only returns pieces of the given color.
    pub fn get_color_attackers_to(&self, sq: Square, color: Color) -> (r: BitBoard)
        ensures
            r.0 == self.spec_color_attackers_to(sq, color),
    {
        let occ = self.get_occupied();

        self.get_color(color).bitand(
            BitBoard::pawn_attacks(sq, color.not()).bitand(self.get_piece(Piece::Pawn)).bitor(
                BitBoard::knight_attacks(sq).bitand(self.get_piece(Piece::Knight)),
            ).bitor(BitBoard::king_attacks(sq).bitand(self.get_piece(Piece::King))).bitor(
                BitBoard::bishop_attacks(occ, sq).bitand(self.get_bishop_sliders()),
            ).bitor(BitBoard::rook_attacks(occ, sq).bitand(self.get_rook_sliders())),
        )
    }

    /// Returns `true` if the specified square is empty and the king
    /// of specified color wouldn't be in check on this square.
    pub fn can_king_move_to(&self, sq: Square, color: Color) -> (r: bool)
        ensures
            r == (!bit(self.occupied_bb(), sq.idx()) && self.spec_color_attackers_to(
                sq,
                color.opp(),
            ) == 0),
    {
        !self.get_occupied().has_square(sq) && self.get_color_attackers_to(
            sq,
            color.not(),
        ).is_empty()
    }

    /// Returns the bitboard with queens and bishops.
    pub fn get_bishop_sliders(&self) -> (r: BitBoard)
        ensures
            r.0 == self.piece_bb(Piece::Queen) | self.piece_bb(Piece::Bishop),
    {
        self.get_piece(Piece::Queen).bitor(self.get_piece(Piece::Bishop))
    }

    /// Same as [`Board::get_bishop_sliders`], but only returns pieces of the given color.
    pub fn get_color_bishop_sliders(&self, color: Color) -> (r: BitBoard)
        ensures
            r.0 == self.color_bb(color) & (self.piece_bb(Piece::Queen) | self.piece_bb(
                Piece::Bishop,
            )),
    {
        self.get_color(color).bitand(self.get_bishop_sliders())
    }

    /// Returns the bitboard with queens and rooks.
    pub fn get_rook_sliders(&self) -> (r: BitBoard)
        ensures
            r.0 == self.piece_bb(Piece::Queen) | self.piece_bb(Piece::Rook),
    {
        self.get_piece(Piece::Queen).bitor(self.get_piece(Piece::Rook))
    }

    /// Same as [`Board::get_rook_sliders`], but only returns pieces of the given color.
    pub fn get_color_rook_sliders(&self, color: Color) -> (r: BitBoard)
        ensures
            r.0 == self.color_bb(color) & (self.piece_bb(Piece::Queen) | self.piece_bb(
                Piece::Rook,
            )),
    {
        self.get_color(color).bitand(self.get_rook_sliders())
    }

    /// The square of the lowest-indexed king of the color.
    pub open spec fn spec_king(self, color: Color) -> Square {
        BitBoard(self.color_piece_bb(color, Piece::King)).squares()[0]
    }

    /// Returns the square of the king with the specified color.
    pub fn get_king(&self, color: Color) -> (r: Square)
        requires
            self.color_piece_bb(color, Piece::King) != 0,
        ensures
            r == self.spec_king(color),
            bit(self.color_piece_bb(color, Piece::King), r.idx()),
    {
        BitBoard::bit_scan_forward(self.get_color_piece(color, Piece::King)).unwrap()
    }

    /// Returns the pieces declaring check to the king of the specified color.
    pub fn get_king_checkers(&self, color: Color) -> (r: BitBoard)
        requires
            self.color_piece_bb(color, Piece::King) != 0,
        ensures
            r.0 == self.spec_color_attackers_to(self.spec_king(color), color.opp()),
    {
        self.get_color_attackers_to(self.get_king(color), color.not())
    }

    /// Whether the king of the color is attacked.
    pub open spec fn spec_in_check(self, color: Color) -> bool {
        self.spec_color_attackers_to(self.spec_king(color), color.opp()) != 0
    }

    /// Returns `true` if the king of the given color is currently in check.
    pub fn is_king_in_check(&self, color: Color) -> (r: bool)
        requires
            self.color_piece_bb(color, Piece::King) != 0,
        ensures
            r == self.spec_in_check(color),
    {
        !self.get_king_checkers(color).is_empty()
    }

    /// Places (or replaces) pieces of the given color on the squares
    /// specified by the mask with the given piece type.
    pub fn mask_or(&mut self, color: Color, piece: Piece, mask: BitBoard)
        ensures
            *final(self) == old(self).spec_mask_or(color, piece, mask.0),
            final(self).color_bb(color) == old(self).color_bb(color) | mask.0,
            final(self).piece_bb(piece) == old(self).piece_bb(piece) | mask.0,
            forall|c: Color| c != color ==> final(self).color_bb(c) == old(self).color_bb(c),
            forall|p: Piece| p != piece ==> final(self).piece_bb(p) == old(self).piece_bb(p),
    {
        match piece {
            Piece::Pawn => self.pawn.bitor_assign(mask),
            Piece::Knight => self.knight.bitor_assign(mask),
            Piece::Bishop => self.bishop.bitor_assign(mask),
            Piece::Rook => self.rook.bitor_assign(mask),
            Piece::Queen => self.queen.bitor_assign(mask),
            Piece::King => self.king.bitor_assign(mask),
        }
        match color {
            Color::White => self.white.bitor_assign(mask),
            Color::Black => self.black.bitor_assign(mask),
        }
    }

    /// Removes all pieces of the given color and type
    /// on the squares NOT specified by the mask.
    pub fn mask_and(&mut self, color: Color, piece: Piece, mask: BitBoard)
        ensures
            *final(self) == old(self).spec_mask_and(color, piece, mask.0),
            final(self).color_bb(color) == old(self).color_bb(color) & mask.0,
            final(self).piece_bb(piece) == old(self).piece_bb(piece) & mask.0,
            forall|c: Color| c != color ==> final(self).color_bb(c) == old(self).color_bb(c),
            forall|p: Piece| p != piece ==> final(self).piece_bb(p) == old(self).piece_bb(p),
    {
        match piece {
            Piece::Pawn => self.pawn.bitand_assign(mask),
            Piece::Knight => self.knight.bitand_assign(mask),
            Piece::Bishop => self.bishop.bitand_assign(mask),
            Piece::Rook => self.rook.bitand_assign(mask),
            Piece::Queen => self.queen.bitand_assign(mask),
            Piece::King => self.king.bitand_assign(mask),
        }
        match color {
            Color::White => self.white.bitand_assign(mask),
            Color::Black => self.black.bitand_assign(mask),
        }
    }

    /// Toggles all the pieces of the given color and type
    /// on the squares specified by the mask.
    pub fn mask_xor(&mut self, color: Color, piece: Piece, mask: BitBoard)
        ensures
            *final(self) == old(self).spec_mask_xor(color, piece, mask.0),
            final(self).color_bb(color) == old(self).color_bb(color) ^ mask.0,
            final(self).piece_bb(piece) == old(self).piece_bb(piece) ^ mask.0,
            forall|c: Color| c != color ==> final(self).color_bb(c) == old(self).color_bb(c),
            forall|p: Piece| p != piece ==> final(self).piece_bb(p) == old(self).piece_bb(p),
    {
        match piece {
            Piece::Pawn => self.pawn.bitxor_assign(mask),
            Piece::Knight => self.knight.bitxor_assign(mask),
            Piece::Bishop => self.bishop.bitxor_assign(mask),
            Piece::Rook => self.rook.bitxor_assign(mask),
            Piece::Queen => self.queen.bitxor_assign(mask),
            Piece::King => self.king.bitxor_assign(mask),
        }
        match color {
            Color::White => self.white.bitxor_assign(mask),
            Color::Black => self.black.bitxor_assign(mask),
        }
    }
}

} // verus!
