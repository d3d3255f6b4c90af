//! Castling rights of a chess position.

use vstd::prelude::*;
use vstd::string::*;

use crate::pieces::Color;

verus! {

/// Castling rights of a chess position: a set of four flags packed into the
/// low four bits (white kingside `1`, white queenside `2`, black kingside `4`,
/// black queenside `8`).
#[derive(Clone, Copy, Debug, PartialEq, Eq, Structural, Hash)]
pub struct CastlingRights(pub u8);

/// The position after `s[i]` if it is `c`, otherwise `i`.
pub open spec fn skip_char(s: Seq<char>, i: int, c: char) -> int {
    if 0 <= i < s.len() && s[i] == c {
        i + 1
    } else {
        i
    }
}

/// The castling rights written in a FEN segment.
pub open spec fn spec_castling_from_fen(s: Seq<char>) -> Option<u8> {
    if s == seq!['-'] {
        Some(0u8)
    } else {
        let i1 = skip_char(s, 0, 'K');
        let i2 = skip_char(s, i1, 'Q');
        let i3 = skip_char(s, i2, 'k');
        let i4 = skip_char(s, i3, 'q');
        if i4 == s.len() {
            Some(
                ((if i1 != 0 { 1int } else { 0 }) + (if i2 != i1 { 2int } else { 0 }) + (if i3
                    != i2 { 4int } else { 0 }) + (if i4 != i3 { 8int } else { 0 })) as u8,
            )
        } else {
            None
        }
    }
}

/// The FEN segment of the castling rights with the given bits.
pub open spec fn spec_castling_to_fen(bits: u8) -> Seq<char> {
    if bits & 15 == 0 {
        seq!['-']
    } else {
        (if bits & 1 != 0 { seq!['K'] } else { Seq::empty() }) + (if bits & 2 != 0 {
            seq!['Q']
        } else {
            Seq::empty()
        }) + (if bits & 4 != 0 { seq!['k'] } else { Seq::empty() }) + (if bits & 8 != 0 {
            seq!['q']
        } else {
            Seq::empty()
        })
    }
}

impl CastlingRights {
    /// No castling rights.
    pub fn empty() -> (r: CastlingRights)
        ensures
            r.0 == 0,
    {
        CastlingRights(0)
    }

    /// All castling rights.
    pub fn all() -> (r: CastlingRights)
        ensures
            r.0 == 15,
    {
        CastlingRights(15)
    }

    /// White kingside castling.
    pub fn white_king() -> (r: CastlingRights)
        ensures
            r.0 == 1,
    {
        CastlingRights(1)
    }

    /// White queenside castling.
    pub fn white_queen() -> (r: CastlingRights)
        ensures
            r.0 == 2,
    {
        CastlingRights(2)
    }

    /// Black kingside castling.
    pub fn black_king() -> (r: CastlingRights)
        ensures
            r.0 == 4,
    {
        CastlingRights(4)
    }

    /// Black queenside castling.
    pub fn black_queen() -> (r: CastlingRights)
        ensures
            r.0 == 8,
    {
        CastlingRights(8)
    }

    /// The raw flag bits.
    pub fn bits(self) -> (r: u8)
        ensures
            r == self.0,
    {
        self.0
    }

    /// Returns `true` if no castling right is set.
    pub fn is_empty(self) -> (r: bool)
        ensures
            r == (self.0 & 15 == 0),
    {
        self.0 & 15 == 0
    }

    /// Returns `true` if every right of `other` is also in `self`.
    pub fn contains(self, other: CastlingRights) -> (r: bool)
        ensures
            r == (self.0 & other.0 == other.0),
    {
        self.0 & other.0 == other.0
    }

    /// The union of two sets of rights.
    pub fn union(self, other: CastlingRights) -> (r: CastlingRights)
        ensures
            r.0 == self.0 | other.0,
    {
        CastlingRights(self.0 | other.0)
    }

    /// The intersection of two sets of rights.
    pub fn intersection(self, other: CastlingRights) -> (r: CastlingRights)
        ensures
            r.0 == self.0 & other.0,
    {
        CastlingRights(self.0 & other.0)
    }

    /// The rights that are not in `self`.
    pub fn complement(self) -> (r: CastlingRights)
        ensures
            r.0 == !self.0 & 15,
    {
        CastlingRights(!self.0 & 15)
    }

    /// Returns the kingside castling rights for the given color.
    pub fn kingside(color: Color) -> (r: Self)
        ensures
            r.0 == (if color == Color::White { 1u8 } else { 4u8 }),
    {
        if color == Color::White {
            Self::white_king()
        } else {
            Self::black_king()
        }
    }

    /// Returns the queenside castling rights for the given color.
    pub fn queenside(color: Color) -> (r: Self)
        ensures
            r.0 == (if color == Color::White { 2u8 } else { 8u8 }),
    {
        if color == Color::White {
            Self::white_queen()
        } else {
            Self::black_queen()
        }
    }

    /// Returns the full castling rights for the given color.
    pub fn both_sides(color: Color) -> (r: Self)
        ensures
            r.0 == (if color == Color::White { 3u8 } else { 12u8 }),
    {
        let r = if color == Color::White {
            Self::white_queen().union(Self::white_king())
        } else {
            Self::black_queen().union(Self::black_king())
        };
        proof {
            assert(2u8 | 1u8 == 3u8 && 8u8 | 4u8 == 12u8) by (bit_vector);
        }
        r
    }

    /// Constructs new castling rights from FEN notation segment.
    pub fn from_fen_segment(fen: &str) -> (r: Option<Self>)
        ensures
            r matches Some(c) ==> spec_castling_from_fen(fen@) == Some(c.0),
            r is None ==> spec_castling_from_fen(fen@) is None,
    {
        let n = fen.unicode_len();
        proof {
            reveal_strlit("-");
        }
        if n == 1 && fen.get_char(0) == '-' {
            assert(fen@ =~= seq!['-']);
            return Some(Self::empty());
        }
        let ghost s = fen@;
        let mut i: usize = 0;
        let mut res: u8 = 0;
        if i < n && fen.get_char(i) == 'K' {
            res = res + 1;
            i = i + 1;
        }
        let i1 = i;
        if i < n && fen.get_char(i) == 'Q' {
            res = res + 2;
            i = i + 1;
        }
        let i2 = i;
        if i < n && fen.get_char(i) == 'k' {
            res = res + 4;
            i = i + 1;
        }
        let i3 = i;
        if i < n && fen.get_char(i) == 'q' {
            res = res + 8;
            i = i + 1;
        }
        proof {
            if s == seq!['-'] {
                assert(s.len() == 1 && s[0] == '-');
            }
            assert(i1 == skip_char(s, 0, 'K'));
            assert(i2 == skip_char(s, i1 as int, 'Q'));
            assert(i3 == skip_char(s, i2 as int, 'k'));
            assert(i == skip_char(s, i3 as int, 'q'));
        }
        if i == n {
            Some(CastlingRights(res))
        } else {
            None
        }
    }

    /// Constructs FEN notation segment for castling rights.
    pub fn into_fen_segment(self) -> (r: String)
        ensures
            r@ == spec_castling_to_fen(self.0),
    {
        proof {
            reveal_strlit("-");
            reveal_strlit("K");
            reveal_strlit("Q");
            reveal_strlit("k");
            reveal_strlit("q");
        }
        if self.is_empty() {
            return String::from_str("-");
        }
        let mut s = String::new();
        if self.0 & 1 != 0 {
            s.append("K");
        }
        let ghost s1 = s@;
        if self.0 & 2 != 0 {
            s.append("Q");
        }
        let ghost s2 = s@;
        if self.0 & 4 != 0 {
            s.append("k");
        }
        let ghost s3 = s@;
        if self.0 & 8 != 0 {
            s.append("q");
        }
        proof {
            let b = self.0;
            let p1 = if b & 1 != 0 { seq!['K'] } else { Seq::<char>::empty() };
            let p2 = if b & 2 != 0 { seq!['Q'] } else { Seq::<char>::empty() };
            let p3 = if b & 4 != 0 { seq!['k'] } else { Seq::<char>::empty() };
            let p4 = if b & 8 != 0 { seq!['q'] } else { Seq::<char>::empty() };
            assert(s1 =~= p1);
            assert(s2 =~= p1 + p2);
            assert(s3 =~= p1 + p2 + p3);
            assert(s@ =~= p1 + p2 + p3 + p4);
        }
        s
    }
}

/// Four flags added as 1, 2, 4 and 8 are read back bit by bit.
proof fn lemma_flag_sum(a: bool, b: bool, c: bool, d: bool, v: u8)
    by (bit_vector)
    requires
        v == (if a { 1u8 } else { 0u8 }) + (if b { 2u8 } else { 0u8 }) + (if c { 4u8 } else { 0u8 }) + (if d {
            8u8
        } else {
            0u8
        }),
    ensures
        v < 16,
        (v & 1 != 0) == a,
        (v & 2 != 0) == b,
        (v & 4 != 0) == c,
        (v & 8 != 0) == d,
{
}

/// Reading a FEN castling segment: each letter grants one right, `K` white
/// kingside (flag 1), `Q` white queenside (flag 2), `k` black kingside (flag
/// 4) and `q` black queenside (flag 8), and a flag is set exactly when its
/// letter is in the segment.
pub proof fn lemma_castling_fen_letters(s: Seq<char>)
    ensures
        spec_castling_from_fen(s) matches Some(b) ==> {
            &&& b < 16
            &&& (b & 1 != 0) == s.contains('K')
            &&& (b & 2 != 0) == s.contains('Q')
            &&& (b & 4 != 0) == s.contains('k')
            &&& (b & 8 != 0) == s.contains('q')
        },
{
    if s == seq!['-'] {
        assert(0u8 & 1 == 0 && 0u8 & 2 == 0 && 0u8 & 4 == 0 && 0u8 & 8 == 0) by (bit_vector);
        assert(!s.contains('K') && !s.contains('Q') && !s.contains('k') && !s.contains('q')) by {
            assert(s.len() == 1 && s[0] == '-');
        }
    } else {
        let i1 = skip_char(s, 0, 'K');
        let i2 = skip_char(s, i1, 'Q');
        let i3 = skip_char(s, i2, 'k');
        let i4 = skip_char(s, i3, 'q');
        if i4 == s.len() {
            let v = ((if i1 != 0 { 1int } else { 0 }) + (if i2 != i1 { 2int } else { 0 }) + (if i3 != i2 {
                4int
            } else {
                0
            }) + (if i4 != i3 { 8int } else { 0 })) as u8;
            lemma_flag_sum(i1 != 0, i2 != i1, i3 != i2, i4 != i3, v);
            assert forall|j: int| 0 <= j < s.len() implies (s[j] == 'K' <==> j == 0 && i1 != 0) && (s[j] == 'Q'
                <==> j == i1 && i2 != i1) && (s[j] == 'k' <==> j == i2 && i3 != i2) && (s[j] == 'q' <==> j == i3
                && i4 != i3) by {}
            if i1 != 0 { assert(s[0] == 'K'); }
            if i2 != i1 { assert(s[i1] == 'Q'); }
            if i3 != i2 { assert(s[i2] == 'k'); }
            if i4 != i3 { assert(s[i3] == 'q'); }
        }
    }
}

/// Writing castling rights as a FEN segment: the segment holds `K`, `Q`, `k`
/// or `q` exactly when the flag 1, 2, 4 or 8 is set.
pub proof fn lemma_castling_fen_written_letters(bits: u8)
    requires
        bits < 16,
    ensures
        spec_castling_to_fen(bits).contains('K') == (bits & 1 != 0),
        spec_castling_to_fen(bits).contains('Q') == (bits & 2 != 0),
        spec_castling_to_fen(bits).contains('k') == (bits & 4 != 0),
        spec_castling_to_fen(bits).contains('q') == (bits & 8 != 0),
{
    lemma_castling_fen_roundtrip(bits);
    lemma_castling_fen_letters(spec_castling_to_fen(bits));
}

/// Writing castling rights as a FEN segment and reading the segment back
/// gives the rights back.
pub proof fn lemma_castling_fen_roundtrip(bits: u8)
    requires
        bits < 16,
    ensures
        spec_castling_from_fen(spec_castling_to_fen(bits)) == Some(bits),
{
    let a = bits & 1 != 0;
    let b = bits & 2 != 0;
    let c = bits & 4 != 0;
    let d = bits & 8 != 0;
    assert(bits < 16 ==> (bits & 15 == 0 <==> bits == 0) && bits as int == (if bits & 1 != 0 { 1int } else { 0 }) + (
    if bits & 2 != 0 { 2int } else { 0 }) + (if bits & 4 != 0 { 4int } else { 0 }) + (if bits & 8 != 0 {
        8int
    } else {
        0
    })) by (bit_vector);
    let s = spec_castling_to_fen(bits);
    if bits != 0 {
        let p1 = if a { seq!['K'] } else { Seq::<char>::empty() };
        let p2 = if b { seq!['Q'] } else { Seq::<char>::empty() };
        let p3 = if c { seq!['k'] } else { Seq::<char>::empty() };
        let p4 = if d { seq!['q'] } else { Seq::<char>::empty() };
        let n1 = p1.len() as int;
        let n2 = n1 + p2.len();
        let n3 = n2 + p3.len();
        let n4 = n3 + p4.len();
        assert(s == p1 + p2 + p3 + p4);
        assert(s.len() == n4);
        assert(forall|i: int| 0 <= i < s.len() ==> s[i] == 'K' || s[i] == 'Q' || s[i] == 'k' || s[i] == 'q');
        assert(s[0] != '-');
        assert(skip_char(s, 0, 'K') == n1);
        assert(skip_char(s, n1, 'Q') == n2);
        assert(skip_char(s, n2, 'k') == n3);
        assert(skip_char(s, n3, 'q') == n4);
    }
}

} // verus!
