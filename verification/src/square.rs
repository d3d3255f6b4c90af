//! Squares, files, ranks and diagonals of the chess board.

use vstd::prelude::*;
use vstd::string::*;

use crate::pieces::Color;

verus! {

/// File on a chess board.
#[derive(Debug, Clone, Copy, PartialEq, Eq, Structural, Hash)]
pub enum File {
    A,
    B,
    C,
    D,
    E,
    F,
    G,
    H,
}

impl File {
    /// The number of values of this type.
    pub const COUNT: usize = 8;

    /// Position of the value in the enumeration (its numeric representation).
    pub open spec fn idx(self) -> int {
        match self {
            File::A => 0,
            File::B => 1,
            File::C => 2,
            File::D => 3,
            File::E => 4,
            File::F => 5,
            File::G => 6,
            File::H => 7,
        }
    }

    /// The value with the given numeric representation, if there is one.
    pub open spec fn spec_from_repr(i: int) -> Option<File> {
        if i == 0 { Some(File::A) }
        else if i == 1 { Some(File::B) }
        else if i == 2 { Some(File::C) }
        else if i == 3 { Some(File::D) }
        else if i == 4 { Some(File::E) }
        else if i == 5 { Some(File::F) }
        else if i == 6 { Some(File::G) }
        else if i == 7 { Some(File::H) }
        else { None }
    }

    /// Every value is recovered from its numeric representation.
    pub proof fn lemma_repr_roundtrip(self)
        ensures
            File::spec_from_repr(self.idx()) == Some(self),
            0 <= self.idx() < 8,
    {
    }

    /// Every numeric representation in range names a value.
    pub proof fn lemma_from_repr_in_range(i: int)
        requires
            0 <= i < 8,
        ensures
            File::spec_from_repr(i) matches Some(v) && v.idx() == i,
    {
    }

    /// Two values with the same numeric representation are equal.
    pub proof fn lemma_idx_injective(a: File, b: File)
        ensures
            a.idx() == b.idx() <==> a == b,
    {
        a.lemma_repr_roundtrip();
        b.lemma_repr_roundtrip();
    }

    /// Returns the numeric representation of the value.
    pub fn repr(self) -> (r: u8)
        ensures
            r as int == self.idx(),
    {
        match self {
            File::A => 0,
            File::B => 1,
            File::C => 2,
            File::D => 3,
            File::E => 4,
            File::F => 5,
            File::G => 6,
            File::H => 7,
        }
    }

    /// Returns the value with the given numeric representation or `None` if it is out of range.
    pub fn from_repr(i: u8) -> (r: Option<File>)
        ensures
            r == File::spec_from_repr(i as int),
            r is Some <==> 0 <= i < 8,
            r matches Some(v) ==> v.idx() == i,
    {
        match i {
            0 => Some(File::A),
            1 => Some(File::B),
            2 => Some(File::C),
            3 => Some(File::D),
            4 => Some(File::E),
            5 => Some(File::F),
            6 => Some(File::G),
            7 => Some(File::H),
            _ => None,
        }
    }
}

/// Rank on a chess board.
#[derive(Debug, Clone, Copy, PartialEq, Eq, Structural, Hash)]
pub enum Rank {
    R1,
    R2,
    R3,
    R4,
    R5,
    R6,
    R7,
    R8,
}

impl Rank {
    /// The number of values of this type.
    pub const COUNT: usize = 8;

    /// Position of the value in the enumeration (its numeric representation).
    pub open spec fn idx(self) -> int {
        match self {
            Rank::R1 => 0,
            Rank::R2 => 1,
            Rank::R3 => 2,
            Rank::R4 => 3,
            Rank::R5 => 4,
            Rank::R6 => 5,
            Rank::R7 => 6,
            Rank::R8 => 7,
        }
    }

    /// The value with the given numeric representation, if there is one.
    pub open spec fn spec_from_repr(i: int) -> Option<Rank> {
        if i == 0 { Some(Rank::R1) }
        else if i == 1 { Some(Rank::R2) }
        else if i == 2 { Some(Rank::R3) }
        else if i == 3 { Some(Rank::R4) }
        else if i == 4 { Some(Rank::R5) }
        else if i == 5 { Some(Rank::R6) }
        else if i == 6 { Some(Rank::R7) }
        else if i == 7 { Some(Rank::R8) }
        else { None }
    }

    /// Every value is recovered from its numeric representation.
    pub proof fn lemma_repr_roundtrip(self)
        ensures
            Rank::spec_from_repr(self.idx()) == Some(self),
            0 <= self.idx() < 8,
    {
    }

    /// Every numeric representation in range names a value.
    pub proof fn lemma_from_repr_in_range(i: int)
        requires
            0 <= i < 8,
        ensures
            Rank::spec_from_repr(i) matches Some(v) && v.idx() == i,
    {
    }

    /// Two values with the same numeric representation are equal.
    pub proof fn lemma_idx_injective(a: Rank, b: Rank)
        ensures
            a.idx() == b.idx() <==> a == b,
    {
        a.lemma_repr_roundtrip();
        b.lemma_repr_roundtrip();
    }

    /// Returns the numeric representation of the value.
    pub fn repr(self) -> (r: u8)
        ensures
            r as int == self.idx(),
    {
        match self {
            Rank::R1 => 0,
            Rank::R2 => 1,
            Rank::R3 => 2,
            Rank::R4 => 3,
            Rank::R5 => 4,
            Rank::R6 => 5,
            Rank::R7 => 6,
            Rank::R8 => 7,
        }
    }

    /// Returns the value with the given numeric representation or `None` if it is out of range.
    pub fn from_repr(i: u8) -> (r: Option<Rank>)
        ensures
            r == Rank::spec_from_repr(i as int),
            r is Some <==> 0 <= i < 8,
            r matches Some(v) ==> v.idx() == i,
    {
        match i {
            0 => Some(Rank::R1),
            1 => Some(Rank::R2),
            2 => Some(Rank::R3),
            3 => Some(Rank::R4),
            4 => Some(Rank::R5),
            5 => Some(Rank::R6),
            6 => Some(Rank::R7),
            7 => Some(Rank::R8),
            _ => None,
        }
    }
}

/// Positive diagonal (bottom left to top right) on a chess board.
#[derive(Debug, Clone, Copy, PartialEq, Eq, Structural, Hash)]
pub enum PosDiag {
    H1H1,
    G1H2,
    F1H3,
    E1H4,
    D1H5,
    C1H6,
    B1H7,
    A1H8,
    A2G8,
    A3F8,
    A4E8,
    A5D8,
    A6C8,
    A7B8,
    A8A8,
}

impl PosDiag {
    /// The number of values of this type.
    pub const COUNT: usize = 15;

    /// Position of the value in the enumeration (its numeric representation).
    pub open spec fn idx(self) -> int {
        match self {
            PosDiag::H1H1 => -7,
            PosDiag::G1H2 => -6,
            PosDiag::F1H3 => -5,
            PosDiag::E1H4 => -4,
            PosDiag::D1H5 => -3,
            PosDiag::C1H6 => -2,
            PosDiag::B1H7 => -1,
            PosDiag::A1H8 => 0,
            PosDiag::A2G8 => 1,
            PosDiag::A3F8 => 2,
            PosDiag::A4E8 => 3,
            PosDiag::A5D8 => 4,
            PosDiag::A6C8 => 5,
            PosDiag::A7B8 => 6,
            PosDiag::A8A8 => 7,
        }
    }

    /// The value with the given numeric representation, if there is one.
    pub open spec fn spec_from_repr(i: int) -> Option<PosDiag> {
        if i == -7 { Some(PosDiag::H1H1) }
        else if i == -6 { Some(PosDiag::G1H2) }
        else if i == -5 { Some(PosDiag::F1H3) }
        else if i == -4 { Some(PosDiag::E1H4) }
        else if i == -3 { Some(PosDiag::D1H5) }
        else if i == -2 { Some(PosDiag::C1H6) }
        else if i == -1 { Some(PosDiag::B1H7) }
        else if i == 0 { Some(PosDiag::A1H8) }
        else if i == 1 { Some(PosDiag::A2G8) }
        else if i == 2 { Some(PosDiag::A3F8) }
        else if i == 3 { Some(PosDiag::A4E8) }
        else if i == 4 { Some(PosDiag::A5D8) }
        else if i == 5 { Some(PosDiag::A6C8) }
        else if i == 6 { Some(PosDiag::A7B8) }
        else if i == 7 { Some(PosDiag::A8A8) }
        else { None }
    }

    /// Every value is recovered from its numeric representation.
    pub proof fn lemma_repr_roundtrip(self)
        ensures
            PosDiag::spec_from_repr(self.idx()) == Some(self),
            -7 <= self.idx() < 8,
    {
    }

    /// Every numeric representation in range names a value.
    pub proof fn lemma_from_repr_in_range(i: int)
        requires
            -7 <= i < 8,
        ensures
            PosDiag::spec_from_repr(i) matches Some(v) && v.idx() == i,
    {
    }

    /// Two values with the same numeric representation are equal.
    pub proof fn lemma_idx_injective(a: PosDiag, b: PosDiag)
        ensures
            a.idx() == b.idx() <==> a == b,
    {
        a.lemma_repr_roundtrip();
        b.lemma_repr_roundtrip();
    }

    /// Returns the numeric representation of the value.
    pub fn repr(self) -> (r: i8)
        ensures
            r as int == self.idx(),
    {
        match self {
            PosDiag::H1H1 => -7,
            PosDiag::G1H2 => -6,
            PosDiag::F1H3 => -5,
            PosDiag::E1H4 => -4,
            PosDiag::D1H5 => -3,
            PosDiag::C1H6 => -2,
            PosDiag::B1H7 => -1,
            PosDiag::A1H8 => 0,
            PosDiag::A2G8 => 1,
            PosDiag::A3F8 => 2,
            PosDiag::A4E8 => 3,
            PosDiag::A5D8 => 4,
            PosDiag::A6C8 => 5,
            PosDiag::A7B8 => 6,
            PosDiag::A8A8 => 7,
        }
    }

    /// Returns the value with the given numeric representation or `None` if it is out of range.
    pub fn from_repr(i: i8) -> (r: Option<PosDiag>)
        ensures
            r == PosDiag::spec_from_repr(i as int),
            r is Some <==> -7 <= i < 8,
            r matches Some(v) ==> v.idx() == i,
    {
        match i {
            -7 => Some(PosDiag::H1H1),
            -6 => Some(PosDiag::G1H2),
            -5 => Some(PosDiag::F1H3),
            -4 => Some(PosDiag::E1H4),
            -3 => Some(PosDiag::D1H5),
            -2 => Some(PosDiag::C1H6),
            -1 => Some(PosDiag::B1H7),
            0 => Some(PosDiag::A1H8),
            1 => Some(PosDiag::A2G8),
            2 => Some(PosDiag::A3F8),
            3 => Some(PosDiag::A4E8),
            4 => Some(PosDiag::A5D8),
            5 => Some(PosDiag::A6C8),
            6 => Some(PosDiag::A7B8),
            7 => Some(PosDiag::A8A8),
            _ => None,
        }
    }
}

/// Negative diagonal (top left to bottom right) on a chess board.
#[derive(Debug, Clone, Copy, PartialEq, Eq, Structural, Hash)]
pub enum NegDiag {
    A1A1,
    A2B1,
    A3C1,
    A4D1,
    A5E1,
    A6F1,
    A7G1,
    A8H1,
    B8H2,
    C8H3,
    D8H4,
    E8H5,
    F8H6,
    G8H7,
    H8H8,
}

impl NegDiag {
    /// The number of values of this type.
    pub const COUNT: usize = 15;

    /// Position of the value in the enumeration (its numeric representation).
    pub open spec fn idx(self) -> int {
        match self {
            NegDiag::A1A1 => -7,
            NegDiag::A2B1 => -6,
            NegDiag::A3C1 => -5,
            NegDiag::A4D1 => -4,
            NegDiag::A5E1 => -3,
            NegDiag::A6F1 => -2,
            NegDiag::A7G1 => -1,
            NegDiag::A8H1 => 0,
            NegDiag::B8H2 => 1,
            NegDiag::C8H3 => 2,
            NegDiag::D8H4 => 3,
            NegDiag::E8H5 => 4,
            NegDiag::F8H6 => 5,
            NegDiag::G8H7 => 6,
            NegDiag::H8H8 => 7,
        }
    }

    /// The value with the given numeric representation, if there is one.
    pub open spec fn spec_from_repr(i: int) -> Option<NegDiag> {
        if i == -7 { Some(NegDiag::A1A1) }
        else if i == -6 { Some(NegDiag::A2B1) }
        else if i == -5 { Some(NegDiag::A3C1) }
        else if i == -4 { Some(NegDiag::A4D1) }
        else if i == -3 { Some(NegDiag::A5E1) }
        else if i == -2 { Some(NegDiag::A6F1) }
        else if i == -1 { Some(NegDiag::A7G1) }
        else if i == 0 { Some(NegDiag::A8H1) }
        else if i == 1 { Some(NegDiag::B8H2) }
        else if i == 2 { Some(NegDiag::C8H3) }
        else if i == 3 { Some(NegDiag::D8H4) }
        else if i == 4 { Some(NegDiag::E8H5) }
        else if i == 5 { Some(NegDiag::F8H6) }
        else if i == 6 { Some(NegDiag::G8H7) }
        else if i == 7 { Some(NegDiag::H8H8) }
        else { None }
    }

    /// Every value is recovered from its numeric representation.
    pub proof fn lemma_repr_roundtrip(self)
        ensures
            NegDiag::spec_from_repr(self.idx()) == Some(self),
            -7 <= self.idx() < 8,
    {
    }

    /// Every numeric representation in range names a value.
    pub proof fn lemma_from_repr_in_range(i: int)
        requires
            -7 <= i < 8,
        ensures
            NegDiag::spec_from_repr(i) matches Some(v) && v.idx() == i,
    {
    }

    /// Two values with the same numeric representation are equal.
    pub proof fn lemma_idx_injective(a: NegDiag, b: NegDiag)
        ensures
            a.idx() == b.idx() <==> a == b,
    {
        a.lemma_repr_roundtrip();
        b.lemma_repr_roundtrip();
    }

    /// Returns the numeric representation of the value.
    pub fn repr(self) -> (r: i8)
        ensures
            r as int == self.idx(),
    {
        match self {
            NegDiag::A1A1 => -7,
            NegDiag::A2B1 => -6,
            NegDiag::A3C1 => -5,
            NegDiag::A4D1 => -4,
            NegDiag::A5E1 => -3,
            NegDiag::A6F1 => -2,
            NegDiag::A7G1 => -1,
            NegDiag::A8H1 => 0,
            NegDiag::B8H2 => 1,
            NegDiag::C8H3 => 2,
            NegDiag::D8H4 => 3,
            NegDiag::E8H5 => 4,
            NegDiag::F8H6 => 5,
            NegDiag::G8H7 => 6,
            NegDiag::H8H8 => 7,
        }
    }

    /// Returns the value with the given numeric representation or `None` if it is out of range.
    pub fn from_repr(i: i8) -> (r: Option<NegDiag>)
        ensures
            r == NegDiag::spec_from_repr(i as int),
            r is Some <==> -7 <= i < 8,
            r matches Some(v) ==> v.idx() == i,
    {
        match i {
            -7 => Some(NegDiag::A1A1),
            -6 => Some(NegDiag::A2B1),
            -5 => Some(NegDiag::A3C1),
            -4 => Some(NegDiag::A4D1),
            -3 => Some(NegDiag::A5E1),
            -2 => Some(NegDiag::A6F1),
            -1 => Some(NegDiag::A7G1),
            0 => Some(NegDiag::A8H1),
            1 => Some(NegDiag::B8H2),
            2 => Some(NegDiag::C8H3),
            3 => Some(NegDiag::D8H4),
            4 => Some(NegDiag::E8H5),
            5 => Some(NegDiag::F8H6),
            6 => Some(NegDiag::G8H7),
            7 => Some(NegDiag::H8H8),
            _ => None,
        }
    }
}

/// Square on a chess board.
#[derive(Debug, Clone, Copy, PartialEq, Eq, Structural, Hash)]
pub enum Square {
    A1,
    B1,
    C1,
    D1,
    E1,
    F1,
    G1,
    H1,
    A2,
    B2,
    C2,
    D2,
    E2,
    F2,
    G2,
    H2,
    A3,
    B3,
    C3,
    D3,
    E3,
    F3,
    G3,
    H3,
    A4,
    B4,
    C4,
    D4,
    E4,
    F4,
    G4,
    H4,
    A5,
    B5,
    C5,
    D5,
    E5,
    F5,
    G5,
    H5,
    A6,
    B6,
    C6,
    D6,
    E6,
    F6,
    G6,
    H6,
    A7,
    B7,
    C7,
    D7,
    E7,
    F7,
    G7,
    H7,
    A8,
    B8,
    C8,
    D8,
    E8,
    F8,
    G8,
    H8,
}

impl Square {
    /// The number of values of this type.
    pub const COUNT: usize = 64;

    /// Position of the value in the enumeration (its numeric representation).
    pub open spec fn idx(self) -> int {
        match self {
            Square::A1 => 0,
            Square::B1 => 1,
            Square::C1 => 2,
            Square::D1 => 3,
            Square::E1 => 4,
            Square::F1 => 5,
            Square::G1 => 6,
            Square::H1 => 7,
            Square::A2 => 8,
            Square::B2 => 9,
            Square::C2 => 10,
            Square::D2 => 11,
            Square::E2 => 12,
            Square::F2 => 13,
            Square::G2 => 14,
            Square::H2 => 15,
            Square::A3 => 16,
            Square::B3 => 17,
            Square::C3 => 18,
            Square::D3 => 19,
            Square::E3 => 20,
            Square::F3 => 21,
            Square::G3 => 22,
            Square::H3 => 23,
            Square::A4 => 24,
            Square::B4 => 25,
            Square::C4 => 26,
            Square::D4 => 27,
            Square::E4 => 28,
            Square::F4 => 29,
            Square::G4 => 30,
            Square::H4 => 31,
            Square::A5 => 32,
            Square::B5 => 33,
            Square::C5 => 34,
            Square::D5 => 35,
            Square::E5 => 36,
            Square::F5 => 37,
            Square::G5 => 38,
            Square::H5 => 39,
            Square::A6 => 40,
            Square::B6 => 41,
            Square::C6 => 42,
            Square::D6 => 43,
            Square::E6 => 44,
            Square::F6 => 45,
            Square::G6 => 46,
            Square::H6 => 47,
            Square::A7 => 48,
            Square::B7 => 49,
            Square::C7 => 50,
            Square::D7 => 51,
            Square::E7 => 52,
            Square::F7 => 53,
            Square::G7 => 54,
            Square::H7 => 55,
            Square::A8 => 56,
            Square::B8 => 57,
            Square::C8 => 58,
            Square::D8 => 59,
            Square::E8 => 60,
            Square::F8 => 61,
            Square::G8 => 62,
            Square::H8 => 63,
        }
    }

    /// The value with the given numeric representation, if there is one.
    pub open spec fn spec_from_repr(i: int) -> Option<Square> {
        if i == 0 { Some(Square::A1) }
        else if i == 1 { Some(Square::B1) }
        else if i == 2 { Some(Square::C1) }
        else if i == 3 { Some(Square::D1) }
        else if i == 4 { Some(Square::E1) }
        else if i == 5 { Some(Square::F1) }
        else if i == 6 { Some(Square::G1) }
        else if i == 7 { Some(Square::H1) }
        else if i == 8 { Some(Square::A2) }
        else if i == 9 { Some(Square::B2) }
        else if i == 10 { Some(Square::C2) }
        else if i == 11 { Some(Square::D2) }
        else if i == 12 { Some(Square::E2) }
        else if i == 13 { Some(Square::F2) }
        else if i == 14 { Some(Square::G2) }
        else if i == 15 { Some(Square::H2) }
        else if i == 16 { Some(Square::A3) }
        else if i == 17 { Some(Square::B3) }
        else if i == 18 { Some(Square::C3) }
        else if i == 19 { Some(Square::D3) }
        else if i == 20 { Some(Square::E3) }
        else if i == 21 { Some(Square::F3) }
        else if i == 22 { Some(Square::G3) }
        else if i == 23 { Some(Square::H3) }
        else if i == 24 { Some(Square::A4) }
        else if i == 25 { Some(Square::B4) }
        else if i == 26 { Some(Square::C4) }
        else if i == 27 { Some(Square::D4) }
        else if i == 28 { Some(Square::E4) }
        else if i == 29 { Some(Square::F4) }
        else if i == 30 { Some(Square::G4) }
        else if i == 31 { Some(Square::H4) }
        else if i == 32 { Some(Square::A5) }
        else if i == 33 { Some(Square::B5) }
        else if i == 34 { Some(Square::C5) }
        else if i == 35 { Some(Square::D5) }
        else if i == 36 { Some(Square::E5) }
        else if i == 37 { Some(Square::F5) }
        else if i == 38 { Some(Square::G5) }
        else if i == 39 { Some(Square::H5) }
        else if i == 40 { Some(Square::A6) }
        else if i == 41 { Some(Square::B6) }
        else if i == 42 { Some(Square::C6) }
        else if i == 43 { Some(Square::D6) }
        else if i == 44 { Some(Square::E6) }
        else if i == 45 { Some(Square::F6) }
        else if i == 46 { Some(Square::G6) }
        else if i == 47 { Some(Square::H6) }
        else if i == 48 { Some(Square::A7) }
        else if i == 49 { Some(Square::B7) }
        else if i == 50 { Some(Square::C7) }
        else if i == 51 { Some(Square::D7) }
        else if i == 52 { Some(Square::E7) }
        else if i == 53 { Some(Square::F7) }
        else if i == 54 { Some(Square::G7) }
        else if i == 55 { Some(Square::H7) }
        else if i == 56 { Some(Square::A8) }
        else if i == 57 { Some(Square::B8) }
        else if i == 58 { Some(Square::C8) }
        else if i == 59 { Some(Square::D8) }
        else if i == 60 { Some(Square::E8) }
        else if i == 61 { Some(Square::F8) }
        else if i == 62 { Some(Square::G8) }
        else if i == 63 { Some(Square::H8) }
        else { None }
    }

    /// Every value is recovered from its numeric representation.
    pub proof fn lemma_repr_roundtrip(self)
        ensures
            Square::spec_from_repr(self.idx()) == Some(self),
            0 <= self.idx() < 64,
    {
    }

    /// Every numeric representation in range names a value.
    pub proof fn lemma_from_repr_in_range(i: int)
        requires
            0 <= i < 64,
        ensures
            Square::spec_from_repr(i) matches Some(v) && v.idx() == i,
    {
    }

    /// Two values with the same numeric representation are equal.
    pub proof fn lemma_idx_injective(a: Square, b: Square)
        ensures
            a.idx() == b.idx() <==> a == b,
    {
        a.lemma_repr_roundtrip();
        b.lemma_repr_roundtrip();
    }

    /// Returns the numeric representation of the value.
    pub fn repr(self) -> (r: u8)
        ensures
            r as int == self.idx(),
    {
        match self {
            Square::A1 => 0,
            Square::B1 => 1,
            Square::C1 => 2,
            Square::D1 => 3,
            Square::E1 => 4,
            Square::F1 => 5,
            Square::G1 => 6,
            Square::H1 => 7,
            Square::A2 => 8,
            Square::B2 => 9,
            Square::C2 => 10,
            Square::D2 => 11,
            Square::E2 => 12,
            Square::F2 => 13,
            Square::G2 => 14,
            Square::H2 => 15,
            Square::A3 => 16,
            Square::B3 => 17,
            Square::C3 => 18,
            Square::D3 => 19,
            Square::E3 => 20,
            Square::F3 => 21,
            Square::G3 => 22,
            Square::H3 => 23,
            Square::A4 => 24,
            Square::B4 => 25,
            Square::C4 => 26,
            Square::D4 => 27,
            Square::E4 => 28,
            Square::F4 => 29,
            Square::G4 => 30,
            Square::H4 => 31,
            Square::A5 => 32,
            Square::B5 => 33,
            Square::C5 => 34,
            Square::D5 => 35,
            Square::E5 => 36,
            Square::F5 => 37,
            Square::G5 => 38,
            Square::H5 => 39,
            Square::A6 => 40,
            Square::B6 => 41,
            Square::C6 => 42,
            Square::D6 => 43,
            Square::E6 => 44,
            Square::F6 => 45,
            Square::G6 => 46,
            Square::H6 => 47,
            Square::A7 => 48,
            Square::B7 => 49,
            Square::C7 => 50,
            Square::D7 => 51,
            Square::E7 => 52,
            Square::F7 => 53,
            Square::G7 => 54,
            Square::H7 => 55,
            Square::A8 => 56,
            Square::B8 => 57,
            Square::C8 => 58,
            Square::D8 => 59,
            Square::E8 => 60,
            Square::F8 => 61,
            Square::G8 => 62,
            Square::H8 => 63,
        }
    }

    /// Returns the value with the given numeric representation or `None` if it is out of range.
    pub fn from_repr(i: u8) -> (r: Option<Square>)
        ensures
            r == Square::spec_from_repr(i as int),
            r is Some <==> 0 <= i < 64,
            r matches Some(v) ==> v.idx() == i,
    {
        match i {
            0 => Some(Square::A1),
            1 => Some(Square::B1),
            2 => Some(Square::C1),
            3 => Some(Square::D1),
            4 => Some(Square::E1),
            5 => Some(Square::F1),
            6 => Some(Square::G1),
            7 => Some(Square::H1),
            8 => Some(Square::A2),
            9 => Some(Square::B2),
            10 => Some(Square::C2),
            11 => Some(Square::D2),
            12 => Some(Square::E2),
            13 => Some(Square::F2),
            14 => Some(Square::G2),
            15 => Some(Square::H2),
            16 => Some(Square::A3),
            17 => Some(Square::B3),
            18 => Some(Square::C3),
            19 => Some(Square::D3),
            20 => Some(Square::E3),
            21 => Some(Square::F3),
            22 => Some(Square::G3),
            23 => Some(Square::H3),
            24 => Some(Square::A4),
            25 => Some(Square::B4),
            26 => Some(Square::C4),
            27 => Some(Square::D4),
            28 => Some(Square::E4),
            29 => Some(Square::F4),
            30 => Some(Square::G4),
            31 => Some(Square::H4),
            32 => Some(Square::A5),
            33 => Some(Square::B5),
            34 => Some(Square::C5),
            35 => Some(Square::D5),
            36 => Some(Square::E5),
            37 => Some(Square::F5),
            38 => Some(Square::G5),
            39 => Some(Square::H5),
            40 => Some(Square::A6),
            41 => Some(Square::B6),
            42 => Some(Square::C6),
            43 => Some(Square::D6),
            44 => Some(Square::E6),
            45 => Some(Square::F6),
            46 => Some(Square::G6),
            47 => Some(Square::H6),
            48 => Some(Square::A7),
            49 => Some(Square::B7),
            50 => Some(Square::C7),
            51 => Some(Square::D7),
            52 => Some(Square::E7),
            53 => Some(Square::F7),
            54 => Some(Square::G7),
            55 => Some(Square::H7),
            56 => Some(Square::A8),
            57 => Some(Square::B8),
            58 => Some(Square::C8),
            59 => Some(Square::D8),
            60 => Some(Square::E8),
            61 => Some(Square::F8),
            62 => Some(Square::G8),
            63 => Some(Square::H8),
            _ => None,
        }
    }
}


/// The file named by a letter, in either case (`'a'` or `'A'` for [`File::A`]).
pub open spec fn spec_file_from_char(c: char) -> Option<File> {
    if c == 'a' || c == 'A' { Some(File::A) }
    else if c == 'b' || c == 'B' { Some(File::B) }
    else if c == 'c' || c == 'C' { Some(File::C) }
    else if c == 'd' || c == 'D' { Some(File::D) }
    else if c == 'e' || c == 'E' { Some(File::E) }
    else if c == 'f' || c == 'F' { Some(File::F) }
    else if c == 'g' || c == 'G' { Some(File::G) }
    else if c == 'h' || c == 'H' { Some(File::H) }
    else { None }
}

/// The rank named by a digit (`'1'` for [`Rank::R1`]).
pub open spec fn spec_rank_from_char(c: char) -> Option<Rank> {
    if c == '1' { Some(Rank::R1) }
    else if c == '2' { Some(Rank::R2) }
    else if c == '3' { Some(Rank::R3) }
    else if c == '4' { Some(Rank::R4) }
    else if c == '5' { Some(Rank::R5) }
    else if c == '6' { Some(Rank::R6) }
    else if c == '7' { Some(Rank::R7) }
    else if c == '8' { Some(Rank::R8) }
    else { None }
}

/// Parses a file letter (either case).
pub fn file_from_char(c: char) -> (r: Option<File>)
    ensures
        r == spec_file_from_char(c),
{
    match c {
        'a' | 'A' => Some(File::A),
        'b' | 'B' => Some(File::B),
        'c' | 'C' => Some(File::C),
        'd' | 'D' => Some(File::D),
        'e' | 'E' => Some(File::E),
        'f' | 'F' => Some(File::F),
        'g' | 'G' => Some(File::G),
        'h' | 'H' => Some(File::H),
        _ => None,
    }
}

/// Parses a rank digit.
pub fn rank_from_char(c: char) -> (r: Option<Rank>)
    ensures
        r == spec_rank_from_char(c),
{
    match c {
        '1' => Some(Rank::R1),
        '2' => Some(Rank::R2),
        '3' => Some(Rank::R3),
        '4' => Some(Rank::R4),
        '5' => Some(Rank::R5),
        '6' => Some(Rank::R6),
        '7' => Some(Rank::R7),
        '8' => Some(Rank::R8),
        _ => None,
    }
}

impl File {
    /// Returns the upper-case letter naming the file.
    pub fn name(self) -> (r: &'static str)
        ensures
            r@.len() == 1,
            spec_file_from_char(r@[0]) == Some(self),
    {
        match self {
            File::A => {
                proof { reveal_strlit("A"); }
                "A"
            }
            File::B => {
                proof { reveal_strlit("B"); }
                "B"
            }
            File::C => {
                proof { reveal_strlit("C"); }
                "C"
            }
            File::D => {
                proof { reveal_strlit("D"); }
                "D"
            }
            File::E => {
                proof { reveal_strlit("E"); }
                "E"
            }
            File::F => {
                proof { reveal_strlit("F"); }
                "F"
            }
            File::G => {
                proof { reveal_strlit("G"); }
                "G"
            }
            File::H => {
                proof { reveal_strlit("H"); }
                "H"
            }
        }
    }
}

impl Rank {
    /// Returns the digit naming the rank.
    pub fn name(self) -> (r: &'static str)
        ensures
            r@.len() == 1,
            spec_rank_from_char(r@[0]) == Some(self),
    {
        match self {
            Rank::R1 => {
                proof { reveal_strlit("1"); }
                "1"
            }
            Rank::R2 => {
                proof { reveal_strlit("2"); }
                "2"
            }
            Rank::R3 => {
                proof { reveal_strlit("3"); }
                "3"
            }
            Rank::R4 => {
                proof { reveal_strlit("4"); }
                "4"
            }
            Rank::R5 => {
                proof { reveal_strlit("5"); }
                "5"
            }
            Rank::R6 => {
                proof { reveal_strlit("6"); }
                "6"
            }
            Rank::R7 => {
                proof { reveal_strlit("7"); }
                "7"
            }
            Rank::R8 => {
                proof { reveal_strlit("8"); }
                "8"
            }
        }
    }
}

impl Rank {
    /// Mirrors rank horizontally.
    pub fn mirrored(self) -> (r: Rank)
        ensures
            r.idx() == 7 - self.idx(),
    {
        proof {
            self.lemma_repr_roundtrip();
        }
        Self::from_repr((Self::COUNT - 1) as u8 - self.repr()).unwrap()
    }

    /// The rank on which pawns of the given color promote.
    pub fn promotion_row(color: Color) -> (r: Rank)
        ensures
            r == (if color == Color::White { Rank::R8 } else { Rank::R1 }),
    {
        if color == Color::White {
            Rank::R8
        } else {
            Rank::R1
        }
    }

    /// The rank on which pawns of the given color start.
    pub fn pawn_row(color: Color) -> (r: Rank)
        ensures
            r == (if color == Color::White { Rank::R2 } else { Rank::R7 }),
    {
        if color == Color::White {
            Rank::R2
        } else {
            Rank::R7
        }
    }
}

impl Square {
    /// The square on the given rank and file.
    pub open spec fn spec_new(rank: Rank, file: File) -> Square {
        Square::spec_from_repr(rank.idx() * 8 + file.idx()).unwrap()
    }

    /// A square is the square of its rank and file.
    pub proof fn lemma_rank_file(self)
        ensures
            Square::spec_new(self.spec_rank(), self.spec_file()) == self,
            self.spec_rank().idx() == self.idx() / 8,
            self.spec_file().idx() == self.idx() % 8,
    {
        self.lemma_repr_roundtrip();
        Rank::lemma_from_repr_in_range(self.idx() / 8);
        File::lemma_from_repr_in_range(self.idx() % 8);
        Square::lemma_from_repr_in_range(self.idx());
        Square::lemma_idx_injective(Square::spec_from_repr(self.idx()).unwrap(), self);
    }

    /// The file of the square.
    pub open spec fn spec_file(self) -> File {
        File::spec_from_repr(self.idx() % 8).unwrap()
    }

    /// The rank of the square.
    pub open spec fn spec_rank(self) -> Rank {
        Rank::spec_from_repr(self.idx() / 8).unwrap()
    }

    /// Constructs new square from rank and file.
    pub fn new(rank: Rank, file: File) -> (r: Square)
        ensures
            r.idx() == rank.idx() * 8 + file.idx(),
            r == Square::spec_new(rank, file),
    {
        proof {
            rank.lemma_repr_roundtrip();
            file.lemma_repr_roundtrip();
            Square::lemma_from_repr_in_range(rank.idx() * 8 + file.idx());
        }
        Self::from_repr(rank.repr() * (File::COUNT as u8) + file.repr()).unwrap()
    }

    /// Returns file of the square.
    pub fn file(self) -> (r: File)
        ensures
            r.idx() == self.idx() % 8,
            r == self.spec_file(),
    {
        proof {
            self.lemma_repr_roundtrip();
            File::lemma_from_repr_in_range(self.idx() % 8);
        }
        File::from_repr(self.repr() % (File::COUNT as u8)).unwrap()
    }

    /// Returns rank of the square.
    pub fn rank(self) -> (r: Rank)
        ensures
            r.idx() == self.idx() / 8,
            r == self.spec_rank(),
    {
        proof {
            self.lemma_repr_roundtrip();
            Rank::lemma_from_repr_in_range(self.idx() / 8);
        }
        Rank::from_repr(self.repr() / (File::COUNT as u8)).unwrap()
    }

    /// Returns positive diagonal of the square.
    pub fn pos_diag(self) -> (r: PosDiag)
        ensures
            r.idx() == self.idx() / 8 - self.idx() % 8,
    {
        let rank = self.rank();
        let file = self.file();
        proof {
            PosDiag::lemma_from_repr_in_range(self.idx() / 8 - self.idx() % 8);
        }
        PosDiag::from_repr(rank.repr() as i8 - file.repr() as i8).unwrap()
    }

    /// Returns negative diagonal of the square.
    pub fn neg_diag(self) -> (r: NegDiag)
        ensures
            r.idx() == self.idx() / 8 + self.idx() % 8 - 7,
    {
        let rank = self.rank();
        let file = self.file();
        proof {
            NegDiag::lemma_from_repr_in_range(self.idx() / 8 + self.idx() % 8 - 7);
        }
        NegDiag::from_repr(rank.repr() as i8 + file.repr() as i8 + NegDiag::A1A1.repr()).unwrap()
    }

    /// Cycles through the squares several steps in a given direction,
    /// wrapping around the board: the result is `(self + delta) mod 64`.
    pub fn shifted(self, delta: i8) -> (r: Square)
        ensures
            r.idx() == (self.idx() + delta) % 64,
    {
        proof {
            self.lemma_repr_roundtrip();
        }
        let x: i16 = self.repr() as i16 + delta as i16 + 192;
        let m: u8 = (x as u16 % 64) as u8;
        proof {
            assert((self.idx() + delta) % 64 == (self.idx() + delta + 192) % 64);
            Square::lemma_from_repr_in_range(m as int);
        }
        Self::from_repr(m).unwrap()
    }

    /// Mirrors square horizontally.
    pub fn mirrored(self) -> (r: Square)
        ensures
            r.idx() == (7 - self.idx() / 8) * 8 + self.idx() % 8,
    {
        Self::new(self.rank().mirrored(), self.file())
    }

    /// The square a pawn of the given color lands on when capturing en passant on the file.
    pub fn after_en_passant(file: File, turn: Color) -> (r: Square)
        ensures
            r == Square::spec_new(if turn == Color::White { Rank::R6 } else { Rank::R3 }, file),
    {
        Square::new(if turn == Color::White { Rank::R6 } else { Rank::R3 }, file)
    }

    /// Returns file of the square.
    pub fn into_file(self) -> (r: File)
        ensures
            r == self.spec_file(),
    {
        self.file()
    }

    /// Returns rank of the square.
    pub fn into_rank(self) -> (r: Rank)
        ensures
            r == self.spec_rank(),
    {
        self.rank()
    }

    /// The square named by a file letter (either case) and a rank digit, such as `"e4"`.
    pub open spec fn spec_parse(s: Seq<char>) -> Option<Square> {
        if s.len() == 2 {
            match (spec_file_from_char(s[0]), spec_rank_from_char(s[1])) {
                (Some(f), Some(r)) => Some(Square::spec_new(r, f)),
                _ => None,
            }
        } else {
            None
        }
    }

    /// Parses a square name such as `"e4"` or `"E4"`.
    pub fn parse_name(s: &str) -> (r: Option<Square>)
        ensures
            r == Square::spec_parse(s@),
    {
        if s.unicode_len() != 2 {
            return None;
        }
        let f = file_from_char(s.get_char(0));
        let r = rank_from_char(s.get_char(1));
        match (f, r) {
            (Some(f), Some(r)) => Some(Square::new(r, f)),
            _ => None,
        }
    }
}

} // verus!
