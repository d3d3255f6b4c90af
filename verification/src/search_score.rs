//! Scores of the search, packed into one `i32`: mate distances at both ends of
//! the range and centipawn values in between.

use vstd::prelude::*;

use crate::game::GameEnding;

verus! {

/// The deepest search, in plies; mate distances up to it have their own scores.
pub const MAX_DEPTH: u8 = 255;

/// A search score.
#[derive(Debug, Clone, Copy, PartialEq, Eq, Structural, PartialOrd, Ord, Hash)]
pub struct Score(pub i32);

impl Score {
    /// The maximum representable score in centipawns.
    pub const CENTIPAWNS_MAX: i32 = 2147483391i32;
    /// The minimum representable score in centipawns.
    pub const CENTIPAWNS_MIN: i32 = -2147483392i32;

    /// Whether the score is a mating one.
    pub open spec fn spec_is_mating(self) -> bool {
        self.0 > Self::CENTIPAWNS_MAX
    }

    /// Whether the score is a mated one.
    pub open spec fn spec_is_mated(self) -> bool {
        self.0 < Self::CENTIPAWNS_MIN
    }

    /// Creates a new score for mating in n turns.
    pub fn from_mating(n_turns: u8) -> (r: Self)
        ensures
            r.0 == i32::MAX - n_turns,
            r.spec_is_mating(),
    {
        Self(i32::MAX - n_turns as i32)
    }

    /// Creates a new score for being mated in n turns.
    pub fn from_mated(n_turns: u8) -> (r: Self)
        ensures
            r.0 == i32::MIN + n_turns,
            r.spec_is_mated(),
    {
        Self(i32::MIN + n_turns as i32)
    }

    /// Creates a new score in centipawns.
    ///
    /// The score will be clamped to \\[[`Self::CENTIPAWNS_MIN`], [`Self::CENTIPAWNS_MAX`]\\].
    pub fn from_centipawns(value: i32) -> (r: Self)
        ensures
            r.0 == (if value < Self::CENTIPAWNS_MIN {
                Self::CENTIPAWNS_MIN
            } else if value > Self::CENTIPAWNS_MAX {
                Self::CENTIPAWNS_MAX
            } else {
                value
            }),
    {
        if value < Self::CENTIPAWNS_MIN {
            Self(Self::CENTIPAWNS_MIN)
        } else if value > Self::CENTIPAWNS_MAX {
            Self(Self::CENTIPAWNS_MAX)
        } else {
            Self(value)
        }
    }

    /// Returns `true` if the score represents the position where the player is mating.
    pub fn is_mating(self) -> (r: bool)
        ensures
            r == self.spec_is_mating(),
    {
        self.0 > Self::CENTIPAWNS_MAX
    }

    /// Returns `true` if the score represents the position where the player is being mated.
    pub fn is_mated(self) -> (r: bool)
        ensures
            r == self.spec_is_mated(),
    {
        self.0 < Self::CENTIPAWNS_MIN
    }

    /// Returns `true` if the score is measured in centipawns (not a "mating" or "mated" score).
    pub fn is_centipawns(self) -> (r: bool)
        ensures
            r == (!self.spec_is_mating() && !self.spec_is_mated()),
    {
        !self.is_mating() && !self.is_mated()
    }

    /// Returns the number of turns for the "mating" position.
    pub fn as_mating(self) -> (r: Option<u8>)
        ensures
            r == (if self.spec_is_mating() { Some((i32::MAX - self.0) as u8) } else { None }),
    {
        if self.is_mating() {
            Some((i32::MAX - self.0) as u8)
        } else {
            None
        }
    }

    /// Returns the number of turns for the "being mated" position.
    pub fn as_mated(self) -> (r: Option<u8>)
        ensures
            r == (if self.spec_is_mated() { Some((self.0 - i32::MIN) as u8) } else { None }),
    {
        if self.is_mated() {
            Some((self.0 - i32::MIN) as u8)
        } else {
            None
        }
    }

    /// Returns the value of the position in centipawns
    /// unless it's a "mating" or "being mated" position.
    pub fn as_centipawns(self) -> (r: Option<i32>)
        ensures
            r == (if !self.spec_is_mating() && !self.spec_is_mated() { Some(self.0) } else { None }),
    {
        if self.is_centipawns() {
            Some(self.0)
        } else {
            None
        }
    }

    /// Returns the score for the [`GameEnding`].
    pub fn from_ending(ending: GameEnding) -> (r: Self)
        ensures
            r.0 == (match ending {
                GameEnding::Stalemate => 0,
                GameEnding::Checkmate => i32::MIN,
            }),
    {
        match ending {
            GameEnding::Stalemate => Self::from_centipawns(0),
            GameEnding::Checkmate => Self::from_mated(0),
        }
    }

    /// The score for the other player on the previous turn: being mated in
    /// `n` turns becomes mating in `n + 1`, mating in `n` becomes being mated
    /// in `n`, and centipawns change sign.
    pub open spec fn spec_prev(self) -> Score {
        if self.spec_is_mating() {
            Score((-self.0 - 1) as i32)
        } else if self.spec_is_mated() {
            Score((-self.0 - 2) as i32)
        } else {
            Score((-self.0) as i32)
        }
    }

    /// The score for the other player on the next turn.
    pub open spec fn spec_next(self) -> Score {
        if self.spec_is_mating() {
            Score((-self.0 - 2) as i32)
        } else if self.spec_is_mated() {
            Score((-(self.0 + 1)) as i32)
        } else {
            Score((-self.0) as i32)
        }
    }

    /// Returns the score for the other player on the previous turn.
    pub fn prev(self) -> (r: Self)
        ensures
            r.0 == (if self.spec_is_mating() {
                -self.0 - 1
            } else if self.spec_is_mated() {
                -self.0 - 2
            } else {
                -self.0
            }),
            r == self.spec_prev(),
    {
        if self.is_mating() {
            Self(-self.0 - 1)
        } else if self.is_mated() {
            Self(-(self.0 + 1) - 1)
        } else {
            Self(-self.0)
        }
    }

    /// Returns the score for the other player on the next turn.
    pub fn next(self) -> (r: Self)
        requires
            self.0 != i32::MAX,
        ensures
            r.0 == (if self.spec_is_mating() {
                -self.0 - 2
            } else if self.spec_is_mated() {
                -(self.0 + 1)
            } else {
                -self.0
            }),
            r == self.spec_next(),
    {
        if self.is_mating() {
            Self(-self.0 - 2)
        } else if self.is_mated() {
            Self(-(self.0 + 1))
        } else {
            Self(-self.0)
        }
    }
}

/// Stepping a score back a turn and then forward again gives it back, for
/// every score but the lowest centipawn score (whose negation is a mating
/// score) and being mated in the most turns (whose step back is the highest
/// centipawn score).
pub proof fn lemma_prev_then_next(s: Score)
    requires
        s.0 != Score::CENTIPAWNS_MIN,
        s.0 != i32::MIN + 255,
    ensures
        s.spec_prev().0 != i32::MAX,
        s.spec_prev().spec_next() == s,
{
}

/// Stepping a score forward a turn and then back again gives it back, for
/// every score but mating now (which has no next turn) and the lowest
/// centipawn score (whose negation is a mating score).
pub proof fn lemma_next_then_prev(s: Score)
    requires
        s.0 != i32::MAX,
        s.0 != Score::CENTIPAWNS_MIN,
    ensures
        s.spec_next().spec_prev() == s,
{
}

} // verus!
