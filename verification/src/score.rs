//! How advantageous a chess position is, as a mate distance or a material count.

use vstd::prelude::*;

use std::cmp::Ordering;

use crate::game::GameEnding;

verus! {

/// How advantageous is a chess position.
#[derive(Debug, Clone, Copy, PartialEq, Eq, Structural, Hash)]
pub enum Score {
    /// Length of a forced mate sequence in turns (good).
    Mating(u64),
    /// Length of a forced mate sequence in turns (bad).
    Mated(u64),
    /// Score in centi-pawns (1/100 of a pawn).
    Cp(i32),
}

/// The order of scores: being mated is worst (the later the better), then
/// centipawn scores by value, then mating (the sooner the better); the result
/// is negative, zero or positive.
pub open spec fn score_order(a: Score, b: Score) -> int {
    match (a, b) {
        (Score::Mating(n1), Score::Mating(n2)) => if n1 < n2 { 1 } else if n1 == n2 { 0 } else { -1 },
        (Score::Mating(_), _) => 1,
        (Score::Mated(_), Score::Mating(_)) => -1,
        (Score::Mated(n1), Score::Mated(n2)) => if n1 < n2 { -1 } else if n1 == n2 { 0 } else { 1 },
        (Score::Mated(_), Score::Cp(_)) => -1,
        (Score::Cp(_), Score::Mating(_)) => -1,
        (Score::Cp(_), Score::Mated(_)) => 1,
        (Score::Cp(i1), Score::Cp(i2)) => if i1 < i2 { -1 } else if i1 == i2 { 0 } else { 1 },
    }
}

/// The score for the other player on the previous turn.
pub open spec fn spec_prev(s: Score) -> Score {
    match s {
        Score::Mating(n) => Score::Mated(n),
        Score::Mated(n) => Score::Mating((n + 1) as u64),
        Score::Cp(i) => Score::Cp((-i) as i32),
    }
}

/// The score for the other player on the previous turn, held at the ends of
/// the range: being mated in the most turns stays a mate in the most turns,
/// and the lowest centipawn count turns into the highest.
pub open spec fn spec_prev_sat(s: Score) -> Score {
    match s {
        Score::Mating(n) => Score::Mated(n),
        Score::Mated(n) => Score::Mating(if n < u64::MAX { (n + 1) as u64 } else { n }),
        Score::Cp(i) => Score::Cp(if i > i32::MIN { (-i) as i32 } else { i32::MAX }),
    }
}

/// The score for the other player on the next turn.
pub open spec fn spec_next(s: Score) -> Score {
    match s {
        Score::Mating(n) => Score::Mated((n - 1) as u64),
        Score::Mated(n) => Score::Mating(n),
        Score::Cp(i) => Score::Cp((-i) as i32),
    }
}

impl Score {
    /// Returns the score for the [`GameEnding`].
    pub fn ending(ending: GameEnding) -> (r: Self)
        ensures
            r == (match ending {
                GameEnding::Stalemate => Score::Cp(0),
                GameEnding::Checkmate => Score::Mated(0),
            }),
    {
        match ending {
            GameEnding::Stalemate => Self::Cp(0),
            GameEnding::Checkmate => Self::Mated(0),
        }
    }

    /// Returns the score for the other player on the previous turn, held at
    /// the ends of the range.
    pub fn prev_saturating(self) -> (r: Self)
        ensures
            r == spec_prev_sat(self),
            (self matches Score::Mated(n) ==> n < u64::MAX) && (self matches Score::Cp(i) ==> i > i32::MIN) ==> r
                == spec_prev(self),
    {
        match self {
            Score::Mating(n) => Score::Mated(n),
            Score::Mated(n) => Score::Mating(if n < u64::MAX { n + 1 } else { n }),
            Score::Cp(i) => Score::Cp(if i > i32::MIN { -i } else { i32::MAX }),
        }
    }

    /// Returns the score for the other player on the previous turn.
    pub fn prev(self) -> (r: Self)
        requires
            self matches Score::Mated(n) ==> n < u64::MAX,
            self matches Score::Cp(i) ==> i > i32::MIN,
        ensures
            r == spec_prev(self),
    {
        match self {
            Score::Mating(n) => Score::Mated(n),
            Score::Mated(n) => Score::Mating(n + 1),
            Score::Cp(i) => Score::Cp(-i),
        }
    }

    /// Returns the score for the other player on the next turn.
    pub fn next(self) -> (r: Self)
        requires
            self matches Score::Mating(n) ==> n > 0,
            self matches Score::Cp(i) ==> i > i32::MIN,
        ensures
            r == spec_next(self),
    {
        match self {
            Score::Mating(n) => Score::Mated(n - 1),
            Score::Mated(n) => Score::Mating(n),
            Score::Cp(i) => Score::Cp(-i),
        }
    }

    /// Whether the score is better than the other one.
    pub fn is_better(self, other: Self) -> (r: bool)
        ensures
            r == (score_order(self, other) > 0),
    {
        match (self, other) {
            (Score::Mating(n1), Score::Mating(n2)) => n1 < n2,
            (Score::Mating(_), _) => true,
            (Score::Mated(_), Score::Mating(_)) => false,
            (Score::Mated(n1), Score::Mated(n2)) => n1 > n2,
            (Score::Mated(_), Score::Cp(_)) => false,
            (Score::Cp(_), Score::Mating(_)) => false,
            (Score::Cp(_), Score::Mated(_)) => true,
            (Score::Cp(i1), Score::Cp(i2)) => i1 > i2,
        }
    }

    /// Whether the score is at least as good as the other one.
    pub fn is_at_least(self, other: Self) -> (r: bool)
        ensures
            r == (score_order(self, other) >= 0),
    {
        proof {
            lemma_order_antisymmetric(self, other);
        }
        !other.is_better(self)
    }

    /// Compares two scores: the better one is greater.
    pub fn cmp(&self, other: &Self) -> (r: Ordering)
        ensures
            (r == Ordering::Less) == (score_order(*self, *other) < 0),
            (r == Ordering::Equal) == (score_order(*self, *other) == 0),
            (r == Ordering::Greater) == (score_order(*self, *other) > 0),
    {
        match (self, other) {
            (Score::Mating(n1), Score::Mating(n2)) => if n1 < n2 {
                Ordering::Greater
            } else if n1 == n2 {
                Ordering::Equal
            } else {
                Ordering::Less
            },
            (Score::Mating(_), _) => Ordering::Greater,
            (Score::Mated(_), Score::Mating(_)) => Ordering::Less,
            (Score::Mated(n1), Score::Mated(n2)) => if n1 < n2 {
                Ordering::Less
            } else if n1 == n2 {
                Ordering::Equal
            } else {
                Ordering::Greater
            },
            (Score::Mated(_), Score::Cp(_)) => Ordering::Less,
            (Score::Cp(_), Score::Mating(_)) => Ordering::Less,
            (Score::Cp(_), Score::Mated(_)) => Ordering::Greater,
            (Score::Cp(i1), Score::Cp(i2)) => if i1 < i2 {
                Ordering::Less
            } else if i1 == i2 {
                Ordering::Equal
            } else {
                Ordering::Greater
            },
        }
    }
}

/// Stepping a score to the next turn undoes stepping it to the previous turn,
/// and the other way round.
pub proof fn lemma_prev_next(s: Score)
    ensures
        (s matches Score::Mated(n) ==> n < u64::MAX) && (s matches Score::Cp(i) ==> i > i32::MIN)
            ==> spec_next(spec_prev(s)) == s,
        (s matches Score::Mating(n) ==> n > 0) && (s matches Score::Cp(i) ==> i > i32::MIN)
            ==> spec_prev(spec_next(s)) == s,
{
}

/// The order of scores is antisymmetric: swapping the scores flips the sign.
pub proof fn lemma_order_antisymmetric(a: Score, b: Score)
    ensures
        score_order(a, b) == -score_order(b, a),
        score_order(a, b) == 0 <==> a == b,
{
}

/// The order of scores is transitive.
pub proof fn lemma_order_transitive(a: Score, b: Score, c: Score)
    requires
        score_order(a, b) < 0,
        score_order(b, c) < 0,
    ensures
        score_order(a, c) < 0,
{
}

} // verus!
