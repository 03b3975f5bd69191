//! Similarity scores.
//!
//! A score is an IEEE 754 single-precision number that is carried as its bit pattern. Scores are
//! computed where fingerprints are read; here they are only compared, and the comparisons are the
//! ones that the standard gives to the numbers.
use vstd::prelude::*;

verus! {

/// A single-precision number, held as its bit pattern.
#[derive(Debug, Clone, Copy, PartialEq, Eq, Structural)]
pub struct Score {
    pub bits: u32,
}

/// Bit pattern of 0.5.
pub const HALF: u32 = 0x3f00_0000;

/// Bit pattern of 0.6.
pub const SIX_TENTHS: u32 = 0x3f19_999a;

/// Bit pattern of 0.7.
pub const SEVEN_TENTHS: u32 = 0x3f33_3333;

/// Bit pattern of 0.8.
pub const EIGHT_TENTHS: u32 = 0x3f4c_cccd;

/// Bit pattern of 0.85.
pub const EIGHTY_FIVE_PERCENT: u32 = 0x3f59_999a;

/// Bit pattern of 0.9.
pub const NINE_TENTHS: u32 = 0x3f66_6666;

/// Bit pattern of 0.95.
pub const NINETY_FIVE_PERCENT: u32 = 0x3f73_3333;

impl Score {
    /// The number is "not a number", which compares false with everything.
    pub open spec fn is_nan(self) -> bool {
        self.bits % 0x8000_0000 > 0x7f80_0000
    }

    /// The place of the number among all numbers. Both zeros have the same place.
    pub open spec fn place(self) -> int {
        if self.bits < 0x8000_0000 {
            self.bits as int
        } else {
            0x8000_0000 - self.bits
        }
    }

    /// `self >= other`.
    pub open spec fn at_least(self, other: Score) -> bool {
        !self.is_nan() && !other.is_nan() && self.place() >= other.place()
    }

    /// `self > other`.
    pub open spec fn above(self, other: Score) -> bool {
        !self.is_nan() && !other.is_nan() && self.place() > other.place()
    }

    /// `self < other`.
    pub open spec fn below(self, other: Score) -> bool {
        other.above(self)
    }

    fn nan(self) -> (r: bool)
        ensures
            r == self.is_nan(),
    {
        self.bits % 0x8000_0000 > 0x7f80_0000
    }

    fn rank(self) -> (r: i64)
        ensures
            r == self.place(),
    {
        if self.bits < 0x8000_0000 {
            self.bits as i64
        } else {
            0x8000_0000i64 - self.bits as i64
        }
    }

    /// The score with the given bit pattern.
    pub fn from_bits(bits: u32) -> (r: Score)
        ensures
            r.bits == bits,
    {
        Score { bits }
    }

    /// The score 0.
    pub fn zero() -> (r: Score)
        ensures
            r == (Score { bits: 0 }),
    {
        Score { bits: 0 }
    }

    /// Tests `self >= other`.
    pub fn ge(self, other: Score) -> (r: bool)
        ensures
            r == self.at_least(other),
    {
        !self.nan() && !other.nan() && self.rank() >= other.rank()
    }

    /// Tests `self > other`.
    pub fn gt(self, other: Score) -> (r: bool)
        ensures
            r == self.above(other),
    {
        !self.nan() && !other.nan() && self.rank() > other.rank()
    }

    /// Tests `self < other`.
    pub fn lt(self, other: Score) -> (r: bool)
        ensures
            r == self.below(other),
    {
        other.gt(self)
    }
}

/// Of two scores that are numbers, one is at least the other, and "below" is the contrary of
/// "at least".
pub proof fn scores_are_ordered(a: Score, b: Score)
    requires
        !a.is_nan(),
        !b.is_nan(),
    ensures
        a.at_least(b) || b.at_least(a),
        a.below(b) <==> !a.at_least(b),
        a.above(b) <==> a.at_least(b) && !b.at_least(a),
{
}

/// "At least" carries over from score to score.
pub proof fn at_least_is_transitive(a: Score, b: Score, c: Score)
    requires
        a.at_least(b),
        b.at_least(c),
    ensures
        a.at_least(c),
{
}

/// The positions of the first `n` scores that reach the threshold.
pub open spec fn reaching(scores: Seq<Score>, threshold: Score, n: int) -> Seq<int>
    decreases n,
{
    if n <= 0 {
        Seq::empty()
    } else if scores[n - 1].at_least(threshold) {
        reaching(scores, threshold, n - 1).push(n - 1)
    } else {
        reaching(scores, threshold, n - 1)
    }
}

/// Every position that is found has a score that reaches the threshold.
pub proof fn found_scores_reach_the_threshold(scores: Seq<Score>, threshold: Score, n: int, k: int)
    requires
        0 <= n <= scores.len(),
        0 <= k < reaching(scores, threshold, n).len(),
    ensures
        0 <= reaching(scores, threshold, n)[k] < n,
        scores[reaching(scores, threshold, n)[k]].at_least(threshold),
    decreases n,
{
    if n > 0 {
        let before = reaching(scores, threshold, n - 1);
        if k < before.len() {
            found_scores_reach_the_threshold(scores, threshold, n - 1, k);
        }
    }
}

/// No score that reaches the threshold is left out.
pub proof fn no_reaching_score_is_missed(scores: Seq<Score>, threshold: Score, n: int, i: int)
    requires
        0 <= i < n <= scores.len(),
        scores[i].at_least(threshold),
    ensures
        reaching(scores, threshold, n).contains(i),
    decreases n,
{
    let before = reaching(scores, threshold, n - 1);
    if i == n - 1 {
        assert(reaching(scores, threshold, n)[before.len() as int] == i);
    } else {
        no_reaching_score_is_missed(scores, threshold, n - 1, i);
        let k = choose|k: int| 0 <= k < before.len() && before[k] == i;
        assert(reaching(scores, threshold, n)[k] == i);
    }
}

/// The positions that are found come in order.
pub proof fn found_scores_come_in_order(
    scores: Seq<Score>,
    threshold: Score,
    n: int,
    k: int,
    l: int,
)
    requires
        0 <= n <= scores.len(),
        0 <= k < l < reaching(scores, threshold, n).len(),
    ensures
        reaching(scores, threshold, n)[k] < reaching(scores, threshold, n)[l],
    decreases n,
{
    let before = reaching(scores, threshold, n - 1);
    if l < before.len() {
        found_scores_come_in_order(scores, threshold, n - 1, k, l);
    } else {
        found_scores_reach_the_threshold(scores, threshold, n - 1, k);
    }
}

/// The position of the greatest of the first `n` scores, the first of them where there are several;
/// nothing where none is above zero.
pub open spec fn best_of(scores: Seq<Score>, n: int) -> Option<int>
    decreases n,
{
    if n <= 0 {
        None
    } else {
        let before = best_of(scores, n - 1);
        if scores[n - 1].above(score_of(scores, before)) {
            Some(n - 1)
        } else {
            before
        }
    }
}

/// The score at a position, zero where there is no position.
pub open spec fn score_of(scores: Seq<Score>, at: Option<int>) -> Score {
    match at {
        Some(i) => scores[i],
        None => Score { bits: 0 },
    }
}

/// The best score is above zero, no score is above it, and every score in front of it is below it
/// or not a number. Without a best score, none is above zero.
pub proof fn best_is_the_greatest(scores: Seq<Score>, n: int, j: int)
    requires
        0 <= j < n <= scores.len(),
    ensures
        match best_of(scores, n) {
            Some(i) => {
                &&& 0 <= i < n
                &&& scores[i].above(Score { bits: 0 })
                &&& !scores[j].above(scores[i])
                &&& j < i ==> !scores[j].at_least(scores[i])
            },
            None => !scores[j].above(Score { bits: 0 }),
        },
    decreases n,
{
    if n == 1 {
    } else if j == n - 1 {
        best_is_the_greatest(scores, n - 1, 0);
    } else {
        best_is_the_greatest(scores, n - 1, j);
    }
}

}
