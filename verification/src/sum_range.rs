//! The sum-range estimator: the interval in which the sum of an admissible
//! draw must lie, derived from the sums of the organically drawn records.

use crate::draw::{ball_sum, has_number, MegaSena};
use vstd::prelude::*;

verus! {

/// Where the lower bound starts before any record has been seen.
pub const BASELINE_MIN_SUM: i64 = 346;

/// Whether a record informs the bounds: it was drawn, not generated, and at
/// least one of its balls is known.
pub open spec fn informs_range(record: MegaSena) -> bool {
    !record.generated_by_rust && has_number(record@)
}

/// The sums of the records that inform the bounds, in the order of the
/// history.
pub open spec fn informing_sums(history: Seq<MegaSena>) -> Seq<int>
    decreases history.len(),
{
    if history.len() == 0 {
        Seq::empty()
    } else if informs_range(history.last()) {
        informing_sums(history.drop_last()).push(ball_sum(history.last()@))
    } else {
        informing_sums(history.drop_last())
    }
}

/// The smaller of two integers.
pub open spec fn lesser(a: int, b: int) -> int {
    if a <= b {
        a
    } else {
        b
    }
}

/// The larger of two integers.
pub open spec fn greater(a: int, b: int) -> int {
    if a >= b {
        a
    } else {
        b
    }
}

/// The least of `start` and all of `sums`.
pub open spec fn lowest(start: int, sums: Seq<int>) -> int
    decreases sums.len(),
{
    if sums.len() == 0 {
        start
    } else {
        lesser(lowest(start, sums.drop_last()), sums.last())
    }
}

/// The greatest of `start` and all of `sums`.
pub open spec fn highest(start: int, sums: Seq<int>) -> int
    decreases sums.len(),
{
    if sums.len() == 0 {
        start
    } else {
        greater(highest(start, sums.drop_last()), sums.last())
    }
}

/// The bounds that a history gives, as a pair of the minimum and the
/// maximum: the minimum is the least of `baseline` and the sums of the
/// records that inform it, the maximum the greatest of zero and those sums.
pub open spec fn estimate(history: Seq<MegaSena>, baseline: int) -> (int, int) {
    (lowest(baseline, informing_sums(history)), highest(0, informing_sums(history)))
}

/// Whether `sum` lies strictly between the two bounds.
pub open spec fn admits_sum(range: (int, int), sum: int) -> bool {
    range.0 < sum < range.1
}

/// Whether no sum at all lies strictly between the two bounds.
pub open spec fn is_void(range: (int, int)) -> bool {
    range.1 - range.0 < 2
}

/// The bounds between which the sum of an admissible draw must lie, both
/// excluded.
#[derive(Debug, Clone, Copy, PartialEq, Eq, Structural)]
pub struct AdmissibleRange {
    pub min_sum: i128,
    pub max_sum: i128,
}

impl View for AdmissibleRange {
    type V = (int, int);

    /// The minimum and the maximum.
    open spec fn view(&self) -> (int, int) {
        (self.min_sum as int, self.max_sum as int)
    }
}

impl AdmissibleRange {
    /// The bounds before any record has been seen: the baseline below, zero
    /// above.
    pub fn starting_at(baseline: i64) -> (r: Self)
        ensures
            r@ == (baseline as int, 0int),
            r@ == estimate(Seq::empty(), baseline as int),
    {
        AdmissibleRange { min_sum: baseline as i128, max_sum: 0 }
    }

    /// The bounds after one more record of the history. A record that does
    /// not inform the bounds leaves them as they are; any other lowers the
    /// minimum to its sum if that is smaller, and raises the maximum to its
    /// sum if that is larger.
    pub fn widened_by(self, record: &MegaSena) -> (r: Self)
        ensures
            !informs_range(*record) ==> r == self,
            informs_range(*record) ==> r@ == (
                lesser(self@.0, ball_sum(record@)),
                greater(self@.1, ball_sum(record@)),
            ),
    {
        if record.generated_by_rust || !record.has_any_number() {
            return self;
        }
        let sum = record.sum();
        let min_sum = if sum < self.min_sum {
            sum
        } else {
            self.min_sum
        };
        let max_sum = if sum > self.max_sum {
            sum
        } else {
            self.max_sum
        };
        AdmissibleRange { min_sum, max_sum }
    }

    /// Whether `sum` lies strictly between the bounds.
    pub fn admits(&self, sum: i128) -> (r: bool)
        ensures
            r == admits_sum(self@, sum as int),
    {
        self.min_sum < sum && sum < self.max_sum
    }

    /// Whether no sum at all lies strictly between the bounds, so that no
    /// draw can be admitted.
    pub fn is_empty(&self) -> (r: bool)
        ensures
            r == is_void(self@),
            r == (forall|sum: int| !admits_sum(self@, sum)),
    {
        let r = self.max_sum <= self.min_sum || self.max_sum - 1 == self.min_sum;
        proof {
            if !r {
                assert(admits_sum(self@, self.min_sum + 1));
            }
        }
        r
    }
}

/// The admissible range that a history gives: the minimum is the least of
/// `baseline` and the sums of the records that inform it, the maximum the
/// greatest of zero and those sums.
pub fn estimate_sum_range(history: &Vec<MegaSena>, baseline: i64) -> (r: AdmissibleRange)
    ensures
        r@ == estimate(history@, baseline as int),
{
    let mut range = AdmissibleRange::starting_at(baseline);
    let mut i: usize = 0;
    assert(history@.take(0) =~= Seq::empty());
    while i < history.len()
        invariant
            i <= history.len(),
            range@ == estimate(history@.take(i as int), baseline as int),
        decreases history.len() - i,
    {
        proof {
            let longer = history@.take(i as int + 1);
            assert(longer.drop_last() =~= history@.take(i as int));
            assert(longer.last() == history@[i as int]);
            if informs_range(history@[i as int]) {
                let sums = informing_sums(longer);
                assert(sums.drop_last() =~= informing_sums(history@.take(i as int)));
            }
        }
        range = range.widened_by(&history[i]);
        i += 1;
    }
    assert(history@.take(history@.len() as int) =~= history@);
    range
}

/// The minimum never exceeds the baseline nor any informing sum, and it is
/// one of them; likewise the maximum is zero or an informing sum, and none
/// of them exceeds it.
pub proof fn lemma_bounds_are_extremes(start: int, sums: Seq<int>)
    ensures
        lowest(start, sums) <= start,
        highest(start, sums) >= start,
        forall|i: int| 0 <= i < sums.len() ==> lowest(start, sums) <= #[trigger] sums[i],
        forall|i: int| 0 <= i < sums.len() ==> highest(start, sums) >= #[trigger] sums[i],
        lowest(start, sums) == start || sums.contains(lowest(start, sums)),
        highest(start, sums) == start || sums.contains(highest(start, sums)),
    decreases sums.len(),
{
    if sums.len() > 0 {
        let rest = sums.drop_last();
        lemma_bounds_are_extremes(start, rest);
        assert forall|i: int| 0 <= i < sums.len() implies lowest(start, sums) <= #[trigger] sums[i]
            && highest(start, sums) >= sums[i] by {
            if i < rest.len() {
                assert(rest[i] == sums[i]);
            }
        }
        let low = lowest(start, sums);
        if low != start {
            if low == sums.last() {
                assert(sums[sums.len() - 1] == low);
            } else {
                let i = choose|i: int| 0 <= i < rest.len() && rest[i] == low;
                assert(sums[i] == low);
            }
        }
        let high = highest(start, sums);
        if high != start {
            if high == sums.last() {
                assert(sums[sums.len() - 1] == high);
            } else {
                let i = choose|i: int| 0 <= i < rest.len() && rest[i] == high;
                assert(sums[i] == high);
            }
        }
    }
}

/// Adding one record that informs the bounds moves them only outwards: a
/// sum below the minimum becomes the minimum, a sum above the maximum
/// becomes the maximum, and a sum strictly between the two changes neither.
pub proof fn lemma_estimate_is_monotonic(history: Seq<MegaSena>, record: MegaSena, baseline: int)
    requires
        informs_range(record),
    ensures
        ({
            let before = estimate(history, baseline);
            let after = estimate(history.push(record), baseline);
            let sum = ball_sum(record@);
            &&& sum < before.0 ==> after.0 == sum
            &&& sum > before.1 ==> after.1 == sum
            &&& admits_sum(before, sum) ==> after == before
            &&& after.0 <= before.0
            &&& after.1 >= before.1
        }),
{
    let longer = history.push(record);
    assert(longer.drop_last() =~= history);
    assert(longer.last() == record);
    assert(informing_sums(longer).drop_last() =~= informing_sums(history));
}

/// A record that does not inform the bounds, because it was generated or
/// holds no number, changes neither of them.
pub proof fn lemma_estimate_ignores_others(history: Seq<MegaSena>, record: MegaSena, baseline: int)
    requires
        !informs_range(record),
    ensures
        estimate(history.push(record), baseline) == estimate(history, baseline),
{
    let longer = history.push(record);
    assert(longer.drop_last() =~= history);
    assert(longer.last() == record);
}

/// With no record at all the minimum is the baseline and the maximum zero.
pub proof fn lemma_estimate_of_nothing(baseline: int)
    ensures
        estimate(Seq::empty(), baseline) == (baseline, 0int),
{
}

} // verus!
