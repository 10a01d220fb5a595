//! The overlap filter: how many numbers a candidate shares with a past draw,
//! and whether it shares too many with any of them.

use crate::draw::{lemma_numbers_finite, lemma_numbers_step, model, numbers, occurs_before, MegaSena};
use vstd::prelude::*;

verus! {

/// How many numbers two records have in common.
pub open spec fn overlap(candidate: Seq<Option<int>>, historical: Seq<Option<int>>) -> nat {
    numbers(candidate).intersect(numbers(historical)).len()
}

/// The slots of each record of a history, in order.
pub open spec fn draws(history: Seq<MegaSena>) -> Seq<Seq<Option<int>>> {
    Seq::new(history.len(), |i: int| history[i]@)
}

/// Some past draw shares at least `threshold` numbers with the candidate.
pub open spec fn blocked(
    candidate: Seq<Option<int>>,
    history: Seq<Seq<Option<int>>>,
    threshold: int,
) -> bool {
    exists|i: int| 0 <= i < history.len() && #[trigger] overlap(candidate, history[i]) >= threshold
}

/// The largest overlap of the candidate with any past draw; zero where
/// there is none.
pub open spec fn max_overlap(candidate: Seq<Option<int>>, history: Seq<Seq<Option<int>>>) -> nat
    decreases history.len(),
{
    if history.len() == 0 {
        0
    } else {
        let rest = max_overlap(candidate, history.drop_last());
        let last = overlap(candidate, history.last());
        if last >= rest {
            last
        } else {
            rest
        }
    }
}

/// Overlap does not depend on which of the two records is the candidate.
pub proof fn lemma_overlap_symmetric(candidate: Seq<Option<int>>, historical: Seq<Option<int>>)
    ensures
        overlap(candidate, historical) == overlap(historical, candidate),
{
    assert(numbers(candidate).intersect(numbers(historical)) =~= numbers(historical).intersect(
        numbers(candidate),
    ));
}

/// Two records share no more numbers than either has slots; two draws of six
/// share between zero and six.
pub proof fn lemma_overlap_bounded(candidate: Seq<Option<int>>, historical: Seq<Option<int>>)
    ensures
        0 <= overlap(candidate, historical) <= candidate.len(),
        overlap(candidate, historical) <= historical.len(),
{
    lemma_numbers_finite(candidate);
    lemma_numbers_finite(historical);
    vstd::set_lib::lemma_len_intersect(numbers(candidate), numbers(historical));
    vstd::set_lib::lemma_len_intersect(numbers(historical), numbers(candidate));
    lemma_overlap_symmetric(candidate, historical);
}

/// The largest overlap is reached by some past draw and exceeded by none.
pub proof fn lemma_max_overlap(candidate: Seq<Option<int>>, history: Seq<Seq<Option<int>>>)
    ensures
        forall|i: int|
            0 <= i < history.len() ==> #[trigger] overlap(candidate, history[i]) <= max_overlap(
                candidate,
                history,
            ),
        history.len() > 0 ==> exists|i: int|
            0 <= i < history.len() && #[trigger] overlap(candidate, history[i]) == max_overlap(
                candidate,
                history,
            ),
    decreases history.len(),
{
    if history.len() > 0 {
        let rest = history.drop_last();
        lemma_max_overlap(candidate, rest);
        assert forall|i: int| 0 <= i < history.len() implies #[trigger] overlap(
            candidate,
            history[i],
        ) <= max_overlap(candidate, history) by {
            if i < rest.len() {
                assert(rest[i] == history[i]);
            }
        }
        if overlap(candidate, history.last()) >= max_overlap(candidate, rest) {
            assert(overlap(candidate, history[history.len() - 1]) == max_overlap(
                candidate,
                history,
            ));
        } else {
            let i = choose|i: int|
                0 <= i < rest.len() && #[trigger] overlap(candidate, rest[i]) == max_overlap(
                    candidate,
                    rest,
                );
            assert(rest[i] == history[i]);
            assert(overlap(candidate, history[i]) == max_overlap(candidate, history));
        }
    }
}

/// A candidate is blocked exactly when there is a past draw and the largest
/// overlap reaches the threshold. With no past draw nothing is blocked.
pub proof fn lemma_blocked_iff_max_overlap(
    candidate: Seq<Option<int>>,
    history: Seq<Seq<Option<int>>>,
    threshold: int,
)
    ensures
        blocked(candidate, history, threshold) <==> (history.len() > 0 && max_overlap(
            candidate,
            history,
        ) >= threshold),
        history.len() == 0 ==> !blocked(candidate, history, threshold),
{
    lemma_max_overlap(candidate, history);
    if history.len() > 0 && max_overlap(candidate, history) >= threshold {
        let i = choose|i: int|
            0 <= i < history.len() && #[trigger] overlap(candidate, history[i]) == max_overlap(
                candidate,
                history,
            );
        assert(overlap(candidate, history[i]) >= threshold);
    }
}

/// Counts the numbers that `candidate` shares with `historical`.
pub fn overlap_count(candidate: &MegaSena, historical: &MegaSena) -> (r: u8)
    ensures
        r == overlap(candidate@, historical@),
        r <= 6,
{
    let slots = candidate.slots();
    let ghost balls = candidate@;
    let ghost theirs = numbers(historical@);
    let mut count: u8 = 0;
    let mut i: usize = 0;
    proof {
        crate::draw::lemma_numbers_of_none(balls.take(0));
        assert(numbers(balls.take(0)).intersect(theirs) =~= Set::<int>::empty());
    }
    while i < 6
        invariant
            i <= 6,
            count <= i,
            balls == candidate@,
            balls == model(slots@),
            theirs == numbers(historical@),
            count == numbers(balls.take(i as int)).intersect(theirs).len(),
        decreases 6 - i,
    {
        let ghost seen = numbers(balls.take(i as int));
        proof {
            lemma_numbers_step(balls, i as int);
            lemma_numbers_finite(balls.take(i as int));
        }
        match slots[i] {
            Some(v) => {
                let repeated = occurs_before(&slots, i, v);
                let shared = historical.contains_number(v);
                proof {
                    let n = v as int;
                    if repeated {
                        assert(seen.insert(n) =~= seen);
                    } else if shared {
                        assert(seen.insert(n).intersect(theirs) =~= seen.intersect(theirs).insert(
                            n,
                        ));
                    } else {
                        assert(seen.insert(n).intersect(theirs) =~= seen.intersect(theirs));
                    }
                }
                if !repeated && shared {
                    count += 1;
                }
            },
            None => {},
        }
        i += 1;
    }
    proof {
        assert(balls.take(6) =~= balls);
    }
    count
}

/// Whether the candidate shares at least `threshold` numbers with any draw
/// of the history.
pub fn is_blocked(candidate: &MegaSena, history: &Vec<MegaSena>, threshold: u8) -> (r: bool)
    ensures
        r == blocked(candidate@, draws(history@), threshold as int),
{
    let mut i: usize = 0;
    while i < history.len()
        invariant
            i <= history.len(),
            forall|k: int|
                0 <= k < i ==> #[trigger] overlap(candidate@, draws(history@)[k]) < threshold,
        decreases history.len() - i,
    {
        if overlap_count(candidate, &history[i]) >= threshold {
            assert(overlap(candidate@, draws(history@)[i as int]) >= threshold);
            return true;
        }
        i += 1;
    }
    false
}

} // verus!
