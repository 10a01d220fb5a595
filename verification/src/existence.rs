//! The existence check: whether a draw with exactly the same six numbers is
//! already part of the history.

use crate::draw::{is_complete, lemma_numbers_step, model, numbers, MegaSena};
use crate::overlap::draws;
use vstd::prelude::*;

verus! {

/// Two records are the same draw when both are complete and hold the same
/// numbers, in whatever order.
pub open spec fn same_draw(first: Seq<Option<int>>, second: Seq<Option<int>>) -> bool {
    &&& is_complete(first)
    &&& is_complete(second)
    &&& numbers(first) == numbers(second)
}

/// Some draw of the history is the same draw as the candidate.
pub open spec fn already_drawn(candidate: Seq<Option<int>>, history: Seq<Seq<Option<int>>>) -> bool {
    exists|i: int| 0 <= i < history.len() && same_draw(candidate, #[trigger] history[i])
}

/// Whether every number of `inner` is also a number of `outer`.
pub fn holds_all_numbers_of(outer: &MegaSena, inner: &MegaSena) -> (r: bool)
    ensures
        r == numbers(inner@).subset_of(numbers(outer@)),
{
    let slots = inner.slots();
    let ghost balls = inner@;
    let mut i: usize = 0;
    proof {
        crate::draw::lemma_numbers_of_none(balls.take(0));
    }
    while i < 6
        invariant
            i <= 6,
            balls == inner@,
            balls == model(slots@),
            numbers(balls.take(i as int)).subset_of(numbers(outer@)),
        decreases 6 - i,
    {
        proof {
            lemma_numbers_step(balls, i as int);
        }
        match slots[i] {
            Some(v) => {
                if !outer.contains_number(v) {
                    assert(balls[i as int] == Some(v as int));
                    assert(numbers(balls).contains(v as int));
                    return false;
                }
            },
            None => {},
        }
        i += 1;
    }
    assert(balls.take(6) =~= balls);
    true
}

/// Whether the two records are the same draw.
pub fn is_same_draw(first: &MegaSena, second: &MegaSena) -> (r: bool)
    ensures
        r == same_draw(first@, second@),
{
    let r = first.has_six_numbers() && second.has_six_numbers() && holds_all_numbers_of(
        first,
        second,
    ) && holds_all_numbers_of(second, first);
    proof {
        if r {
            assert(numbers(first@) =~= numbers(second@));
        }
    }
    r
}

/// Whether the history already holds a draw with exactly the six numbers of
/// `megasena`.
pub fn game_already_exists(history: &Vec<MegaSena>, megasena: &MegaSena) -> (r: bool)
    ensures
        r == already_drawn(megasena@, draws(history@)),
{
    let mut i: usize = 0;
    while i < history.len()
        invariant
            i <= history.len(),
            forall|k: int| 0 <= k < i ==> !same_draw(megasena@, #[trigger] draws(history@)[k]),
        decreases history.len() - i,
    {
        if is_same_draw(megasena, &history[i]) {
            assert(same_draw(megasena@, draws(history@)[i as int]));
            return true;
        }
        i += 1;
    }
    false
}

} // verus!
