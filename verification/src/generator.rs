//! The candidate generator: six different numbers out of sixty, picked at
//! random and handed out in ascending order.

use crate::draw::{
    in_play, is_ascending, is_valid_draw, numbers, MegaSena, HIGHEST_NUMBER, LOWEST_NUMBER, SLOTS,
};
use crate::trio::{as_ints, no_repeats};
use vstd::prelude::*;

verus! {

/// The sequence number that a generated draw carries until it is stored.
pub const GENERATED_CONCURSO: i64 = 999999;

/// No element is larger than one that follows it.
pub open spec fn is_sorted(values: Seq<i64>) -> bool {
    forall|i: int, j: int| 0 <= i <= j < values.len() ==> values[i] <= values[j]
}

/// A usable sample: six different numbers, each between one and sixty.
pub open spec fn is_valid_sample(sample: Seq<i64>) -> bool {
    &&& sample.len() == SLOTS
    &&& no_repeats(as_ints(sample))
    &&& forall|i: int| 0 <= i < sample.len() ==> in_play(#[trigger] sample[i] as int)
}

/// Picks `amount` of the integers from `low` to `high` at random, with the
/// generator of the current thread, by
/// `rand::seq::IteratorRandom::choose_multiple` on the range `low..=high`.
///
/// Trusted: the result holds `amount` items, or the whole range where that
/// is shorter; each item lies in the range; and no item occurs twice, as the
/// reservoir only ever replaces one item of the range by a later one. Which
/// items are picked, and in what order they stand, is left open. The bounds
/// on the arguments keep the reservoir and the index arithmetic of the
/// sampler well inside what the machine can hold.
#[verifier::external_body]
fn choose_from_range(low: i64, high: i64, amount: usize) -> (picked: Vec<i64>)
    requires
        low <= high,
        high - low < 0x7fff_ffff,
        amount <= 0xffff,
    ensures
        picked@.len() == if amount <= high - low + 1 {
            amount as int
        } else {
            high - low + 1
        },
        forall|i: int| 0 <= i < picked@.len() ==> low <= #[trigger] picked@[i] <= high,
        forall|i: int, j: int| 0 <= i < j < picked@.len() ==> picked@[i] != picked@[j],
{
    let mut rng = rand::thread_rng();
    rand::seq::IteratorRandom::choose_multiple(low..=high, &mut rng, amount)
}

/// Sorts the values in ascending order, in place.
pub fn sort_ascending(values: &mut Vec<i64>)
    ensures
        is_sorted(final(values)@),
        final(values)@.to_multiset() == old(values)@.to_multiset(),
{
    let n = values.len();
    let ghost before = values@.to_multiset();
    let mut i: usize = 1;
    while i < n
        invariant
            values@.len() == n,
            1 <= i,
            values@.to_multiset() == before,
            forall|a: int, b: int| 0 <= a <= b < i && b < n ==> values@[a] <= values@[b],
        decreases n - i,
    {
        let mut j: usize = i;
        while j > 0 && values[j - 1] > values[j]
            invariant
                values@.len() == n,
                j <= i < n,
                values@.to_multiset() == before,
                forall|a: int, b: int|
                    0 <= a <= b <= i && a != j && b != j ==> values@[a] <= values@[b],
                forall|b: int| j < b <= i ==> values@[j as int] < values@[b],
            decreases j,
        {
            let left = values[j - 1];
            let right = values[j];
            let ghost start = values@;
            values.set(j - 1, right);
            values.set(j, left);
            proof {
                lemma_swap_keeps_multiset(start, j as int - 1, j as int);
                assert(values@ =~= start.update(j as int - 1, right).update(j as int, left));
            }
            j -= 1;
        }
        i += 1;
    }
}

/// Exchanging two elements of a sequence keeps what it holds.
pub proof fn lemma_swap_keeps_multiset(s: Seq<i64>, i: int, j: int)
    requires
        0 <= i < s.len(),
        0 <= j < s.len(),
    ensures
        s.update(i, s[j]).update(j, s[i]).to_multiset() == s.to_multiset(),
{
    broadcast use vstd::multiset::group_multiset_axioms;

    let once = s.update(i, s[j]);
    vstd::seq_lib::to_multiset_update(s, i, s[j]);
    vstd::seq_lib::to_multiset_update(once, j, s[i]);
    vstd::seq_lib::to_multiset_contains(s, s[i]);
    vstd::seq_lib::to_multiset_contains(s, s[j]);
    assert(s.contains(s[i]));
    assert(s.contains(s[j]));
    assert(once.update(j, s[i]).to_multiset() =~= s.to_multiset());
}

/// A sorted sequence without a repeated element rises strictly.
proof fn lemma_sorted_distinct_rises(values: Seq<i64>)
    requires
        is_sorted(values),
        values.no_duplicates(),
    ensures
        forall|i: int, j: int| 0 <= i < j < values.len() ==> values[i] < values[j],
{
}

/// Two sequences that hold the same elements agree on whether one occurs
/// twice, and on which elements occur at all.
proof fn lemma_same_elements(a: Seq<i64>, b: Seq<i64>)
    requires
        a.to_multiset() == b.to_multiset(),
    ensures
        a.len() == b.len(),
        a.no_duplicates() == b.no_duplicates(),
        forall|v: i64| a.contains(v) == b.contains(v),
{
    vstd::seq_lib::to_multiset_len(a);
    vstd::seq_lib::to_multiset_len(b);
    assert forall|v: i64| a.contains(v) == b.contains(v) by {
        vstd::seq_lib::to_multiset_contains(a, v);
        vstd::seq_lib::to_multiset_contains(b, v);
    }
    if a.no_duplicates() {
        a.lemma_multiset_has_no_duplicates();
        b.lemma_multiset_has_no_duplicates_conv();
    }
    if b.no_duplicates() {
        b.lemma_multiset_has_no_duplicates();
        a.lemma_multiset_has_no_duplicates_conv();
    }
}

/// The draw that a sample of the generator stands for: its numbers in
/// ascending order, marked as generated. A sample that is not six different
/// numbers between one and sixty stands for no draw.
pub fn candidate_from_sample(sample: &Vec<i64>) -> (r: Option<MegaSena>)
    ensures
        r is Some <==> is_valid_sample(sample@),
        r matches Some(draw) ==> {
            &&& is_valid_draw(draw@)
            &&& is_ascending(draw@)
            &&& numbers(draw@) == as_ints(sample@).to_set()
            &&& draw.generated_by_rust
            &&& draw.id == 0
            &&& draw.concurso == GENERATED_CONCURSO
            &&& draw.data@ == "31/12/2025"@
            &&& draw.inserted_at@ == "Algum momento"@
        },
{
    if sample.len() != SLOTS {
        return None;
    }
    let mut sorted: Vec<i64> = Vec::new();
    let mut i: usize = 0;
    while i < SLOTS
        invariant
            i <= SLOTS,
            sample@.len() == SLOTS,
            sorted@ == sample@.take(i as int),
        decreases SLOTS - i,
    {
        sorted.push(sample[i]);
        assert(sorted@ =~= sample@.take(i as int + 1));
        i += 1;
    }
    assert(sorted@ =~= sample@);
    sort_ascending(&mut sorted);
    proof {
        lemma_same_elements(sorted@, sample@);
        assert(no_repeats(as_ints(sample@)) == sample@.no_duplicates()) by {
            if sample@.no_duplicates() {
                assert forall|a: int, b: int| 0 <= a < b < 6 implies as_ints(sample@)[a]
                    != as_ints(sample@)[b] by {
                    assert(sample@[a] != sample@[b]);
                }
            }
            if no_repeats(as_ints(sample@)) {
                assert forall|a: int, b: int|
                    0 <= a < sample@.len() && 0 <= b < sample@.len() && a != b implies sample@[a]
                    != sample@[b] by {
                    if a < b {
                        assert(as_ints(sample@)[a] != as_ints(sample@)[b]);
                    } else {
                        assert(as_ints(sample@)[b] != as_ints(sample@)[a]);
                    }
                }
            }
        }
    }
    let rises = sorted[0] < sorted[1] && sorted[1] < sorted[2] && sorted[2] < sorted[3]
        && sorted[3] < sorted[4] && sorted[4] < sorted[5];
    let fits = LOWEST_NUMBER <= sorted[0] && sorted[5] <= HIGHEST_NUMBER;
    proof {
        if sample@.no_duplicates() {
            lemma_sorted_distinct_rises(sorted@);
        }
        if rises {
            assert(sorted@.no_duplicates());
        }
        if is_valid_sample(sample@) {
            assert(sample@.contains(sorted@[0]));
            assert(sample@.contains(sorted@[5]));
        }
        if rises && fits {
            assert forall|k: int| 0 <= k < sample@.len() implies in_play(
                #[trigger] sample@[k] as int,
            ) by {
                assert(sorted@.contains(sample@[k]));
                let at = choose|at: int| 0 <= at < sorted@.len() && sorted@[at] == sample@[k];
                assert(sorted@[0] <= sorted@[at] <= sorted@[5]);
            }
        }
    }
    if !(rises && fits) {
        return None;
    }
    let draw = MegaSena {
        id: 0,
        concurso: GENERATED_CONCURSO,
        data: String::from_str("31/12/2025"),
        bola_1: Some(sorted[0]),
        bola_2: Some(sorted[1]),
        bola_3: Some(sorted[2]),
        bola_4: Some(sorted[3]),
        bola_5: Some(sorted[4]),
        bola_6: Some(sorted[5]),
        inserted_at: String::from_str("Algum momento"),
        generated_by_rust: true,
    };
    proof {
        let balls = draw@;
        let wanted = as_ints(sample@).to_set();
        assert forall|v: int| numbers(balls).contains(v) == wanted.contains(v) by {
            if numbers(balls).contains(v) {
                let at = choose|at: int| 0 <= at < balls.len() && balls[at] == Some(v);
                assert(sorted@.contains(sorted@[at]));
                let from = choose|from: int|
                    0 <= from < sample@.len() && sample@[from] == sorted@[at];
                assert(as_ints(sample@)[from] == v);
            }
            if wanted.contains(v) {
                let from = choose|from: int|
                    0 <= from < as_ints(sample@).len() && as_ints(sample@)[from] == v;
                assert(sample@.contains(sample@[from]));
                let at = choose|at: int| 0 <= at < sorted@.len() && sorted@[at] == sample@[from];
                assert(balls[at] == Some(v));
            }
        }
        assert(numbers(balls) =~= wanted);
    }
    Some(draw)
}

/// Generates one candidate: six different numbers between one and sixty,
/// picked at random, in ascending order.
pub fn generate_mega_sena() -> (draw: MegaSena)
    ensures
        is_valid_draw(draw@),
        is_ascending(draw@),
        draw.generated_by_rust,
        draw.id == 0,
        draw.concurso == GENERATED_CONCURSO,
        draw.data@ == "31/12/2025"@,
        draw.inserted_at@ == "Algum momento"@,
{
    let sample = choose_from_range(LOWEST_NUMBER, HIGHEST_NUMBER, SLOTS);
    proof {
        assert forall|i: int, j: int| 0 <= i < j < as_ints(sample@).len() implies as_ints(
            sample@,
        )[i] != as_ints(sample@)[j] by {
            assert(sample@[i] != sample@[j]);
        }
    }
    candidate_from_sample(&sample).unwrap()
}

} // verus!
