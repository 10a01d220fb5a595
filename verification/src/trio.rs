//! The trio analyzer: the twenty three-number sub-combinations of a draw,
//! and whether a past draw already holds one of them.

use crate::draw::{is_complete, is_distinct, lemma_numbers_finite, numbers, MegaSena};
use crate::overlap::{blocked, draws, overlap};
use vstd::prelude::*;

verus! {

/// How many trios a draw of six has.
pub const TRIOS_PER_DRAW: usize = 20;

/// The three positions, in a draw of six, that the trio at `rank` takes its
/// numbers from. Trios are ranked by their positions, smallest first.
pub open spec fn trio_positions(rank: int) -> (int, int, int) {
    if rank == 0 {
        (0, 1, 2)
    } else if rank == 1 {
        (0, 1, 3)
    } else if rank == 2 {
        (0, 1, 4)
    } else if rank == 3 {
        (0, 1, 5)
    } else if rank == 4 {
        (0, 2, 3)
    } else if rank == 5 {
        (0, 2, 4)
    } else if rank == 6 {
        (0, 2, 5)
    } else if rank == 7 {
        (0, 3, 4)
    } else if rank == 8 {
        (0, 3, 5)
    } else if rank == 9 {
        (0, 4, 5)
    } else if rank == 10 {
        (1, 2, 3)
    } else if rank == 11 {
        (1, 2, 4)
    } else if rank == 12 {
        (1, 2, 5)
    } else if rank == 13 {
        (1, 3, 4)
    } else if rank == 14 {
        (1, 3, 5)
    } else if rank == 15 {
        (1, 4, 5)
    } else if rank == 16 {
        (2, 3, 4)
    } else if rank == 17 {
        (2, 3, 5)
    } else if rank == 18 {
        (2, 4, 5)
    } else {
        (3, 4, 5)
    }
}

/// The rank of the first trio whose two smaller positions are `i` and `j`.
pub open spec fn first_rank(i: int, j: int) -> int {
    if i == 0 {
        if j == 1 {
            0
        } else if j == 2 {
            4
        } else if j == 3 {
            7
        } else if j == 4 {
            9
        } else {
            10
        }
    } else if i == 1 {
        if j == 2 {
            10
        } else if j == 3 {
            13
        } else if j == 4 {
            15
        } else {
            16
        }
    } else if i == 2 {
        if j == 3 {
            16
        } else if j == 4 {
            18
        } else {
            19
        }
    } else if i == 3 {
        if j == 4 {
            19
        } else {
            20
        }
    } else {
        20
    }
}

/// The rank of the trio at positions `i < j < k`.
pub open spec fn rank_of(i: int, j: int, k: int) -> int {
    first_rank(i, j) + (k - j - 1)
}

/// The trio at `rank` of a game of six numbers.
pub open spec fn trio_at(game: Seq<int>, rank: int) -> Seq<int> {
    let (i, j, k) = trio_positions(rank);
    seq![game[i], game[j], game[k]]
}

/// The twenty trios of a game of six numbers, by rank.
pub open spec fn trios_of(game: Seq<int>) -> Seq<Seq<int>> {
    Seq::new(TRIOS_PER_DRAW as nat, |rank: int| trio_at(game, rank))
}

/// A slice of numbers as mathematical integers.
pub open spec fn as_ints(game: Seq<i64>) -> Seq<int> {
    Seq::new(game.len(), |i: int| game[i] as int)
}

/// A list of trios as mathematical integers.
pub open spec fn as_trios(trios: Seq<[i64; 3]>) -> Seq<Seq<int>> {
    Seq::new(trios.len(), |t: int| as_ints(trios[t]@))
}

/// A record holds a trio when all three of its numbers are among the
/// numbers of the record.
pub open spec fn holds_trio(record: Seq<Option<int>>, trio: Seq<int>) -> bool {
    trio.to_set().subset_of(numbers(record))
}

/// Some draw of the history holds one of the trios.
pub open spec fn any_trio_repeated(trios: Seq<Seq<int>>, history: Seq<Seq<Option<int>>>) -> bool {
    exists|t: int, h: int|
        #![trigger trios[t], history[h]]
        0 <= t < trios.len() && 0 <= h < history.len() && holds_trio(history[h], trios[t])
}

/// The numbers of a complete record, in the order of its slots.
pub open spec fn in_slot_order(balls: Seq<Option<int>>) -> Seq<int> {
    Seq::new(balls.len(), |i: int| balls[i]->Some_0)
}

/// Ranks and positions correspond one to one: each rank below twenty names
/// three increasing positions below six, and every such choice of positions
/// has exactly one rank.
pub proof fn lemma_ranks_match_positions()
    ensures
        forall|rank: int|
            0 <= rank < TRIOS_PER_DRAW ==> {
                let (i, j, k) = #[trigger] trio_positions(rank);
                0 <= i < j < k < 6 && rank_of(i, j, k) == rank
            },
        forall|i: int, j: int, k: int|
            0 <= i < j < k < 6 ==> 0 <= #[trigger] rank_of(i, j, k) < TRIOS_PER_DRAW
                && trio_positions(rank_of(i, j, k)) == (i, j, k),
{
}

/// No number of the game fills two positions.
pub open spec fn no_repeats(game: Seq<int>) -> bool {
    forall|i: int, j: int| 0 <= i < j < game.len() ==> game[i] != game[j]
}

/// The numbers of the trio at `rank`, as a set.
pub proof fn lemma_trio_as_set(game: Seq<int>, rank: int)
    requires
        game.len() == 6,
        0 <= rank < TRIOS_PER_DRAW,
    ensures
        ({
            let (i, j, k) = trio_positions(rank);
            trio_at(game, rank).to_set() == set![game[i], game[j], game[k]]
        }),
        trio_at(game, rank).len() == 3,
{
    let (i, j, k) = trio_positions(rank);
    let trio = trio_at(game, rank);
    let expected = set![game[i], game[j], game[k]];
    assert forall|v: int| trio.to_set().contains(v) == expected.contains(v) by {
        if trio.to_set().contains(v) {
            let p = choose|p: int| 0 <= p < trio.len() && trio[p] == v;
            assert(p == 0 || p == 1 || p == 2);
        }
        if expected.contains(v) {
            assert(trio[0] == game[i] && trio[1] == game[j] && trio[2] == game[k]);
            assert(trio.contains(v));
        }
    }
    assert(trio.to_set() =~= expected);
}

/// The trios of a draw of six different numbers are twenty three-element
/// subsets of the draw.
pub proof fn lemma_trios_are_subsets(game: Seq<int>)
    requires
        game.len() == 6,
        no_repeats(game),
    ensures
        trios_of(game).len() == 20,
        forall|rank: int|
            0 <= rank < 20 ==> {
                let trio = #[trigger] trios_of(game)[rank];
                &&& trio.len() == 3
                &&& trio.to_set().finite()
                &&& trio.to_set().len() == 3
                &&& trio.to_set().subset_of(game.to_set())
            },
{
    lemma_ranks_match_positions();
    assert forall|rank: int| 0 <= rank < 20 implies {
        let trio = #[trigger] trios_of(game)[rank];
        &&& trio.len() == 3
        &&& trio.to_set().finite()
        &&& trio.to_set().len() == 3
        &&& trio.to_set().subset_of(game.to_set())
    } by {
        let (i, j, k) = trio_positions(rank);
        lemma_trio_as_set(game, rank);
        assert(game.to_set().contains(game[i]));
        assert(game.to_set().contains(game[j]));
        assert(game.to_set().contains(game[k]));
        assert(game[i] != game[j] && game[j] != game[k] && game[i] != game[k]);
    }
}

/// No two of the twenty trios of a draw of six different numbers hold the
/// same three numbers.
pub proof fn lemma_trios_differ(game: Seq<int>, first: int, second: int)
    requires
        game.len() == 6,
        no_repeats(game),
        0 <= first < second < 20,
    ensures
        trios_of(game)[first].to_set() != trios_of(game)[second].to_set(),
{
    lemma_ranks_match_positions();
    lemma_trio_as_set(game, first);
    lemma_trio_as_set(game, second);
    let (i1, j1, k1) = trio_positions(first);
    let (i2, j2, k2) = trio_positions(second);
    let theirs = trios_of(game)[second].to_set();
    // Two different increasing triples differ in a position that only the
    // first of them uses.
    let p = if i1 != i2 && i1 != j2 && i1 != k2 {
        i1
    } else if j1 != i2 && j1 != j2 && j1 != k2 {
        j1
    } else {
        k1
    };
    assert(p != i2 && p != j2 && p != k2);
    assert(trios_of(game)[first].to_set().contains(game[p]));
    assert(!theirs.contains(game[p])) by {
        assert(game[p] != game[i2]);
        assert(game[p] != game[j2]);
        assert(game[p] != game[k2]);
    }
}

/// Where a number of the game stands.
proof fn position_of(game: Seq<int>, v: int) -> (p: int)
    requires
        game.to_set().contains(v),
    ensures
        0 <= p < game.len(),
        game[p] == v,
{
    choose|p: int| 0 <= p < game.len() && game[p] == v
}

/// Every three-element subset of a draw of six different numbers is one of
/// its trios: the enumeration omits none.
pub proof fn lemma_trios_omit_none(game: Seq<int>, subset: Set<int>) -> (rank: int)
    requires
        game.len() == 6,
        no_repeats(game),
        subset.finite(),
        subset.len() == 3,
        subset.subset_of(game.to_set()),
    ensures
        0 <= rank < 20,
        trios_of(game)[rank].to_set() == subset,
{
    let a = subset.choose();
    let without_a = subset.remove(a);
    let b = without_a.choose();
    let without_b = without_a.remove(b);
    let c = without_b.choose();
    let without_c = without_b.remove(c);
    assert(without_c.len() == 0);
    assert(subset.contains(a) && subset.contains(b) && subset.contains(c));
    assert(a != b && b != c && a != c);
    assert forall|v: int| subset.contains(v) implies v == a || v == b || v == c by {
        if v != a && v != b && v != c {
            assert(without_c.contains(v));
        }
    }
    let pa = position_of(game, a);
    let pb = position_of(game, b);
    let pc = position_of(game, c);
    assert(pa != pb && pb != pc && pa != pc);
    let i = if pa < pb && pa < pc {
        pa
    } else if pb < pc {
        pb
    } else {
        pc
    };
    let k = if pa > pb && pa > pc {
        pa
    } else if pb > pc {
        pb
    } else {
        pc
    };
    let j = pa + pb + pc - i - k;
    assert(0 <= i < j < k < 6);
    lemma_ranks_match_positions();
    let rank = rank_of(i, j, k);
    lemma_trio_as_set(game, rank);
    assert(trios_of(game)[rank].to_set() =~= subset);
    rank
}

/// The trios of a draw of six different numbers are exactly its
/// three-element subsets: there are twenty of them, each holds three
/// different numbers of the draw, no two hold the same three, and every
/// three-element subset of the draw is among them.
pub proof fn lemma_trios_enumerate_the_subsets(game: Seq<int>)
    requires
        game.len() == 6,
        no_repeats(game),
    ensures
        trios_of(game).len() == 20,
        forall|rank: int|
            0 <= rank < 20 ==> {
                let trio = #[trigger] trios_of(game)[rank];
                &&& trio.len() == 3
                &&& trio.to_set().finite()
                &&& trio.to_set().len() == 3
                &&& trio.to_set().subset_of(game.to_set())
            },
        forall|first: int, second: int|
            0 <= first < second < 20 ==> (#[trigger] trios_of(game)[first]).to_set() != (
            #[trigger] trios_of(game)[second]).to_set(),
        forall|subset: Set<int>|
            subset.finite() && subset.len() == 3 && #[trigger] subset.subset_of(game.to_set())
                ==> exists|rank: int|
                0 <= rank < 20 && (#[trigger] trios_of(game)[rank]).to_set() == subset,
{
    lemma_trios_are_subsets(game);
    assert forall|first: int, second: int| 0 <= first < second < 20 implies (
    #[trigger] trios_of(game)[first]).to_set() != (#[trigger] trios_of(game)[second]).to_set() by {
        lemma_trios_differ(game, first, second);
    }
    assert forall|subset: Set<int>|
        subset.finite() && subset.len() == 3 && #[trigger] subset.subset_of(
            game.to_set(),
        ) implies exists|rank: int|
        0 <= rank < 20 && (#[trigger] trios_of(game)[rank]).to_set() == subset by {
        let rank = lemma_trios_omit_none(game, subset);
        assert(trios_of(game)[rank].to_set() == subset);
    }
}

/// The twenty trios of a game of six numbers, in the order of their
/// positions: every choice of three positions once, none twice.
pub fn generate_trios(game: &[i64]) -> (trios: Vec<[i64; 3]>)
    requires
        game@.len() == 6,
    ensures
        as_trios(trios@) == trios_of(as_ints(game@)),
        trios@.len() == TRIOS_PER_DRAW,
{
    let ghost numbers = as_ints(game@);
    let mut trios: Vec<[i64; 3]> = Vec::new();
    let mut i: usize = 0;
    while i < 4
        invariant
            i <= 4,
            game@.len() == 6,
            numbers == as_ints(game@),
            trios@.len() == first_rank(i as int, i as int + 1),
            forall|t: int| 0 <= t < trios@.len() ==> as_ints(#[trigger] trios@[t]@) == trio_at(numbers, t),
        decreases 4 - i,
    {
        let mut j: usize = i + 1;
        while j < 5
            invariant
                i < 4,
                i < j <= 5,
                game@.len() == 6,
                numbers == as_ints(game@),
                trios@.len() == first_rank(i as int, j as int),
                forall|t: int|
                    0 <= t < trios@.len() ==> as_ints(#[trigger] trios@[t]@) == trio_at(numbers, t),
            decreases 5 - j,
        {
            let mut k: usize = j + 1;
            while k < 6
                invariant
                    i < j < 5,
                    j < k <= 6,
                    game@.len() == 6,
                    numbers == as_ints(game@),
                    trios@.len() == rank_of(i as int, j as int, k as int),
                    forall|t: int|
                        0 <= t < trios@.len() ==> as_ints(#[trigger] trios@[t]@) == trio_at(
                            numbers,
                            t,
                        ),
                decreases 6 - k,
            {
                let trio = [game[i], game[j], game[k]];
                proof {
                    lemma_ranks_match_positions();
                    let rank = rank_of(i as int, j as int, k as int);
                    assert(trio_positions(rank) == (i as int, j as int, k as int));
                    assert(as_ints(trio@) =~= trio_at(numbers, rank));
                }
                trios.push(trio);
                k += 1;
            }
            j += 1;
        }
        i += 1;
    }
    proof {
        assert(as_trios(trios@) =~= trios_of(numbers));
    }
    trios
}

/// The numbers of a complete record are those of its slots, and none of
/// them repeats if the record is distinct.
proof fn lemma_slot_order(candidate: Seq<Option<int>>)
    requires
        is_complete(candidate),
    ensures
        in_slot_order(candidate).to_set() == numbers(candidate),
        is_distinct(candidate) ==> no_repeats(in_slot_order(candidate)),
{
    let game = in_slot_order(candidate);
    assert forall|v: int| game.to_set().contains(v) == numbers(candidate).contains(v) by {
        if game.to_set().contains(v) {
            let i = choose|i: int| 0 <= i < game.len() && game[i] == v;
            assert(candidate[i] == Some(v));
        }
        if numbers(candidate).contains(v) {
            let i = choose|i: int| 0 <= i < candidate.len() && candidate[i] == Some(v);
            assert(game[i] == v);
        }
    }
    assert(game.to_set() =~= numbers(candidate));
    if is_distinct(candidate) {
        assert forall|i: int, j: int| 0 <= i < j < game.len() implies game[i] != game[j] by {
            assert(candidate[i] != candidate[j]);
        }
    }
}

/// A draw of six different numbers repeats a trio of the history exactly
/// when it shares three or more numbers with one past draw.
pub proof fn lemma_repeated_trio_is_overlap_of_three(
    candidate: Seq<Option<int>>,
    history: Seq<Seq<Option<int>>>,
)
    requires
        candidate.len() == 6,
        is_complete(candidate),
        is_distinct(candidate),
    ensures
        any_trio_repeated(trios_of(in_slot_order(candidate)), history) <==> blocked(
            candidate,
            history,
            3,
        ),
{
    let game = in_slot_order(candidate);
    let trios = trios_of(game);
    lemma_slot_order(candidate);
    lemma_trios_are_subsets(game);
    lemma_numbers_finite(candidate);
    if any_trio_repeated(trios, history) {
        let (t, h) = choose|t: int, h: int|
            #![trigger trios[t], history[h]]
            0 <= t < trios.len() && 0 <= h < history.len() && holds_trio(history[h], trios[t]);
        let shared = numbers(candidate).intersect(numbers(history[h]));
        lemma_numbers_finite(history[h]);
        assert(trios[t].to_set().subset_of(shared));
        vstd::set_lib::lemma_len_subset(trios[t].to_set(), shared);
        assert(overlap(candidate, history[h]) >= 3);
    }
    if blocked(candidate, history, 3) {
        let h = choose|h: int|
            0 <= h < history.len() && #[trigger] overlap(candidate, history[h]) >= 3;
        let shared = numbers(candidate).intersect(numbers(history[h]));
        let a = shared.choose();
        let without_a = shared.remove(a);
        let b = without_a.choose();
        let without_b = without_a.remove(b);
        let c = without_b.choose();
        assert(shared.contains(a) && without_a.contains(b) && without_b.contains(c));
        let three = set![a, b, c];
        assert(three.len() == 3);
        assert(three.subset_of(game.to_set()));
        let rank = lemma_trios_omit_none(game, three);
        assert(holds_trio(history[h], trios[rank]));
    }
}

/// Whether the record holds all three numbers of the trio.
fn record_holds_trio(record: &MegaSena, trio: &[i64; 3]) -> (r: bool)
    ensures
        r == holds_trio(record@, as_ints(trio@)),
{
    let r = record.contains_number(trio[0]) && record.contains_number(trio[1])
        && record.contains_number(trio[2]);
    proof {
        let wanted = as_ints(trio@);
        if r {
            assert forall|v: int| wanted.to_set().contains(v) implies numbers(record@).contains(
                v,
            ) by {
                let p = choose|p: int| 0 <= p < wanted.len() && wanted[p] == v;
                assert(p == 0 || p == 1 || p == 2);
            }
        } else {
            assert(wanted.to_set().contains(wanted[0]));
            assert(wanted.to_set().contains(wanted[1]));
            assert(wanted.to_set().contains(wanted[2]));
        }
    }
    r
}

/// Whether some draw of the history holds all three numbers of the trio.
fn history_holds_trio(history: &Vec<MegaSena>, trio: &[i64; 3]) -> (r: bool)
    ensures
        r == exists|h: int|
            0 <= h < history@.len() && holds_trio(#[trigger] draws(history@)[h], as_ints(trio@)),
{
    let mut h: usize = 0;
    while h < history.len()
        invariant
            h <= history.len(),
            forall|a: int|
                0 <= a < h ==> !holds_trio(#[trigger] draws(history@)[a], as_ints(trio@)),
        decreases history.len() - h,
    {
        if record_holds_trio(&history[h], trio) {
            assert(holds_trio(draws(history@)[h as int], as_ints(trio@)));
            return true;
        }
        h += 1;
    }
    false
}

/// Whether any of the trios appears together in a single draw of the
/// history. The scan stops at the first trio that does.
pub fn has_repeated_trio_by_sets(history: &Vec<MegaSena>, trios: &Vec<[i64; 3]>) -> (r: bool)
    ensures
        r == any_trio_repeated(as_trios(trios@), draws(history@)),
{
    let mut t: usize = 0;
    while t < trios.len()
        invariant
            t <= trios.len(),
            forall|a: int, h: int|
                #![trigger as_trios(trios@)[a], draws(history@)[h]]
                0 <= a < t && 0 <= h < history@.len() ==> !holds_trio(
                    draws(history@)[h],
                    as_trios(trios@)[a],
                ),
        decreases trios.len() - t,
    {
        if history_holds_trio(history, &trios[t]) {
            proof {
                let h = choose|h: int|
                    0 <= h < history@.len() && holds_trio(
                        #[trigger] draws(history@)[h],
                        as_ints(trios@[t as int]@),
                    );
                assert(holds_trio(draws(history@)[h], as_trios(trios@)[t as int]));
            }
            return true;
        }
        assert(forall|h: int|
            0 <= h < history@.len() ==> !holds_trio(
                #[trigger] draws(history@)[h],
                as_trios(trios@)[t as int],
            ));
        t += 1;
    }
    false
}

/// Whether a single draw of the history holds three numbers of the
/// candidate: true exactly when the number set of some past draw is a
/// superset of one of the candidate's twenty trios.
pub fn has_repeated_trio(candidate: &MegaSena, history: &Vec<MegaSena>) -> (r: bool)
    requires
        is_complete(candidate@),
    ensures
        r == any_trio_repeated(trios_of(in_slot_order(candidate@)), draws(history@)),
{
    let game = candidate.numbers_in_order().unwrap();
    assert(as_ints(game@) =~= in_slot_order(candidate@));
    let trios = generate_trios(game.as_slice());
    has_repeated_trio_by_sets(history, &trios)
}

} // verus!
