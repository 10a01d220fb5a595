//! The draw record and its mathematical model.
//!
//! A record keeps its six ball slots as the single source of truth. The set
//! of numbers that the filters work on is derived from the slots whenever it
//! is needed, so the two can never disagree.

use vstd::prelude::*;

verus! {

/// Smallest number that may be drawn.
pub const LOWEST_NUMBER: i64 = 1;

/// Largest number that may be drawn.
pub const HIGHEST_NUMBER: i64 = 60;

/// Ball slots of one record.
pub const SLOTS: usize = 6;

/// Whether `n` may appear on a ticket.
pub open spec fn in_play(n: int) -> bool {
    LOWEST_NUMBER <= n <= HIGHEST_NUMBER
}

/// One slot as a mathematical integer, if it is filled.
pub open spec fn slot_value(slot: Option<i64>) -> Option<int> {
    match slot {
        Some(v) => Some(v as int),
        None => None,
    }
}

/// The slots of a record as mathematical integers.
pub open spec fn model(slots: Seq<Option<i64>>) -> Seq<Option<int>> {
    Seq::new(slots.len(), |i: int| slot_value(slots[i]))
}

/// The numbers that occur in at least one filled slot.
pub open spec fn numbers(balls: Seq<Option<int>>) -> Set<int> {
    Set::new(|v: int| balls.contains(Some(v)))
}

/// Every slot is filled.
pub open spec fn is_complete(balls: Seq<Option<int>>) -> bool {
    forall|i: int| 0 <= i < balls.len() ==> (#[trigger] balls[i]) is Some
}

/// No number fills two slots.
pub open spec fn is_distinct(balls: Seq<Option<int>>) -> bool {
    forall|i: int, j: int|
        0 <= i < j < balls.len() && balls[i] is Some ==> #[trigger] balls[i] != #[trigger] balls[j]
}

/// Every filled slot holds a number that may be drawn.
pub open spec fn is_in_range(balls: Seq<Option<int>>) -> bool {
    forall|i: int|
        0 <= i < balls.len() ==> ((#[trigger] balls[i]) matches Some(v) ==> in_play(v))
}

/// Filled slots never decrease from left to right.
pub open spec fn is_ascending(balls: Seq<Option<int>>) -> bool {
    forall|i: int, j: int|
        0 <= i < j < balls.len() ==> ((#[trigger] balls[i]) matches Some(a) ==> ((
        #[trigger] balls[j]) matches Some(b) ==> a < b))
}

/// A playable draw: six slots, all filled, with six different numbers
/// between one and sixty.
pub open spec fn is_valid_draw(balls: Seq<Option<int>>) -> bool {
    &&& balls.len() == SLOTS
    &&& is_complete(balls)
    &&& is_distinct(balls)
    &&& is_in_range(balls)
}

/// What a slot adds to the sum of its record: its number, or nothing.
pub open spec fn slot_weight(slot: Option<int>) -> int {
    match slot {
        Some(v) => v,
        None => 0,
    }
}

/// Sum of the filled slots; an empty slot counts as zero.
pub open spec fn ball_sum(balls: Seq<Option<int>>) -> int
    decreases balls.len(),
{
    if balls.len() == 0 {
        0
    } else {
        ball_sum(balls.drop_last()) + slot_weight(balls.last())
    }
}

/// At least one slot is filled.
pub open spec fn has_number(balls: Seq<Option<int>>) -> bool {
    exists|i: int| 0 <= i < balls.len() && (#[trigger] balls[i]) is Some
}

/// The sum of six slots, written out.
pub proof fn lemma_ball_sum_of_six(balls: Seq<Option<int>>)
    requires
        balls.len() == 6,
    ensures
        ball_sum(balls) == slot_weight(balls[0]) + slot_weight(balls[1]) + slot_weight(balls[2])
            + slot_weight(balls[3]) + slot_weight(balls[4]) + slot_weight(balls[5]),
{
    let b5 = balls.drop_last();
    let b4 = b5.drop_last();
    let b3 = b4.drop_last();
    let b2 = b3.drop_last();
    let b1 = b2.drop_last();
    let b0 = b1.drop_last();
    assert(ball_sum(b0) == 0);
    assert(ball_sum(b1) == ball_sum(b0) + slot_weight(balls[0]));
    assert(ball_sum(b2) == ball_sum(b1) + slot_weight(balls[1]));
    assert(ball_sum(b3) == ball_sum(b2) + slot_weight(balls[2]));
    assert(ball_sum(b4) == ball_sum(b3) + slot_weight(balls[3]));
    assert(ball_sum(b5) == ball_sum(b4) + slot_weight(balls[4]));
}

/// Filling one more slot adds at most its number to the set.
pub proof fn lemma_numbers_step(balls: Seq<Option<int>>, k: int)
    requires
        0 <= k < balls.len(),
    ensures
        numbers(balls.take(k + 1)) == match balls[k] {
            Some(v) => numbers(balls.take(k)).insert(v),
            None => numbers(balls.take(k)),
        },
{
    let shorter = balls.take(k);
    let longer = balls.take(k + 1);
    let expected = match balls[k] {
        Some(v) => numbers(shorter).insert(v),
        None => numbers(shorter),
    };
    assert forall|v: int| numbers(longer).contains(v) == expected.contains(v) by {
        if numbers(longer).contains(v) {
            let i = choose|i: int| 0 <= i < longer.len() && longer[i] == Some(v);
            if i < k {
                assert(shorter[i] == Some(v));
            }
        }
        if expected.contains(v) {
            if numbers(shorter).contains(v) {
                let i = choose|i: int| 0 <= i < shorter.len() && shorter[i] == Some(v);
                assert(longer[i] == Some(v));
            } else {
                assert(longer[k] == Some(v));
            }
        }
    }
    assert(numbers(longer) =~= expected);
}

/// No slots, no numbers.
pub proof fn lemma_numbers_of_none(balls: Seq<Option<int>>)
    requires
        balls.len() == 0,
    ensures
        numbers(balls) == Set::<int>::empty(),
{
    assert(numbers(balls) =~= Set::<int>::empty());
}

/// A record holds finitely many numbers, at most one for each slot.
pub proof fn lemma_numbers_finite(balls: Seq<Option<int>>)
    ensures
        numbers(balls).finite(),
        numbers(balls).len() <= balls.len(),
    decreases balls.len(),
{
    if balls.len() == 0 {
        lemma_numbers_of_none(balls);
    } else {
        let k = balls.len() - 1;
        lemma_numbers_finite(balls.take(k));
        lemma_numbers_step(balls, k);
        assert(balls.take(k + 1) =~= balls);
    }
}

/// A playable draw holds exactly six numbers, each between one and sixty.
pub proof fn lemma_valid_draw_holds_six(balls: Seq<Option<int>>)
    requires
        is_valid_draw(balls),
    ensures
        numbers(balls).finite(),
        numbers(balls).len() == 6,
        forall|v: int| numbers(balls).contains(v) ==> in_play(v),
{
    lemma_numbers_finite(balls);
    lemma_numbers_of_distinct(balls);
    assert forall|v: int| numbers(balls).contains(v) implies in_play(v) by {
        let i = choose|i: int| 0 <= i < balls.len() && balls[i] == Some(v);
        assert(balls[i] matches Some(w) && w == v);
    }
}

/// A complete record without a repeated number holds one number for each
/// slot.
proof fn lemma_numbers_of_distinct(balls: Seq<Option<int>>)
    requires
        is_complete(balls),
        is_distinct(balls),
    ensures
        numbers(balls).len() == balls.len(),
    decreases balls.len(),
{
    if balls.len() == 0 {
        lemma_numbers_of_none(balls);
    } else {
        let k = balls.len() - 1;
        let shorter = balls.take(k);
        lemma_numbers_of_distinct(shorter);
        lemma_numbers_finite(shorter);
        lemma_numbers_step(balls, k);
        assert(balls.take(k + 1) =~= balls);
        let v = balls[k]->Some_0;
        if numbers(shorter).contains(v) {
            let i = choose|i: int| 0 <= i < shorter.len() && shorter[i] == Some(v);
            assert(balls[i] == balls[k]);
        }
    }
}

/// One lottery draw, historical or generated.
#[derive(Debug, Clone, PartialEq, Eq)]
pub struct MegaSena {
    pub id: i64,
    pub concurso: i64,
    pub data: String,
    pub bola_1: Option<i64>,
    pub bola_2: Option<i64>,
    pub bola_3: Option<i64>,
    pub bola_4: Option<i64>,
    pub bola_5: Option<i64>,
    pub bola_6: Option<i64>,
    pub inserted_at: String,
    pub generated_by_rust: bool,
}

impl View for MegaSena {
    type V = Seq<Option<int>>;

    /// The six slots, first to last.
    open spec fn view(&self) -> Seq<Option<int>> {
        seq![
            slot_value(self.bola_1),
            slot_value(self.bola_2),
            slot_value(self.bola_3),
            slot_value(self.bola_4),
            slot_value(self.bola_5),
            slot_value(self.bola_6),
        ]
    }
}

impl MegaSena {
    /// The six slots, first to last.
    pub fn slots(&self) -> (r: [Option<i64>; 6])
        ensures
            model(r@) == self@,
            r@ == seq![
                self.bola_1,
                self.bola_2,
                self.bola_3,
                self.bola_4,
                self.bola_5,
                self.bola_6,
            ],
    {
        let r = [self.bola_1, self.bola_2, self.bola_3, self.bola_4, self.bola_5, self.bola_6];
        assert(r@ =~= seq![
            self.bola_1,
            self.bola_2,
            self.bola_3,
            self.bola_4,
            self.bola_5,
            self.bola_6,
        ]);
        assert(model(r@) =~= self@);
        r
    }

    /// A copy of the record.
    pub fn duplicate(&self) -> (r: Self)
        ensures
            r == *self,
    {
        MegaSena {
            id: self.id,
            concurso: self.concurso,
            data: self.data.clone(),
            bola_1: self.bola_1,
            bola_2: self.bola_2,
            bola_3: self.bola_3,
            bola_4: self.bola_4,
            bola_5: self.bola_5,
            bola_6: self.bola_6,
            inserted_at: self.inserted_at.clone(),
            generated_by_rust: self.generated_by_rust,
        }
    }

    /// The six numbers in the order of their slots, if every slot is filled.
    pub fn numbers_in_order(&self) -> (r: Option<[i64; 6]>)
        ensures
            r is Some <==> is_complete(self@),
            r matches Some(game) ==> self@ == Seq::new(6, |i: int| Some(game@[i] as int)),
    {
        let found = match (
            self.bola_1,
            self.bola_2,
            self.bola_3,
            self.bola_4,
            self.bola_5,
            self.bola_6,
        ) {
            (Some(a), Some(b), Some(c), Some(d), Some(e), Some(f)) => Some([a, b, c, d, e, f]),
            _ => None,
        };
        proof {
            let balls = self@;
            match found {
                Some(game) => {
                    assert(balls =~= Seq::new(6, |i: int| Some(game@[i] as int)));
                },
                None => {
                    assert(balls[0] is None || balls[1] is None || balls[2] is None
                        || balls[3] is None || balls[4] is None || balls[5] is None);
                },
            }
        }
        found
    }

    /// Whether every slot is filled.
    pub fn has_six_numbers(&self) -> (r: bool)
        ensures
            r == is_complete(self@),
    {
        self.numbers_in_order().is_some()
    }

    /// Whether the record is a playable draw: six different numbers between
    /// one and sixty.
    pub fn is_playable(&self) -> (r: bool)
        ensures
            r == is_valid_draw(self@),
    {
        let slots = self.slots();
        let ghost balls = self@;
        let mut i: usize = 0;
        while i < 6
            invariant
                i <= 6,
                balls == self@,
                balls == model(slots@),
                forall|k: int| 0 <= k < i ==> (#[trigger] balls[k]) is Some,
                forall|k: int|
                    0 <= k < i ==> ((#[trigger] balls[k]) matches Some(v) ==> in_play(v)),
                forall|a: int, b: int| 0 <= a < b < i ==> #[trigger] balls[a] != #[trigger] balls[b],
            decreases 6 - i,
        {
            match slots[i] {
                Some(v) => {
                    if !is_in_play(v) {
                        assert(!in_play(balls[i as int]->Some_0));
                        return false;
                    }
                    if occurs_before(&slots, i, v) {
                        proof {
                            let earlier = balls.take(i as int);
                            let a = choose|a: int|
                                0 <= a < earlier.len() && earlier[a] == Some(v as int);
                            assert(balls[a] == balls[i as int]);
                        }
                        return false;
                    }
                    proof {
                        assert forall|a: int| 0 <= a < i implies #[trigger] balls[a]
                            != balls[i as int] by {
                            if balls[a] == balls[i as int] {
                                assert(balls.take(i as int)[a] == Some(v as int));
                                assert(balls.take(i as int).contains(Some(v as int)));
                            }
                        }
                    }
                },
                None => {
                    assert(balls[i as int] is None);
                    return false;
                },
            }
            i += 1;
        }
        true
    }

    /// Sum of the numbers of the record; an empty slot counts as zero.
    pub fn sum(&self) -> (r: i128)
        ensures
            r == ball_sum(self@),
    {
        proof {
            lemma_ball_sum_of_six(self@);
        }
        weight(self.bola_1) + weight(self.bola_2) + weight(self.bola_3) + weight(self.bola_4)
            + weight(self.bola_5) + weight(self.bola_6)
    }

    /// Whether at least one slot is filled.
    pub fn has_any_number(&self) -> (r: bool)
        ensures
            r == has_number(self@),
    {
        let r = self.bola_1.is_some() || self.bola_2.is_some() || self.bola_3.is_some()
            || self.bola_4.is_some() || self.bola_5.is_some() || self.bola_6.is_some();
        proof {
            let balls = self@;
            if r {
                let i = if balls[0] is Some {
                    0int
                } else if balls[1] is Some {
                    1
                } else if balls[2] is Some {
                    2
                } else if balls[3] is Some {
                    3
                } else if balls[4] is Some {
                    4
                } else {
                    5
                };
                assert(balls[i] is Some);
            }
        }
        r
    }

    /// Whether `n` fills one of the slots.
    pub fn contains_number(&self, n: i64) -> (r: bool)
        ensures
            r == numbers(self@).contains(n as int),
    {
        let slots = self.slots();
        assert(self@.take(6) =~= self@);
        occurs_before(&slots, 6, n)
    }
}

/// Whether `n` may appear on a ticket.
pub fn is_in_play(n: i64) -> (r: bool)
    ensures
        r == in_play(n as int),
{
    LOWEST_NUMBER <= n && n <= HIGHEST_NUMBER
}

/// What one slot adds to the sum of its record.
fn weight(slot: Option<i64>) -> (r: i128)
    ensures
        r == slot_weight(slot_value(slot)),
        i64::MIN <= r <= i64::MAX,
{
    match slot {
        Some(v) => v as i128,
        None => 0,
    }
}

/// Whether `n` fills one of the first `upto` slots.
pub(crate) fn occurs_before(slots: &[Option<i64>; 6], upto: usize, n: i64) -> (r: bool)
    requires
        upto <= 6,
    ensures
        r == numbers(model(slots@).take(upto as int)).contains(n as int),
{
    let ghost balls = model(slots@);
    let mut i: usize = 0;
    while i < upto
        invariant
            i <= upto <= 6,
            balls == model(slots@),
            !numbers(balls.take(i as int)).contains(n as int),
        decreases upto - i,
    {
        proof {
            lemma_numbers_step(balls.take(upto as int), i as int);
            assert(balls.take(upto as int).take(i as int) =~= balls.take(i as int));
            assert(balls.take(upto as int).take(i as int + 1) =~= balls.take(i as int + 1));
        }
        match slots[i] {
            Some(v) => {
                if v == n {
                    proof {
                        let whole = balls.take(upto as int);
                        assert(whole[i as int] == Some(n as int));
                    }
                    return true;
                }
            },
            None => {},
        }
        i += 1;
    }
    false
}

} // verus!
