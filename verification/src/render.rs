//! How a draw reads as text: its six numbers in decimal, in the order of
//! the slots, between square brackets.

use crate::draw::MegaSena;
use crate::historico::HistoricoMegaSena;
use vstd::prelude::*;

verus! {

/// The number that stands for an empty slot in the text of a draw.
pub const MISSING_BALL_MARK: i64 = 99;

/// The character of one decimal digit.
pub open spec fn digit_char(d: int) -> char {
    if d == 0 {
        '0'
    } else if d == 1 {
        '1'
    } else if d == 2 {
        '2'
    } else if d == 3 {
        '3'
    } else if d == 4 {
        '4'
    } else if d == 5 {
        '5'
    } else if d == 6 {
        '6'
    } else if d == 7 {
        '7'
    } else if d == 8 {
        '8'
    } else {
        '9'
    }
}

/// The decimal digits of a natural number, without leading zeros.
pub open spec fn decimal_digits(n: nat) -> Seq<char>
    decreases n,
{
    if n < 10 {
        seq![digit_char(n as int)]
    } else {
        decimal_digits(n / 10).push(digit_char((n % 10) as int))
    }
}

/// An integer in decimal, with a minus sign in front if it is negative.
pub open spec fn decimal(n: int) -> Seq<char> {
    if n < 0 {
        seq!['-'] + decimal_digits((-n) as nat)
    } else {
        decimal_digits(n as nat)
    }
}

/// The text of one slot: its number, or the mark of an empty slot.
pub open spec fn slot_text(slot: Option<int>) -> Seq<char> {
    match slot {
        Some(v) => decimal(v),
        None => decimal(MISSING_BALL_MARK as int),
    }
}

/// The text of a record of six slots.
pub open spec fn draw_text(balls: Seq<Option<int>>) -> Seq<char> {
    seq!['['] + slot_text(balls[0]) + seq![',', ' '] + slot_text(balls[1]) + seq![',', ' ']
        + slot_text(balls[2]) + seq![',', ' '] + slot_text(balls[3]) + seq![',', ' '] + slot_text(
        balls[4],
    ) + seq![',', ' '] + slot_text(balls[5]) + seq![']']
}

/// One decimal digit as text.
fn digit_text(d: u64) -> (r: &'static str)
    requires
        d < 10,
    ensures
        r@ == seq![digit_char(d as int)],
{
    proof {
        reveal_strlit("0");
        reveal_strlit("1");
        reveal_strlit("2");
        reveal_strlit("3");
        reveal_strlit("4");
        reveal_strlit("5");
        reveal_strlit("6");
        reveal_strlit("7");
        reveal_strlit("8");
        reveal_strlit("9");
    }
    let r = if d == 0 {
        "0"
    } else if d == 1 {
        "1"
    } else if d == 2 {
        "2"
    } else if d == 3 {
        "3"
    } else if d == 4 {
        "4"
    } else if d == 5 {
        "5"
    } else if d == 6 {
        "6"
    } else if d == 7 {
        "7"
    } else if d == 8 {
        "8"
    } else {
        "9"
    };
    assert(r@ =~= seq![digit_char(d as int)]);
    r
}

/// Appends the decimal digits of `n` to `out`.
fn push_digits(out: &mut String, n: u64)
    ensures
        final(out)@ == old(out)@ + decimal_digits(n as nat),
    decreases n,
{
    if n >= 10 {
        push_digits(out, n / 10);
    }
    out.append(digit_text(n % 10));
    proof {
        if n >= 10 {
            assert(out@ =~= old(out)@ + decimal_digits(n as nat));
        }
    }
}

/// Appends `n` in decimal to `out`.
fn push_decimal(out: &mut String, n: i64)
    ensures
        final(out)@ == old(out)@ + decimal(n as int),
{
    if n < 0 {
        proof {
            reveal_strlit("-");
        }
        out.append("-");
        let magnitude = (-(n as i128)) as u64;
        push_digits(out, magnitude);
        assert(out@ =~= old(out)@ + decimal(n as int));
    } else {
        push_digits(out, n as u64);
    }
}

/// Appends the text of one slot to `out`.
fn push_slot(out: &mut String, slot: Option<i64>)
    ensures
        final(out)@ == old(out)@ + slot_text(crate::draw::slot_value(slot)),
{
    match slot {
        Some(v) => push_decimal(out, v),
        None => push_decimal(out, MISSING_BALL_MARK),
    }
}

/// An integer in decimal.
pub fn decimal_text(n: i64) -> (r: String)
    ensures
        r@ == decimal(n as int),
{
    let mut out = String::new();
    push_decimal(&mut out, n);
    assert(out@ =~= decimal(n as int));
    out
}

/// The text of six slots.
fn text_of_slots(slots: &[Option<i64>; 6]) -> (r: String)
    ensures
        r@ == draw_text(crate::draw::model(slots@)),
{
    proof {
        reveal_strlit("[");
        reveal_strlit(", ");
        reveal_strlit("]");
    }
    let mut out = String::new();
    out.append("[");
    push_slot(&mut out, slots[0]);
    out.append(", ");
    push_slot(&mut out, slots[1]);
    out.append(", ");
    push_slot(&mut out, slots[2]);
    out.append(", ");
    push_slot(&mut out, slots[3]);
    out.append(", ");
    push_slot(&mut out, slots[4]);
    out.append(", ");
    push_slot(&mut out, slots[5]);
    out.append("]");
    proof {
        assert("["@ =~= seq!['[']);
        assert(", "@ =~= seq![',', ' ']);
        assert("]"@ =~= seq![']']);
        assert(out@ =~= draw_text(crate::draw::model(slots@)));
    }
    out
}

impl MegaSena {
    /// The draw as text: its numbers between square brackets, separated by
    /// a comma and a space, with 99 in place of a missing ball.
    pub fn to_string(&self) -> (r: String)
        ensures
            r@ == draw_text(self@),
    {
        text_of_slots(&self.slots())
    }
}

impl HistoricoMegaSena {
    /// The draw as text: its numbers between square brackets, separated by
    /// a comma and a space, with 99 in place of a missing ball.
    pub fn to_string(&self) -> (r: String)
        ensures
            r@ == draw_text(self@),
    {
        let slots = [self.bola_1, self.bola_2, self.bola_3, self.bola_4, self.bola_5, self.bola_6];
        assert(crate::draw::model(slots@) =~= self@);
        text_of_slots(&slots)
    }
}

} // verus!
