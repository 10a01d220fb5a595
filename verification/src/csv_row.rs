//! One row of the file of historical draws: which rows are taken, how a
//! field is cleaned of blanks and quotes, and how its number is read.

use vstd::prelude::*;

verus! {

/// Fields that a row needs: the sequence number, the date and six balls.
pub const FIELDS_PER_ROW: usize = 8;

/// What is cut from both ends of a field, one kind at a time.
#[derive(Debug, Clone, Copy, PartialEq, Eq, Structural)]
pub enum Trim {
    /// Unicode white space.
    Blank,
    /// The apostrophe.
    SingleQuote,
    /// The quotation mark.
    DoubleQuote,
}

/// Whether a character is white space, as Unicode defines it.
pub open spec fn is_blank(c: char) -> bool {
    let code = c as int;
    ||| 0x09 <= code <= 0x0d
    ||| code == 0x20
    ||| code == 0x85
    ||| code == 0xa0
    ||| code == 0x1680
    ||| 0x2000 <= code <= 0x200a
    ||| code == 0x2028
    ||| code == 0x2029
    ||| code == 0x202f
    ||| code == 0x205f
    ||| code == 0x3000
}

/// Whether a trim of this kind cuts the character.
pub open spec fn cuts(kind: Trim, c: char) -> bool {
    match kind {
        Trim::Blank => is_blank(c),
        Trim::SingleQuote => c == '\'',
        Trim::DoubleQuote => c == '"',
    }
}

/// The text without the characters that the trim cuts from its start.
pub open spec fn without_leading(s: Seq<char>, kind: Trim) -> Seq<char>
    decreases s.len(),
{
    if s.len() > 0 && cuts(kind, s.first()) {
        without_leading(s.drop_first(), kind)
    } else {
        s
    }
}

/// The text without the characters that the trim cuts from its end.
pub open spec fn without_trailing(s: Seq<char>, kind: Trim) -> Seq<char>
    decreases s.len(),
{
    if s.len() > 0 && cuts(kind, s.last()) {
        without_trailing(s.drop_last(), kind)
    } else {
        s
    }
}

/// The text trimmed at both ends.
pub open spec fn trimmed(s: Seq<char>, kind: Trim) -> Seq<char> {
    without_trailing(without_leading(s, kind), kind)
}

/// A field cleaned for reading: blanks are cut, then apostrophes, then
/// quotation marks, then blanks once more.
pub open spec fn cleaned(field: Seq<char>) -> Seq<char> {
    trimmed(
        trimmed(trimmed(trimmed(field, Trim::Blank), Trim::SingleQuote), Trim::DoubleQuote),
        Trim::Blank,
    )
}

/// Whether a character is a decimal digit.
pub open spec fn is_digit(c: char) -> bool {
    0x30 <= c as int <= 0x39
}

/// Whether the text is made of decimal digits only.
pub open spec fn all_digits(s: Seq<char>) -> bool {
    forall|i: int| 0 <= i < s.len() ==> is_digit(#[trigger] s[i])
}

/// The number that a run of decimal digits stands for.
pub open spec fn digits_value(s: Seq<char>) -> int
    decreases s.len(),
{
    if s.len() == 0 {
        0
    } else {
        10 * digits_value(s.drop_last()) + (s.last() as int - 0x30)
    }
}

/// The integer that a text stands for: an optional sign, then one or more
/// decimal digits, with a value that a 64-bit signed integer can hold.
/// Any other text stands for none.
pub open spec fn integer_of(s: Seq<char>) -> Option<int> {
    let negative = s.len() > 0 && s[0] == '-';
    let signed = s.len() > 0 && (s[0] == '-' || s[0] == '+');
    let body = if signed {
        s.drop_first()
    } else {
        s
    };
    let value = if negative {
        -digits_value(body)
    } else {
        digits_value(body)
    };
    if body.len() > 0 && all_digits(body) && i64::MIN <= value <= i64::MAX {
        Some(value)
    } else {
        None
    }
}

/// Whether a character is white space.
pub fn is_blank_char(c: char) -> (r: bool)
    ensures
        r == is_blank(c),
{
    let code = c as u32;
    (0x09 <= code && code <= 0x0d) || code == 0x20 || code == 0x85 || code == 0xa0 || code
        == 0x1680 || (0x2000 <= code && code <= 0x200a) || code == 0x2028 || code == 0x2029
        || code == 0x202f || code == 0x205f || code == 0x3000
}

/// Whether a trim of this kind cuts the character.
fn is_cut(kind: Trim, c: char) -> (r: bool)
    ensures
        r == cuts(kind, c),
{
    match kind {
        Trim::Blank => is_blank_char(c),
        Trim::SingleQuote => c == '\'',
        Trim::DoubleQuote => c == '"',
    }
}

/// The characters of a text.
fn chars_of(text: &str) -> (chars: Vec<char>)
    ensures
        chars@ == text@,
{
    let n = text.unicode_len();
    let mut chars: Vec<char> = Vec::new();
    let mut i: usize = 0;
    while i < n
        invariant
            i <= n,
            n == text@.len(),
            chars@ == text@.take(i as int),
        decreases n - i,
    {
        chars.push(text.get_char(i));
        assert(chars@ =~= text@.take(i as int + 1));
        i += 1;
    }
    assert(text@.take(n as int) =~= text@);
    chars
}

/// Trims the part of `chars` from `from` up to `to`, and says where what is
/// left starts and ends.
fn trim_between(chars: &Vec<char>, from: usize, to: usize, kind: Trim) -> (kept: (usize, usize))
    requires
        from <= to <= chars@.len(),
    ensures
        from <= kept.0 <= kept.1 <= to,
        chars@.subrange(kept.0 as int, kept.1 as int) == trimmed(
            chars@.subrange(from as int, to as int),
            kind,
        ),
{
    let mut start = from;
    while start < to && is_cut(kind, chars[start])
        invariant
            from <= start <= to <= chars@.len(),
            without_leading(chars@.subrange(from as int, to as int), kind) == without_leading(
                chars@.subrange(start as int, to as int),
                kind,
            ),
        decreases to - start,
    {
        assert(chars@.subrange(start as int, to as int).drop_first() =~= chars@.subrange(
            start as int + 1,
            to as int,
        ));
        start += 1;
    }
    let mut end = to;
    while start < end && is_cut(kind, chars[end - 1])
        invariant
            start <= end <= to <= chars@.len(),
            without_trailing(chars@.subrange(start as int, to as int), kind) == without_trailing(
                chars@.subrange(start as int, end as int),
                kind,
            ),
        decreases end - start,
    {
        assert(chars@.subrange(start as int, end as int).drop_last() =~= chars@.subrange(
            start as int,
            end as int - 1,
        ));
        end -= 1;
    }
    (start, end)
}

/// Where the cleaned field starts and ends within `chars`.
fn clean_between(chars: &Vec<char>) -> (kept: (usize, usize))
    ensures
        kept.0 <= kept.1 <= chars@.len(),
        chars@.subrange(kept.0 as int, kept.1 as int) == cleaned(chars@),
{
    assert(chars@.subrange(0, chars@.len() as int) =~= chars@);
    let (a, b) = trim_between(chars, 0, chars.len(), Trim::Blank);
    let (a, b) = trim_between(chars, a, b, Trim::SingleQuote);
    let (a, b) = trim_between(chars, a, b, Trim::DoubleQuote);
    trim_between(chars, a, b, Trim::Blank)
}

/// A field cleaned of the blanks and quotes around it.
pub fn strip_quotes(field: &str) -> (r: String)
    ensures
        r@ == cleaned(field@),
{
    let chars = chars_of(field);
    let (a, b) = clean_between(&chars);
    String::from_str(field.substring_char(a, b))
}

/// More digits never make a smaller number.
proof fn lemma_digits_grow(s: Seq<char>, k: int)
    requires
        all_digits(s),
        0 <= k <= s.len(),
    ensures
        0 <= digits_value(s.take(k)) <= digits_value(s),
    decreases s.len() - k,
{
    if k == s.len() {
        assert(s.take(k) =~= s);
        lemma_digits_not_negative(s);
    } else {
        lemma_digits_grow(s, k + 1);
        assert(s.take(k + 1).drop_last() =~= s.take(k));
        assert(is_digit(s[k]));
        lemma_digits_not_negative(s.take(k));
    }
}

/// A run of digits stands for no negative number.
proof fn lemma_digits_not_negative(s: Seq<char>)
    requires
        all_digits(s),
    ensures
        0 <= digits_value(s),
    decreases s.len(),
{
    if s.len() > 0 {
        assert(is_digit(s.last()));
        lemma_digits_not_negative(s.drop_last());
    }
}

/// The value of a decimal digit; none for any other character.
fn digit_value(c: char) -> (r: Option<i128>)
    ensures
        r is Some <==> is_digit(c),
        r matches Some(d) ==> d == c as int - 0x30,
{
    let code = c as u32;
    if 0x30 <= code && code <= 0x39 {
        Some((code - 0x30) as i128)
    } else {
        None
    }
}

/// Reads the integer that the part of `chars` from `from` up to `to`
/// stands for.
#[verifier::loop_isolation(false)]
fn integer_between(chars: &Vec<char>, from: usize, to: usize) -> (r: Option<i64>)
    requires
        from <= to <= chars@.len(),
    ensures
        crate::draw::slot_value(r) == integer_of(chars@.subrange(from as int, to as int)),
{
    let ghost text = chars@.subrange(from as int, to as int);
    if from == to {
        return None;
    }
    let negative = chars[from] == '-';
    let signed = negative || chars[from] == '+';
    let start = if signed {
        from + 1
    } else {
        from
    };
    let ghost body = chars@.subrange(start as int, to as int);
    proof {
        assert(text[0] == chars@[from as int]);
        if signed {
            assert(text.drop_first() =~= body);
        } else {
            assert(text =~= body);
        }
    }
    if start == to {
        return None;
    }
    let limit: i128 = 0x8000_0000_0000_0000;
    let mut value: i128 = 0;
    let mut i: usize = start;
    assert(body.take(0) =~= Seq::<char>::empty());
    while i < to
        invariant
            start <= i <= to <= chars@.len(),
            body == chars@.subrange(start as int, to as int),
            limit == 0x8000_0000_0000_0000,
            all_digits(body.take(i - start)),
            value == digits_value(body.take(i - start)),
            0 <= value <= limit,
        decreases to - i,
    {
        let c = chars[i];
        assert(body[i - start] == c);
        let digit = match digit_value(c) {
            Some(digit) => digit,
            None => {
                assert(!is_digit(body[i - start]));
                return None;
            },
        };
        let next = value * 10 + digit;
        proof {
            let longer = body.take(i - start + 1);
            assert(longer.drop_last() =~= body.take(i - start));
            assert(longer.last() == c);
            assert(next == digits_value(longer));
            assert forall|k: int| 0 <= k < longer.len() implies is_digit(#[trigger] longer[k]) by {
                if k < i - start {
                    assert(body.take(i - start)[k] == longer[k]);
                }
            }
        }
        if next > limit {
            proof {
                if all_digits(body) {
                    lemma_digits_grow(body, i - start + 1);
                }
            }
            return None;
        }
        value = next;
        i += 1;
    }
    assert(body.take(to - start) =~= body);
    if negative {
        Some((-value) as i64)
    } else if value == limit {
        None
    } else {
        Some(value as i64)
    }
}

/// Reads the integer that a text stands for.
pub fn read_integer(text: &str) -> (r: Option<i64>)
    ensures
        crate::draw::slot_value(r) == integer_of(text@),
{
    let chars = chars_of(text);
    assert(chars@.subrange(0, chars@.len() as int) =~= chars@);
    integer_between(&chars, 0, chars.len())
}

/// Reads the integer of a field, once it is cleaned of blanks and quotes.
pub fn read_number_field(field: &str) -> (r: Option<i64>)
    ensures
        crate::draw::slot_value(r) == integer_of(cleaned(field@)),
{
    let chars = chars_of(field);
    let (a, b) = clean_between(&chars);
    integer_between(&chars, a, b)
}

/// One draw of the file, as mathematical values.
pub struct RowView {
    pub concurso: int,
    pub data: Seq<char>,
    pub balls: Seq<int>,
}

/// What a row of the file amounts to.
pub enum RowReading {
    /// Too few fields: the row is passed over.
    Skipped,
    /// The row holds a draw.
    Draw(RowView),
    /// The field in this column, counted from zero, is no integer.
    Invalid { column: int },
}

/// The texts of the fields of a row.
pub open spec fn texts(fields: Seq<String>) -> Seq<Seq<char>> {
    Seq::new(fields.len(), |i: int| fields[i]@)
}

/// The number in a column of the row, if its field holds one.
pub open spec fn number_in(fields: Seq<Seq<char>>, column: int) -> Option<int> {
    integer_of(cleaned(fields[column]))
}

/// What a row amounts to. A row of fewer than eight fields is passed over.
/// Of any other row the first eight fields are read: the sequence number,
/// the date, and six balls, each cleaned of blanks and quotes. The row is
/// invalid in the first of its numbers, from the left, that is no integer.
pub open spec fn reading_of(fields: Seq<Seq<char>>) -> RowReading {
    if fields.len() < FIELDS_PER_ROW {
        RowReading::Skipped
    } else if number_in(fields, 0) is None {
        RowReading::Invalid { column: 0 }
    } else if number_in(fields, 2) is None {
        RowReading::Invalid { column: 2 }
    } else if number_in(fields, 3) is None {
        RowReading::Invalid { column: 3 }
    } else if number_in(fields, 4) is None {
        RowReading::Invalid { column: 4 }
    } else if number_in(fields, 5) is None {
        RowReading::Invalid { column: 5 }
    } else if number_in(fields, 6) is None {
        RowReading::Invalid { column: 6 }
    } else if number_in(fields, 7) is None {
        RowReading::Invalid { column: 7 }
    } else {
        RowReading::Draw(
            RowView {
                concurso: number_in(fields, 0)->Some_0,
                data: cleaned(fields[1]),
                balls: seq![
                    number_in(fields, 2)->Some_0,
                    number_in(fields, 3)->Some_0,
                    number_in(fields, 4)->Some_0,
                    number_in(fields, 5)->Some_0,
                    number_in(fields, 6)->Some_0,
                    number_in(fields, 7)->Some_0,
                ],
            },
        )
    }
}

/// One draw as the file gives it.
#[derive(Debug, Clone, PartialEq, Eq)]
pub struct CsvDraw {
    pub concurso: i64,
    pub data: String,
    pub bola_1: i64,
    pub bola_2: i64,
    pub bola_3: i64,
    pub bola_4: i64,
    pub bola_5: i64,
    pub bola_6: i64,
}

impl View for CsvDraw {
    type V = RowView;

    open spec fn view(&self) -> RowView {
        RowView {
            concurso: self.concurso as int,
            data: self.data@,
            balls: seq![
                self.bola_1 as int,
                self.bola_2 as int,
                self.bola_3 as int,
                self.bola_4 as int,
                self.bola_5 as int,
                self.bola_6 as int,
            ],
        }
    }
}

/// Why a row could not be read.
#[derive(Debug, Clone, Copy, PartialEq, Eq, Structural)]
pub enum RowError {
    /// The field in this column, counted from zero, is no integer.
    InvalidNumber { column: usize },
}

/// What the result of reading a row amounts to.
pub open spec fn reading(result: Result<Option<CsvDraw>, RowError>) -> RowReading {
    match result {
        Ok(None) => RowReading::Skipped,
        Ok(Some(draw)) => RowReading::Draw(draw@),
        Err(RowError::InvalidNumber { column }) => RowReading::Invalid { column: column as int },
    }
}

/// Reads the number in a column of the row.
fn read_column(fields: &Vec<String>, column: usize) -> (r: Result<i64, RowError>)
    requires
        column < fields@.len(),
    ensures
        match r {
            Ok(n) => number_in(texts(fields@), column as int) == Some(n as int),
            Err(e) => number_in(texts(fields@), column as int) is None && e == (
            RowError::InvalidNumber { column }),
        },
{
    match read_number_field(fields[column].as_str()) {
        Some(n) => Ok(n),
        None => Err(RowError::InvalidNumber { column }),
    }
}

/// Reads one row of the file. A row of fewer than eight fields is passed
/// over. Of any other row the first eight fields are read: the sequence
/// number, the date, and six balls, each cleaned of blanks and quotes. The
/// row fails on the first of its numbers, from the left, that is no
/// integer.
pub fn read_row(fields: &Vec<String>) -> (r: Result<Option<CsvDraw>, RowError>)
    ensures
        reading(r) == reading_of(texts(fields@)),
{
    if fields.len() < FIELDS_PER_ROW {
        return Ok(None);
    }
    let concurso = match read_column(fields, 0) {
        Ok(n) => n,
        Err(e) => {
            return Err(e);
        },
    };
    let data = strip_quotes(fields[1].as_str());
    let bola_1 = match read_column(fields, 2) {
        Ok(n) => n,
        Err(e) => {
            return Err(e);
        },
    };
    let bola_2 = match read_column(fields, 3) {
        Ok(n) => n,
        Err(e) => {
            return Err(e);
        },
    };
    let bola_3 = match read_column(fields, 4) {
        Ok(n) => n,
        Err(e) => {
            return Err(e);
        },
    };
    let bola_4 = match read_column(fields, 5) {
        Ok(n) => n,
        Err(e) => {
            return Err(e);
        },
    };
    let bola_5 = match read_column(fields, 6) {
        Ok(n) => n,
        Err(e) => {
            return Err(e);
        },
    };
    let bola_6 = match read_column(fields, 7) {
        Ok(n) => n,
        Err(e) => {
            return Err(e);
        },
    };
    let draw = CsvDraw { concurso, data, bola_1, bola_2, bola_3, bola_4, bola_5, bola_6 };
    proof {
        let wanted = reading_of(texts(fields@));
        assert(wanted is Draw);
        assert(draw@.balls =~= wanted->Draw_0.balls);
    }
    Ok(Some(draw))
}

} // verus!
