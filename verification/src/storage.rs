//! What is written to the store for an accepted draw: the balls and the
//! origin tag of the draw, under a fresh identifier and the date of the day.

use crate::draw::{is_complete, slot_value, MegaSena};
use vstd::prelude::*;

verus! {

/// Characters of an identifier in its hyphenated form.
pub const IDENTIFIER_LENGTH: usize = 36;

/// One row for the table of draws, ready to be inserted.
#[derive(Debug, Clone, PartialEq, Eq)]
pub struct StoredGame {
    /// The identifier under which the draw is stored.
    pub concurso: String,
    /// The day of storage, as day, month and year.
    pub data: String,
    /// The day of storage, as year, month and day.
    pub data_typesafe: String,
    pub bola_1: Option<i64>,
    pub bola_2: Option<i64>,
    pub bola_3: Option<i64>,
    pub bola_4: Option<i64>,
    pub bola_5: Option<i64>,
    pub bola_6: Option<i64>,
    pub generated_by_rust: bool,
}

impl View for StoredGame {
    type V = Seq<Option<int>>;

    /// The six slots, first to last.
    open spec fn view(&self) -> Seq<Option<int>> {
        seq![
            slot_value(self.bola_1),
            slot_value(self.bola_2),
            slot_value(self.bola_3),
            slot_value(self.bola_4),
            slot_value(self.bola_5),
            slot_value(self.bola_6),
        ]
    }
}

/// A fresh random identifier as text: `uuid::Uuid::new_v4`, written out by
/// the `Display` of `uuid::Uuid`.
///
/// Trusted: the text is the hyphenated form, which has thirty-six
/// characters. Which identifier it is depends on chance.
#[verifier::external_body]
fn fresh_identifier() -> (id: String)
    ensures
        id@.len() == IDENTIFIER_LENGTH,
{
    uuid::Uuid::new_v4().to_string()
}

/// The current local date and time, written out after `pattern`:
/// `chrono::Local::now` and `chrono::DateTime::format`.
///
/// Only the two patterns that the store uses are admitted, both made of
/// specifiers that `chrono` knows. Nothing is claimed of the text, which
/// depends on the clock and on the time zone of the machine.
#[verifier::external_body]
fn local_now_as_text(pattern: &str) -> (text: String)
    requires
        pattern@ == "%d/%m/%Y"@ || pattern@ == "%Y-%m-%d"@,
{
    chrono::Local::now().format(pattern).to_string()
}

/// The current date and time of day in universal time, as text:
/// `chrono::Utc::now`, its `naive_utc`, written out by the `Display` of
/// `chrono::NaiveDateTime`.
///
/// Trusted: nothing is claimed of the text, which depends on the clock.
#[verifier::external_body]
fn utc_now_as_text() -> (text: String) {
    chrono::Utc::now().naive_utc().to_string()
}

/// One row for the table of generated games, ready to be inserted.
#[derive(Debug, Clone, PartialEq, Eq)]
pub struct GeneratedGame {
    pub n1: i64,
    pub n2: i64,
    pub n3: i64,
    pub n4: i64,
    pub n5: i64,
    pub n6: i64,
    /// When the game was generated.
    pub created_at: String,
}

impl View for GeneratedGame {
    type V = Seq<Option<int>>;

    /// The six numbers, first to last.
    open spec fn view(&self) -> Seq<Option<int>> {
        seq![
            Some(self.n1 as int),
            Some(self.n2 as int),
            Some(self.n3 as int),
            Some(self.n4 as int),
            Some(self.n5 as int),
            Some(self.n6 as int),
        ]
    }
}

impl GeneratedGame {
    /// The row for a draw generated at the given time. Only a draw with all
    /// six numbers has one.
    pub fn assemble(mega_sena: &MegaSena, created_at: String) -> (r: Option<Self>)
        ensures
            r is Some <==> is_complete(mega_sena@),
            r matches Some(row) ==> row@ == mega_sena@ && row.created_at == created_at,
    {
        match mega_sena.numbers_in_order() {
            Some(game) => {
                let row = GeneratedGame {
                    n1: game[0],
                    n2: game[1],
                    n3: game[2],
                    n4: game[3],
                    n5: game[4],
                    n6: game[5],
                    created_at,
                };
                assert(row@ =~= mega_sena@);
                Some(row)
            },
            None => None,
        }
    }

    /// The row under which a draw is stored as generated now.
    pub fn prepare(mega_sena: &MegaSena) -> (r: Option<Self>)
        ensures
            r is Some <==> is_complete(mega_sena@),
            r matches Some(row) ==> row@ == mega_sena@,
    {
        GeneratedGame::assemble(mega_sena, utc_now_as_text())
    }
}

impl StoredGame {
    /// The row for a draw, under the given identifier and dates.
    pub fn assemble(
        mega_sena: &MegaSena,
        concurso: String,
        data: String,
        data_typesafe: String,
    ) -> (row: Self)
        ensures
            row.concurso == concurso,
            row.data == data,
            row.data_typesafe == data_typesafe,
            row.bola_1 == mega_sena.bola_1,
            row.bola_2 == mega_sena.bola_2,
            row.bola_3 == mega_sena.bola_3,
            row.bola_4 == mega_sena.bola_4,
            row.bola_5 == mega_sena.bola_5,
            row.bola_6 == mega_sena.bola_6,
            row.generated_by_rust == mega_sena.generated_by_rust,
            row@ == mega_sena@,
    {
        StoredGame {
            concurso,
            data,
            data_typesafe,
            bola_1: mega_sena.bola_1,
            bola_2: mega_sena.bola_2,
            bola_3: mega_sena.bola_3,
            bola_4: mega_sena.bola_4,
            bola_5: mega_sena.bola_5,
            bola_6: mega_sena.bola_6,
            generated_by_rust: mega_sena.generated_by_rust,
        }
    }

    /// The row under which a draw is stored now: its balls and its origin
    /// tag as they are, a fresh identifier, and the local date of the day in
    /// both of its forms.
    pub fn prepare(mega_sena: &MegaSena) -> (row: Self)
        ensures
            row@ == mega_sena@,
            row.bola_1 == mega_sena.bola_1,
            row.bola_2 == mega_sena.bola_2,
            row.bola_3 == mega_sena.bola_3,
            row.bola_4 == mega_sena.bola_4,
            row.bola_5 == mega_sena.bola_5,
            row.bola_6 == mega_sena.bola_6,
            row.generated_by_rust == mega_sena.generated_by_rust,
            row.concurso@.len() == IDENTIFIER_LENGTH,
    {
        let concurso = fresh_identifier();
        let data = local_now_as_text("%d/%m/%Y");
        let data_typesafe = local_now_as_text("%Y-%m-%d");
        StoredGame::assemble(mega_sena, concurso, data, data_typesafe)
    }
}

} // verus!
