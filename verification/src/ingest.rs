//! The file of historical draws as a whole: its records are split off by
//! the `csv` crate and read one by one, up to the first that fails.

use crate::csv_row::{read_row, reading_of, texts, CsvDraw, RowError, RowReading, RowView};
use vstd::prelude::*;

verus! {

/// What goes wrong in a record of the file.
#[verifier::external_type_specification]
#[verifier::external_body]
pub struct ExCsvError(csv::Error);

/// The fields of each record of a file, in the order of the file; none for
/// a record that the file gives in no usable form.
pub uninterp spec fn csv_records_of(content: Seq<u8>, delimiter: u8, has_headers: bool) -> Seq<
    Option<Seq<Seq<char>>>,
>;

/// The fields of one record, if it has any.
pub open spec fn record_fields(record: Result<Vec<String>, csv::Error>) -> Option<Seq<Seq<char>>> {
    match record {
        Ok(fields) => Some(texts(fields@)),
        Err(_) => None,
    }
}

/// The fields of each record of a list.
pub open spec fn records_fields(records: Seq<Result<Vec<String>, csv::Error>>) -> Seq<
    Option<Seq<Seq<char>>>,
> {
    Seq::new(records.len(), |i: int| record_fields(records[i]))
}

/// Splits the content of a file into its records, by
/// `csv::ReaderBuilder::from_reader` with the given delimiter and header
/// setting, and `csv::Reader::records`.
///
/// Trusted: the records, with their fields, are those of the content given;
/// the same content always splits in the same way.
#[verifier::external_body]
fn split_records(content: &[u8], delimiter: u8, has_headers: bool) -> (records: Vec<
    Result<Vec<String>, csv::Error>,
>)
    ensures
        records_fields(records@) == csv_records_of(content@, delimiter, has_headers),
{
    let mut reader = csv::ReaderBuilder::new()
        .delimiter(delimiter)
        .has_headers(has_headers)
        .from_reader(content);
    reader
        .records()
        .map(|record| record.map(|fields| fields.iter().map(String::from).collect()))
        .collect()
}

/// Why the file could not be taken in. Records are counted from zero, the
/// header line left out.
#[derive(Debug, Clone, Copy, PartialEq, Eq, Structural)]
pub enum IngestError {
    /// The record is given in no usable form.
    MalformedRecord { record: usize },
    /// The field in this column of the record, counted from zero, is no
    /// integer.
    InvalidNumber { record: usize, column: usize },
}

/// What a file amounts to.
pub enum FileReading {
    /// Every record could be read: these are the draws, in the order of the
    /// file.
    Draws(Seq<RowView>),
    /// This record is given in no usable form.
    Malformed { record: int },
    /// This column of this record is no integer.
    Invalid { record: int, column: int },
}

/// What a list of records amounts to. The records are read in order, and
/// the first that fails decides; a record of too few fields is passed over.
pub open spec fn file_reading(records: Seq<Option<Seq<Seq<char>>>>) -> FileReading
    decreases records.len(),
{
    if records.len() == 0 {
        FileReading::Draws(Seq::empty())
    } else {
        match file_reading(records.drop_last()) {
            FileReading::Draws(draws) => match records.last() {
                None => FileReading::Malformed { record: records.len() - 1 },
                Some(fields) => match reading_of(fields) {
                    RowReading::Skipped => FileReading::Draws(draws),
                    RowReading::Draw(draw) => FileReading::Draws(draws.push(draw)),
                    RowReading::Invalid { column } => FileReading::Invalid {
                        record: records.len() - 1,
                        column,
                    },
                },
            },
            failed => failed,
        }
    }
}

/// The draws of a list, as mathematical values.
pub open spec fn row_views(draws: Seq<CsvDraw>) -> Seq<RowView> {
    Seq::new(draws.len(), |i: int| draws[i]@)
}

/// What the result of taking in a file amounts to.
pub open spec fn outcome(result: Result<Vec<CsvDraw>, IngestError>) -> FileReading {
    match result {
        Ok(draws) => FileReading::Draws(row_views(draws@)),
        Err(IngestError::MalformedRecord { record }) => FileReading::Malformed {
            record: record as int,
        },
        Err(IngestError::InvalidNumber { record, column }) => FileReading::Invalid {
            record: record as int,
            column: column as int,
        },
    }
}

/// Reads the records of a file in order. All of them must be readable for
/// any draw to be handed out: the first record that fails ends the reading.
pub fn read_records(records: &Vec<Result<Vec<String>, csv::Error>>) -> (r: Result<
    Vec<CsvDraw>,
    IngestError,
>)
    ensures
        outcome(r) == file_reading(records_fields(records@)),
{
    let ghost all = records_fields(records@);
    let mut draws: Vec<CsvDraw> = Vec::new();
    let mut i: usize = 0;
    assert(all.take(0) =~= Seq::empty());
    assert(row_views(draws@) =~= Seq::empty());
    while i < records.len()
        invariant
            i <= records@.len(),
            all == records_fields(records@),
            file_reading(all.take(i as int)) == FileReading::Draws(row_views(draws@)),
        decreases records@.len() - i,
    {
        let ghost before = row_views(draws@);
        proof {
            let longer = all.take(i as int + 1);
            assert(longer.drop_last() =~= all.take(i as int));
            assert(longer.last() == record_fields(records@[i as int]));
        }
        match &records[i] {
            Err(_) => {
                proof {
                    lemma_failure_stays(all, i as int + 1);
                }
                return Err(IngestError::MalformedRecord { record: i });
            },
            Ok(fields) => match read_row(fields) {
                Ok(None) => {},
                Ok(Some(draw)) => {
                    draws.push(draw);
                    assert(row_views(draws@) =~= before.push(draw@));
                },
                Err(RowError::InvalidNumber { column }) => {
                    proof {
                        lemma_failure_stays(all, i as int + 1);
                    }
                    return Err(IngestError::InvalidNumber { record: i, column });
                },
            },
        }
        i += 1;
    }
    assert(all.take(records@.len() as int) =~= all);
    Ok(draws)
}

/// Once a record has failed, no later record changes what the file amounts
/// to.
proof fn lemma_failure_stays(records: Seq<Option<Seq<Seq<char>>>>, upto: int)
    requires
        0 <= upto <= records.len(),
        !(file_reading(records.take(upto)) is Draws),
    ensures
        file_reading(records) == file_reading(records.take(upto)),
    decreases records.len() - upto,
{
    if upto < records.len() {
        assert(records.take(upto + 1).drop_last() =~= records.take(upto));
        lemma_failure_stays(records, upto + 1);
    } else {
        assert(records.take(upto) =~= records);
    }
}

/// Field delimiter of the file of historical draws.
pub const DELIMITER: u8 = 0x2c;

/// Takes in the content of the file of historical draws: comma-separated
/// records under a header line. Either every record is read, and the draws
/// come out in the order of the file, or the first failure is reported.
pub fn read_history_file(content: &[u8]) -> (r: Result<Vec<CsvDraw>, IngestError>)
    ensures
        outcome(r) == file_reading(csv_records_of(content@, DELIMITER, true)),
{
    let records = split_records(content, DELIMITER, true);
    read_records(&records)
}

} // verus!
