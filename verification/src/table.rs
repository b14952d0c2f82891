//! Reading the connectivity matrix from delimited text.

use vstd::prelude::*;

verus! {

#[verifier::external_type_specification]
#[verifier::external_body]
pub struct ExCsvError(csv::Error);

/// The records that the `csv` reader finds in the bytes of a table without a
/// header row, each record as the texts of its fields, or `None` where the
/// reader reports an error at any record.
pub uninterp spec fn csv_records(data: Seq<u8>) -> Option<Seq<Seq<Seq<char>>>>;

/// The texts of the fields of a table, row by row.
pub open spec fn texts(rows: Seq<Vec<String>>) -> Seq<Seq<Seq<char>>> {
    rows.map_values(|row: Vec<String>| row@.map_values(|field: String| field@))
}

/// The table could not be read.
#[derive(Clone, Debug, PartialEq, Eq)]
pub struct ReadError {
    /// What the reader says of the failure.
    pub message: String,
}

/// `csv::ReaderBuilder::new().has_headers(false).from_reader(..)` and its
/// `records()`, read to the end: all records of the bytes in their order,
/// each field as a `String`, or the first error of the reader. The reader
/// works on the bytes alone, so the same bytes give the same records.
#[verifier::external_body]
fn csv_read(data: &[u8]) -> (read: Result<Vec<Vec<String>>, csv::Error>)
    ensures
        match read {
            Ok(rows) => csv_records(data@) == Some(texts(rows@)),
            Err(_) => csv_records(data@) is None,
        },
{
    let mut reader = csv::ReaderBuilder::new().has_headers(false).from_reader(data);
    let mut rows: Vec<Vec<String>> = Vec::new();
    for record in reader.records() {
        rows.push(record?.iter().map(|field| field.to_string()).collect());
    }
    Ok(rows)
}

/// The `Display` text of a `csv::Error`. Nothing is claimed of it.
#[verifier::external_body]
fn csv_error_text(error: &csv::Error) -> (text: String) {
    error.to_string()
}

/// Reads a matrix from comma-separated text without a header row: one row
/// of field texts for each record. The result is an error exactly where the
/// reader reports one, as it does for bytes that are no UTF-8 and for a
/// record with another number of fields than the first.
pub fn read_matrix(data: &[u8]) -> (read: Result<Vec<Vec<String>>, ReadError>)
    ensures
        match read {
            Ok(rows) => csv_records(data@) == Some(texts(rows@)),
            Err(_) => csv_records(data@) is None,
        },
{
    match csv_read(data) {
        Ok(rows) => Ok(rows),
        Err(error) => Err(ReadError { message: csv_error_text(&error) }),
    }
}

} // verus!
