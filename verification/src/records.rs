//! Splitting comma-separated text into records of fields.
use vstd::prelude::*;

verus! {

/// The records that comma-separated text holds, each a list of fields, in
/// the order of the text; `None` where the text cannot be split.
pub uninterp spec fn csv_records(text: Seq<u8>) -> Option<Seq<Seq<Seq<char>>>>;

/// Splits comma-separated text into its records.
///
/// Calls `csv::Reader::records` on a reader that `csv::ReaderBuilder`
/// makes for the bytes with the delimiter `,`, with no header row and with
/// records of any width, and copies out the fields of each record with
/// `csv::StringRecord::iter`. The first record that the reader reports as
/// an error ends the call with `None`. The contract claims that what comes
/// back depends on the bytes alone.
#[verifier::external_body]
pub(crate) fn split_records(text: &[u8]) -> (records: Option<Vec<Vec<String>>>)
    ensures
        records.deep_view() == csv_records(text@),
{
    let mut builder = csv::ReaderBuilder::new();
    let mut reader = builder.delimiter(b',').has_headers(false).flexible(true).from_reader(text);
    let mut records: Vec<Vec<String>> = Vec::new();
    for record in reader.records() {
        let fields = match record {
            Ok(fields) => fields,
            Err(_) => return None,
        };
        let mut row: Vec<String> = Vec::new();
        for field in fields.iter() {
            row.push(field.to_string());
        }
        records.push(row);
    }
    Some(records)
}

} // verus!
