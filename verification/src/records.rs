//! Records of a comma-separated file, as the `csv` crate reads them.

use vstd::prelude::*;
use crate::row::texts;

verus! {

/// The records read from the content of a file: the records before the
/// first one that could not be read, and why that one could not, if there
/// is one.
pub struct Records {
    pub rows: Vec<Vec<String>>,
    pub failure: Option<String>,
}

/// The fields of each of a sequence of records.
pub open spec fn row_views(rows: Seq<Vec<String>>) -> Seq<Seq<Seq<char>>> {
    rows.map_values(|r: Vec<String>| texts(r@))
}

/// What the `csv` reader makes of the bytes `content`, read without a
/// header row: the records up to the first error, and the text of that
/// error, if one occurs.
pub uninterp spec fn csv_read(content: Seq<u8>) -> (Seq<Seq<Seq<char>>>, Option<Seq<char>>);

/// Reads `content` record by record with a `csv::Reader` built by
/// `csv::ReaderBuilder` with `has_headers(false)`, and stops at the first
/// record for which the reader returns an error. The result is a function
/// of `content` alone, named [`csv_read`]; nothing more is claimed of it.
#[verifier::external_body]
pub(crate) fn read_records(content: &[u8]) -> (out: Records)
    ensures
        row_views(out.rows@) == csv_read(content@).0,
        out.failure is Some <==> csv_read(content@).1 is Some,
        out.failure matches Some(e) ==> csv_read(content@).1 == Some(e@),
{
    let mut reader = csv::ReaderBuilder::new().has_headers(false).from_reader(content);
    let mut rows: Vec<Vec<String>> = Vec::new();
    for result in reader.records() {
        match result {
            Ok(record) => rows.push(record.iter().map(String::from).collect()),
            Err(e) => return Records { rows, failure: Some(e.to_string()) },
        }
    }
    Records { rows, failure: None }
}

} // verus!
