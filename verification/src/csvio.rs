//! The one call into the csv crate: splitting file content into rows.
use vstd::prelude::*;

verus! {

/// The rows the csv reader splits `s` into, header row included, or nothing
/// when the reader reports an error.
pub uninterp spec fn csv_split(s: Seq<char>) -> Option<Seq<Seq<Seq<char>>>>;

/// Relies on csv::ReaderBuilder and csv::Reader::records: read from an
/// in-memory buffer, the records are a function of the content alone; any
/// reader error fails the whole split.
#[verifier::external_body]
pub(crate) fn split_csv(content: &str) -> (r: Option<Vec<Vec<String>>>)
    ensures
        r.deep_view() == csv_split(content@),
{
    let mut rdr = csv::ReaderBuilder::new().has_headers(false).from_reader(content.as_bytes());
    let mut out: Vec<Vec<String>> = Vec::new();
    for rec in rdr.records() {
        match rec {
            Ok(row) => out.push(row.iter().map(|f| f.to_string()).collect()),
            Err(_) => return None,
        }
    }
    Some(out)
}

} // verus!
