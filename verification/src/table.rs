//! The tabular source: a broker export parsed into a header row and data
//! rows. The comma-separated decoding itself is done by the `csv` crate;
//! everything downstream of the parsed cells is verified.

use vstd::prelude::*;

verus! {

/// The header row and data rows that `csv::Reader` yields for the given
/// text, or `None` when the text is malformed comma-separated data.
pub uninterp spec fn csv_table_of(s: Seq<char>) -> Option<(Seq<Seq<char>>, Seq<Seq<Seq<char>>>)>;

/// Relies on `csv::Reader` (crate `csv`, default configuration): the first
/// record of the text is the header row, the remaining records are the data
/// rows, and any decoding error on a record fails the whole table.
#[verifier::external_body]
pub(crate) fn parse_csv_table(text: &str) -> (r: Option<(Vec<String>, Vec<Vec<String>>)>)
    ensures
        match r {
            Some(t) => csv_table_of(text@) == Some((t.0.deep_view(), t.1.deep_view())),
            None => csv_table_of(text@) is None,
        },
{
    let mut reader = csv::Reader::from_reader(text.as_bytes());
    let headers: Vec<String> = match reader.headers() {
        Ok(h) => h.iter().map(|f| f.to_owned()).collect(),
        Err(_) => return None,
    };
    let mut rows: Vec<Vec<String>> = Vec::new();
    for record in reader.records() {
        match record {
            Ok(rec) => rows.push(rec.iter().map(|f| f.to_owned()).collect()),
            Err(_) => return None,
        }
    }
    Some((headers, rows))
}

} // verus!
