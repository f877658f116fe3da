//! The two per-broker record parsers.
//!
//! Each consumes one tabular export plus the shared reference data and
//! produces the canonical dividends in source-row order, together with one
//! diagnostic per skipped row. A malformed table is the only fatal outcome;
//! everything per-row is skip-and-continue.

use vstd::prelude::*;
use crate::convert::{convert, spec_convert};
use crate::directory::{company_address, dir_lookup, DirEntryV, Directory};
use crate::dividend::{Diag, DiagV, Dividend, DividendV};
use crate::rates::{RateEntryV, RateTable};
use crate::strutil::str_eq;
use crate::table::{csv_table_of, parse_csv_table};

verus! {

/// The whole table could not be decoded; the run-level caller treats this
/// as fatal.
#[derive(Clone, Copy, Debug, PartialEq, Eq, Structural)]
pub enum CsvError {
    Malformed,
}

/// Index of the first header equal to `name`, or `headers.len()` when no
/// header matches.
pub open spec fn idx_of(headers: Seq<Seq<char>>, name: Seq<char>) -> nat
    decreases headers.len(),
{
    if headers.len() == 0 {
        0
    } else if headers[0] == name {
        0
    } else {
        1 + idx_of(headers.skip(1), name)
    }
}

proof fn lemma_idx_of_exact(headers: Seq<Seq<char>>, name: Seq<char>, i: int)
    requires
        0 <= i <= headers.len(),
        forall|j: int| 0 <= j < i ==> headers[j] != name,
        i < headers.len() ==> headers[i] == name,
    ensures
        idx_of(headers, name) == i,
    decreases headers.len(),
{
    if headers.len() == 0 {
    } else if headers[0] == name {
        assert(i == 0);
    } else {
        assert(i >= 1);
        assert forall|j: int| 0 <= j < i - 1 implies headers.skip(1)[j] != name by {
            assert(headers.skip(1)[j] == headers[j + 1]);
        }
        if i < headers.len() {
            assert(headers.skip(1)[i - 1] == headers[i]);
        }
        lemma_idx_of_exact(headers.skip(1), name, i - 1);
    }
}

/// The value of the named column in a row: present exactly when some header
/// carries the name and the row is long enough to reach that column.
pub open spec fn field_of(headers: Seq<Seq<char>>, row: Seq<Seq<char>>, name: Seq<char>) -> Option<
    Seq<char>,
> {
    let i = idx_of(headers, name) as int;
    if i < headers.len() && i < row.len() {
        Some(row[i])
    } else {
        None
    }
}

fn field<'a>(headers: &Vec<String>, row: &'a Vec<String>, name: &str) -> (r: Option<&'a String>)
    ensures
        match r {
            Some(v) => field_of(headers.deep_view(), row.deep_view(), name@) == Some(v@),
            None => field_of(headers.deep_view(), row.deep_view(), name@) is None,
        },
{
    let nh = headers.len();
    let mut i: usize = 0;
    while i < nh
        invariant
            0 <= i <= nh,
            nh == headers@.len(),
            forall|j: int| 0 <= j < i ==> headers.deep_view()[j] != name@,
        decreases nh - i,
    {
        if str_eq(headers[i].as_str(), name) {
            proof {
                lemma_idx_of_exact(headers.deep_view(), name@, i as int);
            }
            if i < row.len() {
                return Some(&row[i]);
            } else {
                return None;
            }
        }
        i = i + 1;
    }
    proof {
        lemma_idx_of_exact(headers.deep_view(), name@, nh as int);
    }
    None
}

/// What one source row became: silently ignored, skipped with a
/// diagnostic, or normalized into a dividend.
pub enum RowOutcome {
    Ignored,
    Skipped(Diag),
    Produced(Dividend),
}

pub ghost enum RowOutcomeV {
    Ignored,
    Skipped(DiagV),
    Produced(DividendV),
}

impl View for RowOutcome {
    type V = RowOutcomeV;

    open spec fn view(&self) -> RowOutcomeV {
        match self {
            RowOutcome::Ignored => RowOutcomeV::Ignored,
            RowOutcome::Skipped(g) => RowOutcomeV::Skipped(g@),
            RowOutcome::Produced(d) => RowOutcomeV::Produced(d@),
        }
    }
}

/// The Trading212-style row rule: only ordinary-dividend actions count;
/// each required column must be present; the payer's address comes from the
/// place directory by ticker; the withholding tax is converted into EUR;
/// the gross total is already EUR and passes through verbatim.
pub open spec fn spec_row_a(
    h: Seq<Seq<char>>,
    row: Seq<Seq<char>>,
    places: Seq<DirEntryV>,
    t: Seq<RateEntryV>,
) -> RowOutcomeV {
    if field_of(h, row, "Action"@) != Some("Dividend (Ordinary)"@) {
        RowOutcomeV::Ignored
    } else {
        match field_of(h, row, "Time"@) {
            None => RowOutcomeV::Skipped(DiagV::MissingColumn { field: "Time"@ }),
            Some(date) => match field_of(h, row, "ISIN"@) {
                None => RowOutcomeV::Skipped(DiagV::MissingColumn { field: "ISIN"@ }),
                Some(isin) => match field_of(h, row, "Name"@) {
                    None => RowOutcomeV::Skipped(DiagV::MissingColumn { field: "Name"@ }),
                    Some(name) => match field_of(h, row, "Total"@) {
                        None => RowOutcomeV::Skipped(DiagV::MissingColumn { field: "Total"@ }),
                        Some(total) => match field_of(h, row, "Withholding tax"@) {
                            None => RowOutcomeV::Skipped(
                                DiagV::MissingColumn { field: "Withholding tax"@ },
                            ),
                            Some(wtax) => match field_of(h, row, "Currency (Withholding tax)"@) {
                                None => RowOutcomeV::Skipped(
                                    DiagV::MissingColumn {
                                        field: "Currency (Withholding tax)"@,
                                    },
                                ),
                                Some(wcur) => match field_of(h, row, "Ticker"@) {
                                    None => RowOutcomeV::Skipped(
                                        DiagV::MissingColumn { field: "Ticker"@ },
                                    ),
                                    Some(ticker) => match dir_lookup(places, ticker) {
                                        None => RowOutcomeV::Skipped(
                                            DiagV::AddressMissing {
                                                payer_id: isin,
                                                ticker: ticker,
                                                name: name,
                                            },
                                        ),
                                        Some(ac) => match spec_convert(date, wtax, wcur, t) {
                                            Err(e) => RowOutcomeV::Skipped(
                                                DiagV::ConversionFailed {
                                                    currency: wcur,
                                                    error: e,
                                                },
                                            ),
                                            Ok(tax) => RowOutcomeV::Produced(
                                                DividendV {
                                                    date: date,
                                                    payer_id: isin,
                                                    name: name,
                                                    address: ac.0,
                                                    country: ac.1,
                                                    amount: total,
                                                    tax: tax,
                                                },
                                            ),
                                        },
                                    },
                                },
                            },
                        },
                    },
                },
            },
        }
    }
}

/// Applies the Trading212-style row rule to one row.
pub fn t212_row(
    headers: &Vec<String>,
    row: &Vec<String>,
    places: &Directory,
    rates: &RateTable,
) -> (r: RowOutcome)
    ensures
        r@ == spec_row_a(headers.deep_view(), row.deep_view(), places@, rates@),
{
    let is_div = match field(headers, row, "Action") {
        Some(v) => str_eq(v.as_str(), "Dividend (Ordinary)"),
        None => false,
    };
    if !is_div {
        return RowOutcome::Ignored;
    }
    let date = match field(headers, row, "Time") {
        Some(v) => v,
        None => {
            return RowOutcome::Skipped(Diag::MissingColumn { field: String::from_str("Time") });
        },
    };
    let isin = match field(headers, row, "ISIN") {
        Some(v) => v,
        None => {
            return RowOutcome::Skipped(Diag::MissingColumn { field: String::from_str("ISIN") });
        },
    };
    let name = match field(headers, row, "Name") {
        Some(v) => v,
        None => {
            return RowOutcome::Skipped(Diag::MissingColumn { field: String::from_str("Name") });
        },
    };
    let total = match field(headers, row, "Total") {
        Some(v) => v,
        None => {
            return RowOutcome::Skipped(Diag::MissingColumn { field: String::from_str("Total") });
        },
    };
    let wtax = match field(headers, row, "Withholding tax") {
        Some(v) => v,
        None => {
            return RowOutcome::Skipped(
                Diag::MissingColumn { field: String::from_str("Withholding tax") },
            );
        },
    };
    let wcur = match field(headers, row, "Currency (Withholding tax)") {
        Some(v) => v,
        None => {
            return RowOutcome::Skipped(
                Diag::MissingColumn { field: String::from_str("Currency (Withholding tax)") },
            );
        },
    };
    let ticker = match field(headers, row, "Ticker") {
        Some(v) => v,
        None => {
            return RowOutcome::Skipped(Diag::MissingColumn { field: String::from_str("Ticker") });
        },
    };
    let ac = match company_address(ticker.as_str(), places) {
        Some(ac) => ac,
        None => {
            return RowOutcome::Skipped(
                Diag::AddressMissing {
                    payer_id: isin.clone(),
                    ticker: ticker.clone(),
                    name: name.clone(),
                },
            );
        },
    };
    let tax = match convert(date.as_str(), wtax.as_str(), wcur.as_str(), rates) {
        Ok(t) => t,
        Err(e) => {
            return RowOutcome::Skipped(
                Diag::ConversionFailed { currency: wcur.clone(), error: e },
            );
        },
    };
    RowOutcome::Produced(
        Dividend {
            date: date.clone(),
            payer_id: isin.clone(),
            name: name.clone(),
            address: ac.0,
            country: ac.1,
            amount: total.clone(),
            tax,
        },
    )
}

/// Folds a row rule's outcomes over the rows in order: produced dividends
/// and skip diagnostics each keep source-row order.
pub open spec fn spec_parse_rows_a(
    h: Seq<Seq<char>>,
    rows: Seq<Seq<Seq<char>>>,
    places: Seq<DirEntryV>,
    t: Seq<RateEntryV>,
) -> (Seq<DividendV>, Seq<DiagV>)
    decreases rows.len(),
{
    if rows.len() == 0 {
        (Seq::<DividendV>::empty(), Seq::<DiagV>::empty())
    } else {
        let prev = spec_parse_rows_a(h, rows.drop_last(), places, t);
        match spec_row_a(h, rows.last(), places, t) {
            RowOutcomeV::Ignored => prev,
            RowOutcomeV::Skipped(g) => (prev.0, prev.1.push(g)),
            RowOutcomeV::Produced(d) => (prev.0.push(d), prev.1),
        }
    }
}

/// Parses a Trading212-style export. A malformed table is fatal; every
/// per-row failure is reported in the diagnostics and skipped.
pub fn load_t212_dividends(text: &str, places: &Directory, rates: &RateTable) -> (r: Result<
    (Vec<Dividend>, Vec<Diag>),
    CsvError,
>)
    ensures
        match r {
            Ok(p) => (csv_table_of(text@) matches Some(t) && p.0.deep_view() == spec_parse_rows_a(
                t.0,
                t.1,
                places@,
                rates@,
            ).0 && p.1.deep_view() == spec_parse_rows_a(t.0, t.1, places@, rates@).1),
            Err(_) => csv_table_of(text@) is None,
        },
{
    let (headers, rows) = match parse_csv_table(text) {
        Some(t) => t,
        None => {
            return Err(CsvError::Malformed);
        },
    };
    let ghost h = headers.deep_view();
    let ghost rws = rows.deep_view();
    let mut divs: Vec<Dividend> = Vec::new();
    let mut diags: Vec<Diag> = Vec::new();
    let n = rows.len();
    let mut k: usize = 0;
    while k < n
        invariant
            0 <= k <= n,
            n == rows@.len(),
            h == headers.deep_view(),
            rws == rows.deep_view(),
            divs.deep_view() == spec_parse_rows_a(h, rws.take(k as int), places@, rates@).0,
            diags.deep_view() == spec_parse_rows_a(h, rws.take(k as int), places@, rates@).1,
        decreases n - k,
    {
        let outcome = t212_row(&headers, &rows[k], places, rates);
        proof {
            assert(rws.take(k + 1).drop_last() =~= rws.take(k as int));
            assert(rws.take(k + 1).last() == rws[k as int]);
        }
        match outcome {
            RowOutcome::Ignored => {},
            RowOutcome::Skipped(g) => {
                diags.push(g);
            },
            RowOutcome::Produced(d) => {
                divs.push(d);
            },
        }
        proof {
            assert(divs.deep_view() =~= spec_parse_rows_a(
                h,
                rws.take(k + 1),
                places@,
                rates@,
            ).0);
            assert(diags.deep_view() =~= spec_parse_rows_a(
                h,
                rws.take(k + 1),
                places@,
                rates@,
            ).1);
        }
        k = k + 1;
    }
    proof {
        assert(rws.take(n as int) =~= rws);
    }
    Ok((divs, diags))
}

/// Law: a row that the row rule skips contributes its diagnostic and no
/// dividend; the dividends of the other rows are untouched.
pub proof fn lemma_skipped_row_dropped(
    h: Seq<Seq<char>>,
    rows: Seq<Seq<Seq<char>>>,
    row: Seq<Seq<char>>,
    places: Seq<DirEntryV>,
    t: Seq<RateEntryV>,
    g: DiagV,
)
    requires
        spec_row_a(h, row, places, t) == RowOutcomeV::Skipped(g),
    ensures
        spec_parse_rows_a(h, rows.push(row), places, t).0 == spec_parse_rows_a(
            h,
            rows,
            places,
            t,
        ).0,
        spec_parse_rows_a(h, rows.push(row), places, t).1 == spec_parse_rows_a(
            h,
            rows,
            places,
            t,
        ).1.push(g),
{
    assert(rows.push(row).drop_last() =~= rows);
    assert(rows.push(row).last() == row);
}

/// Law: a row that the Revolut-style row rule skips contributes its
/// diagnostic and no dividend; the dividends of the other rows are
/// untouched.
pub proof fn lemma_skipped_row_dropped_b(
    h: Seq<Seq<char>>,
    rows: Seq<Seq<Seq<char>>>,
    row: Seq<Seq<char>>,
    places: Seq<DirEntryV>,
    aliases: Seq<DirEntryV>,
    t: Seq<RateEntryV>,
    g: DiagV,
)
    requires
        spec_row_b(h, row, places, aliases, t) == RowOutcomeV::Skipped(g),
    ensures
        spec_parse_rows_b(h, rows.push(row), places, aliases, t).0 == spec_parse_rows_b(
            h,
            rows,
            places,
            aliases,
            t,
        ).0,
        spec_parse_rows_b(h, rows.push(row), places, aliases, t).1 == spec_parse_rows_b(
            h,
            rows,
            places,
            aliases,
            t,
        ).1.push(g),
{
    assert(rows.push(row).drop_last() =~= rows);
    assert(rows.push(row).last() == row);
}

/// Strips one leading dollar sign, as the Revolut-style amount rule asks.
pub open spec fn spec_strip_dollar(s: Seq<char>) -> Seq<char> {
    if s.len() > 0 && s[0] == '$' {
        s.skip(1)
    } else {
        s
    }
}

fn strip_dollar<'a>(s: &'a str) -> (r: &'a str)
    ensures
        r@ == spec_strip_dollar(s@),
{
    let n = s.unicode_len();
    if n > 0 && s.get_char(0) == '$' {
        let t = s.substring_char(1, n);
        proof {
            assert(t@ =~= s@.skip(1));
        }
        t
    } else {
        s
    }
}

/// The Revolut-style row rule: only DIVIDEND rows count; date, ticker and
/// total amount must be present; the address comes from the place
/// directory, the payer identity from the broker alias directory; the
/// amount, always USD-denominated after stripping a dollar prefix, is
/// converted into EUR; the withholding tax is fixed to `"0.00"`.
pub open spec fn spec_row_b(
    h: Seq<Seq<char>>,
    row: Seq<Seq<char>>,
    places: Seq<DirEntryV>,
    aliases: Seq<DirEntryV>,
    t: Seq<RateEntryV>,
) -> RowOutcomeV {
    if field_of(h, row, "Type"@) != Some("DIVIDEND"@) {
        RowOutcomeV::Ignored
    } else {
        match field_of(h, row, "Date"@) {
            None => RowOutcomeV::Skipped(DiagV::MissingColumn { field: "Date"@ }),
            Some(date) => match field_of(h, row, "Ticker"@) {
                None => RowOutcomeV::Skipped(DiagV::MissingColumn { field: "Ticker"@ }),
                Some(ticker) => match dir_lookup(places, ticker) {
                    None => RowOutcomeV::Skipped(
                        DiagV::AddressMissing {
                            payer_id: Seq::<char>::empty(),
                            ticker: ticker,
                            name: Seq::<char>::empty(),
                        },
                    ),
                    Some(ac) => match field_of(h, row, "Total Amount"@) {
                        None => RowOutcomeV::Skipped(
                            DiagV::MissingColumn { field: "Total Amount"@ },
                        ),
                        Some(total) => match spec_convert(
                            date,
                            spec_strip_dollar(total),
                            "USD"@,
                            t,
                        ) {
                            Err(e) => RowOutcomeV::Skipped(
                                DiagV::ConversionFailed { currency: "USD"@, error: e },
                            ),
                            Ok(amount) => match dir_lookup(aliases, ticker) {
                                None => RowOutcomeV::Skipped(
                                    DiagV::AliasMissing { ticker: ticker },
                                ),
                                Some(inm) => RowOutcomeV::Produced(
                                    DividendV {
                                        date: date,
                                        payer_id: inm.0,
                                        name: inm.1,
                                        address: ac.0,
                                        country: ac.1,
                                        amount: amount,
                                        tax: "0.00"@,
                                    },
                                ),
                            },
                        },
                    },
                },
            },
        }
    }
}

/// Applies the Revolut-style row rule to one row.
pub fn revolut_row(
    headers: &Vec<String>,
    row: &Vec<String>,
    places: &Directory,
    aliases: &Directory,
    rates: &RateTable,
) -> (r: RowOutcome)
    ensures
        r@ == spec_row_b(headers.deep_view(), row.deep_view(), places@, aliases@, rates@),
{
    let is_div = match field(headers, row, "Type") {
        Some(v) => str_eq(v.as_str(), "DIVIDEND"),
        None => false,
    };
    if !is_div {
        return RowOutcome::Ignored;
    }
    let date = match field(headers, row, "Date") {
        Some(v) => v,
        None => {
            return RowOutcome::Skipped(Diag::MissingColumn { field: String::from_str("Date") });
        },
    };
    let ticker = match field(headers, row, "Ticker") {
        Some(v) => v,
        None => {
            return RowOutcome::Skipped(Diag::MissingColumn { field: String::from_str("Ticker") });
        },
    };
    let ac = match company_address(ticker.as_str(), places) {
        Some(ac) => ac,
        None => {
            return RowOutcome::Skipped(
                Diag::AddressMissing {
                    payer_id: String::new(),
                    ticker: ticker.clone(),
                    name: String::new(),
                },
            );
        },
    };
    let total = match field(headers, row, "Total Amount") {
        Some(v) => v,
        None => {
            return RowOutcome::Skipped(
                Diag::MissingColumn { field: String::from_str("Total Amount") },
            );
        },
    };
    let amount = match convert(date.as_str(), strip_dollar(total.as_str()), "USD", rates) {
        Ok(a) => a,
        Err(e) => {
            return RowOutcome::Skipped(
                Diag::ConversionFailed { currency: String::from_str("USD"), error: e },
            );
        },
    };
    let inm = match company_address(ticker.as_str(), aliases) {
        Some(p) => p,
        None => {
            return RowOutcome::Skipped(Diag::AliasMissing { ticker: ticker.clone() });
        },
    };
    RowOutcome::Produced(
        Dividend {
            date: date.clone(),
            payer_id: inm.0,
            name: inm.1,
            address: ac.0,
            country: ac.1,
            amount,
            tax: String::from_str("0.00"),
        },
    )
}

/// Folds the Revolut-style row rule over the rows in order.
pub open spec fn spec_parse_rows_b(
    h: Seq<Seq<char>>,
    rows: Seq<Seq<Seq<char>>>,
    places: Seq<DirEntryV>,
    aliases: Seq<DirEntryV>,
    t: Seq<RateEntryV>,
) -> (Seq<DividendV>, Seq<DiagV>)
    decreases rows.len(),
{
    if rows.len() == 0 {
        (Seq::<DividendV>::empty(), Seq::<DiagV>::empty())
    } else {
        let prev = spec_parse_rows_b(h, rows.drop_last(), places, aliases, t);
        match spec_row_b(h, rows.last(), places, aliases, t) {
            RowOutcomeV::Ignored => prev,
            RowOutcomeV::Skipped(g) => (prev.0, prev.1.push(g)),
            RowOutcomeV::Produced(d) => (prev.0.push(d), prev.1),
        }
    }
}

/// Parses a Revolut-style export. A malformed table is fatal; every
/// per-row failure is reported in the diagnostics and skipped.
pub fn load_revolut_dividends(
    text: &str,
    places: &Directory,
    rates: &RateTable,
    aliases: &Directory,
) -> (r: Result<(Vec<Dividend>, Vec<Diag>), CsvError>)
    ensures
        match r {
            Ok(p) => (csv_table_of(text@) matches Some(t) && p.0.deep_view() == spec_parse_rows_b(
                t.0,
                t.1,
                places@,
                aliases@,
                rates@,
            ).0 && p.1.deep_view() == spec_parse_rows_b(t.0, t.1, places@, aliases@, rates@).1),
            Err(_) => csv_table_of(text@) is None,
        },
{
    let (headers, rows) = match parse_csv_table(text) {
        Some(t) => t,
        None => {
            return Err(CsvError::Malformed);
        },
    };
    let ghost h = headers.deep_view();
    let ghost rws = rows.deep_view();
    let mut divs: Vec<Dividend> = Vec::new();
    let mut diags: Vec<Diag> = Vec::new();
    let n = rows.len();
    let mut k: usize = 0;
    while k < n
        invariant
            0 <= k <= n,
            n == rows@.len(),
            h == headers.deep_view(),
            rws == rows.deep_view(),
            divs.deep_view() == spec_parse_rows_b(h, rws.take(k as int), places@, aliases@, rates@).0,
            diags.deep_view() == spec_parse_rows_b(h, rws.take(k as int), places@, aliases@, rates@).1,
        decreases n - k,
    {
        let outcome = revolut_row(&headers, &rows[k], places, aliases, rates);
        proof {
            assert(rws.take(k + 1).drop_last() =~= rws.take(k as int));
            assert(rws.take(k + 1).last() == rws[k as int]);
        }
        match outcome {
            RowOutcome::Ignored => {},
            RowOutcome::Skipped(g) => {
                diags.push(g);
            },
            RowOutcome::Produced(d) => {
                divs.push(d);
            },
        }
        proof {
            assert(divs.deep_view() =~= spec_parse_rows_b(
                h,
                rws.take(k + 1),
                places@,
                aliases@,
                rates@,
            ).0);
            assert(diags.deep_view() =~= spec_parse_rows_b(
                h,
                rws.take(k + 1),
                places@,
                aliases@,
                rates@,
            ).1);
        }
        k = k + 1;
    }
    proof {
        assert(rws.take(n as int) =~= rws);
    }
    Ok((divs, diags))
}

} // verus!
