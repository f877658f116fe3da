//! The report writer: the aggregated dividends rendered into the fixed
//! semicolon-delimited legal form, byte for byte.
//!
//! Two metadata lines and a column-header comment line come first, then one
//! line per dividend: date rewritten day-first, eleven semicolon-delimited
//! fields, amounts with the comma decimal convention. A date that does not
//! split into three day/month/year components skips its row with a
//! diagnostic; it never aborts the report.

use vstd::prelude::*;
use crate::dividend::{Diag, DiagV, DividendV};
use crate::dividend::Dividend;
use crate::strutil::{comma_all, commify_all, date_only, date_part, find_first, first_in};

verus! {

/// The output date rule: the date-only portion must split on `'-'` into
/// exactly three nonempty components, re-joined in reverse order with
/// `'.'` — `YYYY-MM-DD` becomes `DD.MM.YYYY`.
pub open spec fn spec_reformat_date(s: Seq<char>) -> Option<Seq<char>> {
    let dp = date_only(s);
    let i = first_in(dp, '-', '-') as int;
    if 1 <= i && i < dp.len() {
        let rest = dp.skip(i + 1);
        let j = first_in(rest, '-', '-') as int;
        if 1 <= j && j < rest.len() {
            let third = rest.skip(j + 1);
            if third.len() > 0 && first_in(third, '-', '-') == third.len() {
                Some(third + seq!['.'] + rest.subrange(0, j) + seq!['.'] + dp.subrange(0, i))
            } else {
                None
            }
        } else {
            None
        }
    } else {
        None
    }
}

/// Rewrites a timestamp's date-only portion day-first, `None` exactly when
/// it does not split into three nonempty dash-separated components.
pub fn reformat_date(date: &str) -> (r: Option<String>)
    ensures
        match r {
            Some(v) => spec_reformat_date(date@) == Some(v@),
            None => spec_reformat_date(date@) is None,
        },
{
    let dp = date_part(date);
    let n = dp.unicode_len();
    let i = find_first(dp, 0, '-', '-');
    proof {
        assert(dp@.skip(0) =~= dp@);
    }
    if !(1 <= i && i < n) {
        return None;
    }
    let j2 = find_first(dp, i + 1, '-', '-');
    if !(j2 > i + 1 && j2 < n) {
        return None;
    }
    let k = find_first(dp, j2 + 1, '-', '-');
    proof {
        assert(dp@.skip(i as int + 1).skip(j2 - i as int) =~= dp@.skip(j2 as int + 1));
    }
    if !(j2 + 1 < n && k == n) {
        return None;
    }
    let ghost rest = dp@.skip(i as int + 1);
    let ghost third = rest.skip(j2 - i as int);
    proof {
        assert(third =~= dp@.skip(j2 as int + 1));
        assert(rest.subrange(0, j2 - (i as int + 1)) =~= dp@.subrange(i as int + 1, j2 as int));
        assert(first_in(third, '-', '-') == third.len());
        assert(spec_reformat_date(date@) == Some(
            third + seq!['.'] + rest.subrange(0, j2 - (i as int + 1)) + seq!['.'] + dp@.subrange(
                0,
                i as int,
            ),
        ));
    }
    let third_s = dp.substring_char(j2 + 1, n);
    let mid_s = dp.substring_char(i + 1, j2);
    let first_s = dp.substring_char(0, i);
    let r = third_s.to_owned().concat(".").concat(mid_s).concat(".").concat(first_s);
    proof {
        reveal_strlit(".");
        assert("."@ =~= seq!['.']);
        assert(r@ =~= third + seq!['.'] + rest.subrange(0, j2 - (i as int + 1)) + seq!['.']
            + dp@.subrange(0, i as int));
    }
    Some(r)
}

/// One report line for one dividend: rewritten date, blank, payer id, name,
/// address, country, the literal dividend-type code 1, the amount with
/// every decimal point turned into a comma, the tax verbatim, the source
/// country again, and a blank trailing field.
pub open spec fn row_line(d: DividendV) -> Option<Seq<char>> {
    match spec_reformat_date(d.date) {
        None => None,
        Some(rd) => Some(
            rd + ";;"@ + d.payer_id + ";"@ + d.name + ";"@ + d.address + ";"@ + d.country + ";1;"@
                + comma_all(d.amount) + ";"@ + d.tax + ";"@ + d.country + ";\n"@,
        ),
    }
}

/// The dividend lines in append order, plus one diagnostic per dividend
/// whose date could not be rewritten.
pub open spec fn spec_report_rows(divs: Seq<DividendV>) -> (Seq<char>, Seq<DiagV>)
    decreases divs.len(),
{
    if divs.len() == 0 {
        (Seq::<char>::empty(), Seq::<DiagV>::empty())
    } else {
        let prev = spec_report_rows(divs.drop_last());
        match row_line(divs.last()) {
            None => (prev.0, prev.1.push(DiagV::MalformedDate { date: divs.last().date })),
            Some(l) => (prev.0 + l, prev.1),
        }
    }
}

/// The fixed two metadata lines (form code, version, the filer's tax id and
/// the fixed type and role flags) and the column-header comment line.
pub open spec fn report_header(tax_id: Seq<char>) -> Seq<char> {
    "#FormCode;Version;TaxPayerID;TaxPayerType;DocumentWorkflowID;;;;;;\n\n"@ + "DOH-DIV;3.9;"@
        + tax_id
        + ";FO;O;;;;;;\n\n"@
        + "#datum prejema dividende;davčna številka izplačevalca dividend;identifikacijska  številka izplačevalca dividend;naziv izplačevalca dividend;naslov izplačevalca dividend;država izplačevalca dividend;vrsta dividende;znesek dividend;tuji davek;država vira;uveljavljam oprostitev po mednarodni pogodbi\n\n"@
}

/// The whole report for the given tax id and dividends.
pub open spec fn spec_report(tax_id: Seq<char>, divs: Seq<DividendV>) -> (Seq<char>, Seq<DiagV>) {
    (report_header(tax_id) + spec_report_rows(divs).0, spec_report_rows(divs).1)
}

/// Renders the report: header lines, then one line per dividend in append
/// order. Returns the full text and the diagnostics of the skipped rows.
pub fn render_report(tax_id: &str, dividends: &Vec<Dividend>) -> (r: (String, Vec<Diag>))
    ensures
        r.0@ == spec_report(tax_id@, dividends.deep_view()).0,
        r.1.deep_view() == spec_report(tax_id@, dividends.deep_view()).1,
{
    let ghost dvs = dividends.deep_view();
    let mut out = String::new();
    out.append("#FormCode;Version;TaxPayerID;TaxPayerType;DocumentWorkflowID;;;;;;\n\n");
    out.append("DOH-DIV;3.9;");
    out.append(tax_id);
    out.append(";FO;O;;;;;;\n\n");
    out.append(
        "#datum prejema dividende;davčna številka izplačevalca dividend;identifikacijska  številka izplačevalca dividend;naziv izplačevalca dividend;naslov izplačevalca dividend;država izplačevalca dividend;vrsta dividende;znesek dividend;tuji davek;država vira;uveljavljam oprostitev po mednarodni pogodbi\n\n",
    );
    proof {
        assert(out@ =~= report_header(tax_id@));
    }
    let mut diags: Vec<Diag> = Vec::new();
    let n = dividends.len();
    let mut k: usize = 0;
    while k < n
        invariant
            0 <= k <= n,
            n == dividends@.len(),
            dvs == dividends.deep_view(),
            out@ == report_header(tax_id@) + spec_report_rows(dvs.take(k as int)).0,
            diags.deep_view() == spec_report_rows(dvs.take(k as int)).1,
        decreases n - k,
    {
        let d = &dividends[k];
        proof {
            assert(dvs.take(k + 1).drop_last() =~= dvs.take(k as int));
            assert(dvs.take(k + 1).last() == dvs[k as int]);
        }
        match reformat_date(d.date.as_str()) {
            None => {
                diags.push(Diag::MalformedDate { date: d.date.clone() });
            },
            Some(rd) => {
                out.append(rd.as_str());
                out.append(";;");
                out.append(d.payer_id.as_str());
                out.append(";");
                out.append(d.name.as_str());
                out.append(";");
                out.append(d.address.as_str());
                out.append(";");
                out.append(d.country.as_str());
                out.append(";1;");
                let am = commify_all(d.amount.as_str());
                out.append(am.as_str());
                out.append(";");
                out.append(d.tax.as_str());
                out.append(";");
                out.append(d.country.as_str());
                out.append(";\n");
            },
        }
        proof {
            assert(out@ =~= report_header(tax_id@) + spec_report_rows(dvs.take(k + 1)).0);
            assert(diags.deep_view() =~= spec_report_rows(dvs.take(k + 1)).1);
        }
        k = k + 1;
    }
    proof {
        assert(dvs.take(n as int) =~= dvs);
    }
    (out, diags)
}

} // verus!
