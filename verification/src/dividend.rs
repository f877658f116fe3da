//! The canonical dividend record and the per-row diagnostics.
//!
//! Every broker format is normalized into `Dividend` before reporting.
//! Amounts stay as formatted decimal strings: the gross amount in the
//! source's convention, the withholding tax always in EUR with a comma.
//! A `Diag` names a row that was skipped and why; rows are skipped, never
//! the whole run.

use vstd::prelude::*;
use crate::convert::ConvertError;

verus! {

pub ghost struct DividendV {
    pub date: Seq<char>,
    pub payer_id: Seq<char>,
    pub name: Seq<char>,
    pub address: Seq<char>,
    pub country: Seq<char>,
    pub amount: Seq<char>,
    pub tax: Seq<char>,
}

/// One canonical dividend entry, immutable once constructed.
#[derive(Debug, Clone, PartialEq, Eq)]
pub struct Dividend {
    pub date: String,
    pub payer_id: String,
    pub name: String,
    pub address: String,
    pub country: String,
    pub amount: String,
    pub tax: String,
}

impl View for Dividend {
    type V = DividendV;

    open spec fn view(&self) -> DividendV {
        DividendV {
            date: self.date@,
            payer_id: self.payer_id@,
            name: self.name@,
            address: self.address@,
            country: self.country@,
            amount: self.amount@,
            tax: self.tax@,
        }
    }
}

impl DeepView for Dividend {
    type V = DividendV;

    open spec fn deep_view(&self) -> DividendV {
        self.view()
    }
}

pub ghost enum DiagV {
    MissingColumn { field: Seq<char> },
    AddressMissing { payer_id: Seq<char>, ticker: Seq<char>, name: Seq<char> },
    ConversionFailed { currency: Seq<char>, error: ConvertError },
    AliasMissing { ticker: Seq<char> },
    MalformedDate { date: Seq<char> },
}

/// A row-level diagnostic: why one source row produced no report row,
/// carrying whatever identifying fields the row offered.
#[derive(Debug, Clone, PartialEq, Eq)]
pub enum Diag {
    MissingColumn { field: String },
    AddressMissing { payer_id: String, ticker: String, name: String },
    ConversionFailed { currency: String, error: ConvertError },
    AliasMissing { ticker: String },
    MalformedDate { date: String },
}

impl View for Diag {
    type V = DiagV;

    open spec fn view(&self) -> DiagV {
        match self {
            Diag::MissingColumn { field } => DiagV::MissingColumn { field: field@ },
            Diag::AddressMissing { payer_id, ticker, name } => DiagV::AddressMissing {
                payer_id: payer_id@,
                ticker: ticker@,
                name: name@,
            },
            Diag::ConversionFailed { currency, error } => DiagV::ConversionFailed {
                currency: currency@,
                error: *error,
            },
            Diag::AliasMissing { ticker } => DiagV::AliasMissing { ticker: ticker@ },
            Diag::MalformedDate { date } => DiagV::MalformedDate { date: date@ },
        }
    }
}

impl DeepView for Diag {
    type V = DiagV;

    open spec fn deep_view(&self) -> DiagV {
        self.view()
    }
}

} // verus!
