//! Normalizes per-broker dividend exports into a single tax-authority report.
//!
//! The pipeline parses two tabular export formats into canonical `Dividend`
//! records, converts foreign-currency withholding tax into EUR using a
//! date-indexed rate table, resolves payer address and identity through
//! static directories, and renders the fixed semicolon-delimited report.
//! All amounts are carried as decimal strings; arithmetic is exact
//! fixed-point, never floating point.

pub mod convert;
pub mod decimal;
pub mod directory;
pub mod dividend;
pub mod parsers;
pub mod rates;
pub mod report;
pub mod strutil;
pub mod table;
