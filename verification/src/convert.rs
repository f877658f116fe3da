//! The currency converter: a foreign-currency amount on a given date
//! becomes a EUR amount in the local decimal convention.
//!
//! Rules, in order: EUR passes through with its first decimal point turned
//! into a comma; any other amount is parsed as an exact decimal; GBX (pence
//! sterling) is rewritten to GBP with the amount multiplied by one hundred;
//! the rate is looked up by the date-only portion of the timestamp, exact
//! date only; the product is rounded to two decimals and rendered with a
//! comma. Every failure is per-row and recoverable.

use vstd::prelude::*;
use crate::decimal::{cents_exec, cents_of, format_cents, parse_dec, render_cents, spec_parse_dec,
    DecV};
use crate::rates::{has_date, rate_lookup, RateEntryV, RateTable};
use crate::strutil::{comma_first, commify, date_only, date_part, str_eq};

verus! {

/// Why a conversion failed: the amount is not numeric, the rate table has
/// no entry for the date, or none for the currency on that date.
#[derive(Clone, Copy, Debug, PartialEq, Eq, Structural)]
pub enum ConvertError {
    ParseFailure,
    RateDateMissing,
    RateCurrencyMissing,
}

/// The conversion rule. EUR amounts pass through with the first decimal
/// point replaced by a comma; other amounts are parsed, GBX is restated in
/// GBP at one hundred times the amount, the rate for the date-only portion
/// of `date` is applied, and the exact product is rounded to cents.
pub open spec fn spec_convert(
    date: Seq<char>,
    raw_amount: Seq<char>,
    currency: Seq<char>,
    t: Seq<RateEntryV>,
) -> Result<Seq<char>, ConvertError> {
    if currency == "EUR"@ {
        Ok(comma_first(raw_amount))
    } else {
        match spec_parse_dec(raw_amount) {
            None => Err(ConvertError::ParseFailure),
            Some(d) => {
                let code = if currency == "GBX"@ {
                    "GBP"@
                } else {
                    currency
                };
                let mant = if currency == "GBX"@ {
                    d.mantissa * 100
                } else {
                    d.mantissa
                };
                let day = date_only(date);
                if !has_date(t, day) {
                    Err(ConvertError::RateDateMissing)
                } else {
                    match rate_lookup(t, day, code) {
                        None => Err(ConvertError::RateCurrencyMissing),
                        Some(r) => Ok(
                            format_cents(
                                d.neg != r.neg,
                                cents_of(mant * r.mantissa, d.scale + r.scale),
                            ),
                        ),
                    }
                }
            },
        }
    }
}

/// Converts a withholding-tax or dividend amount into EUR on the given
/// date, formatted with the local comma decimal convention.
pub fn convert(date: &str, raw_amount: &str, currency: &str, rates: &RateTable) -> (r: Result<
    String,
    ConvertError,
>)
    ensures
        match r {
            Ok(s) => spec_convert(date@, raw_amount@, currency@, rates@) == Ok::<
                Seq<char>,
                ConvertError,
            >(s@),
            Err(e) => spec_convert(date@, raw_amount@, currency@, rates@) == Err::<
                Seq<char>,
                ConvertError,
            >(e),
        },
{
    if str_eq(currency, "EUR") {
        return Ok(commify(raw_amount));
    }
    let dec = match parse_dec(raw_amount) {
        Some(d) => d,
        None => {
            return Err(ConvertError::ParseFailure);
        },
    };
    let gbx = str_eq(currency, "GBX");
    let code: &str = if gbx {
        "GBP"
    } else {
        currency
    };
    let mant: u64 = if gbx {
        dec.mantissa * 100
    } else {
        dec.mantissa
    };
    let day = date_part(date);
    if !rates.contains_date(day) {
        return Err(ConvertError::RateDateMissing);
    }
    let rate = match rates.find_rate(day, code) {
        Some(r) => r,
        None => {
            return Err(ConvertError::RateCurrencyMissing);
        },
    };
    proof {
        assert((mant as int) * (rate.mantissa as int) < 100000000000000000000000000000000int)
            by (nonlinear_arith)
            requires
                mant < 100000000000000000,
                rate.mantissa < 1000000000000000,
        ;
    }
    let product: u128 = (mant as u128) * (rate.mantissa as u128);
    let scale: u32 = dec.scale + rate.scale;
    let c = cents_exec(product, scale);
    Ok(render_cents(dec.neg != rate.neg, c))
}

/// Law: a dividend whose currency code is EUR converts to the input amount
/// with its first decimal point replaced by a comma, unchanged otherwise;
/// no rate is consulted.
pub proof fn lemma_eur_passthrough(
    date: Seq<char>,
    raw_amount: Seq<char>,
    t: Seq<RateEntryV>,
)
    ensures
        spec_convert(date, raw_amount, "EUR"@, t) == Ok::<Seq<char>, ConvertError>(
            comma_first(raw_amount),
        ),
{
}

/// Law: a parsable GBX amount on a date present in the table converts as
/// one hundred times the amount multiplied by that date's GBP rate, rounded
/// to two decimals and rendered with a comma separator.
pub proof fn lemma_gbx_conversion(
    date: Seq<char>,
    raw_amount: Seq<char>,
    t: Seq<RateEntryV>,
    d: DecV,
    r: DecV,
)
    requires
        spec_parse_dec(raw_amount) == Some(d),
        has_date(t, date_only(date)),
        rate_lookup(t, date_only(date), "GBP"@) == Some(r),
    ensures
        spec_convert(date, raw_amount, "GBX"@, t) == Ok::<Seq<char>, ConvertError>(
            format_cents(d.neg != r.neg, cents_of((d.mantissa * 100) * r.mantissa, d.scale + r.scale)),
        ),
{
    reveal_strlit("GBX");
    reveal_strlit("EUR");
    assert("GBX"@[0] != "EUR"@[0]);
    assert("GBX"@ != "EUR"@);
}

/// Law: whatever the amount and the currency, a conversion whose date-only
/// portion is absent from the rate table fails with `RateDateMissing`.
pub proof fn lemma_rate_date_missing(
    date: Seq<char>,
    raw_amount: Seq<char>,
    currency: Seq<char>,
    t: Seq<RateEntryV>,
)
    requires
        currency != "EUR"@,
        spec_parse_dec(raw_amount) is Some,
        !has_date(t, date_only(date)),
    ensures
        spec_convert(date, raw_amount, currency, t) == Err::<Seq<char>, ConvertError>(
            ConvertError::RateDateMissing,
        ),
{
}

} // verus!
