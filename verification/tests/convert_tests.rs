use dividends::convert::{convert, ConvertError};
use dividends::decimal::parse_dec;
use dividends::rates::RateTable;
use dividends::strutil::commify;

#[test]
fn eur_passthrough_replaces_first_dot() {
    let table = RateTable::new();
    let r = convert("2023-05-09T10:00:00", "12.34", "EUR", &table);
    assert_eq!(r, Ok("12,34".to_string()));
}

#[test]
fn eur_passthrough_no_dot_unchanged() {
    let table = RateTable::new();
    let r = convert("2023-05-09", "1234", "EUR", &table);
    assert_eq!(r, Ok("1234".to_string()));
}

#[test]
fn eur_passthrough_only_first_dot() {
    assert_eq!(commify("1.2.3"), "1,2.3".to_string());
}

#[test]
fn gbx_multiplies_by_hundred_and_uses_gbp_rate() {
    let mut table = RateTable::new();
    assert!(table.add_rate("2023-01-02", "GBP", "0.85"));
    // (1.5 * 100) * 0.85 = 127.50
    let r = convert("2023-01-02T09:00:00", "1.5", "GBX", &table);
    assert_eq!(r, Ok("127,50".to_string()));
}

#[test]
fn usd_amount_times_rate_two_decimals() {
    let mut table = RateTable::new();
    assert!(table.add_rate("2023-01-02", "USD", "1.05"));
    // 100.00 * 1.05 = 105.00, the literal amount-times-rate formula
    let r = convert("2023-01-02", "100.00", "USD", &table);
    assert_eq!(r, Ok("105,00".to_string()));
}

#[test]
fn rounding_is_half_away_from_zero() {
    let mut table = RateTable::new();
    assert!(table.add_rate("2023-01-02", "USD", "1"));
    let r = convert("2023-01-02", "2.345", "USD", &table);
    assert_eq!(r, Ok("2,35".to_string()));
}

#[test]
fn negative_amount_keeps_sign() {
    let mut table = RateTable::new();
    assert!(table.add_rate("2023-01-02", "USD", "1.05"));
    let r = convert("2023-01-02", "-1.00", "USD", &table);
    assert_eq!(r, Ok("-1,05".to_string()));
}

#[test]
fn missing_date_fails_with_rate_date_missing() {
    let mut table = RateTable::new();
    assert!(table.add_rate("2023-01-02", "USD", "1.05"));
    let r = convert("2023-01-03", "100.00", "USD", &table);
    assert_eq!(r, Err(ConvertError::RateDateMissing));
}

#[test]
fn missing_currency_fails_with_rate_currency_missing() {
    let mut table = RateTable::new();
    assert!(table.add_rate("2023-01-02", "USD", "1.05"));
    let r = convert("2023-01-02", "100.00", "GBP", &table);
    assert_eq!(r, Err(ConvertError::RateCurrencyMissing));
}

#[test]
fn unparseable_amount_fails_with_parse_failure() {
    let mut table = RateTable::new();
    assert!(table.add_rate("2023-01-02", "USD", "1.05"));
    let r = convert("2023-01-02", "abc", "USD", &table);
    assert_eq!(r, Err(ConvertError::ParseFailure));
}

#[test]
fn date_only_portion_is_used_for_lookup() {
    let mut table = RateTable::new();
    assert!(table.add_rate("2023-01-02", "USD", "1"));
    assert_eq!(convert("2023-01-02 15:30:00", "2.00", "USD", &table), Ok("2,00".to_string()));
    assert_eq!(convert("2023-01-02T15:30:00", "2.00", "USD", &table), Ok("2,00".to_string()));
}

#[test]
fn parse_dec_accepts_plain_decimals() {
    let d = parse_dec("12.34").unwrap();
    assert!(!d.neg);
    assert_eq!(d.mantissa, 1234);
    assert_eq!(d.scale, 2);
}

#[test]
fn parse_dec_accepts_sign_and_bare_fraction() {
    let d = parse_dec("-.5").unwrap();
    assert!(d.neg);
    assert_eq!(d.mantissa, 5);
    assert_eq!(d.scale, 1);
}

#[test]
fn parse_dec_rejects_malformed_strings() {
    assert!(parse_dec("").is_none());
    assert!(parse_dec("-").is_none());
    assert!(parse_dec(".").is_none());
    assert!(parse_dec("1.2.3").is_none());
    assert!(parse_dec("1,2").is_none());
    assert!(parse_dec("1234567890123456").is_none());
}

#[test]
fn parse_dec_accepts_fifteen_digits() {
    let d = parse_dec("123456789012345").unwrap();
    assert_eq!(d.mantissa, 123456789012345);
    assert_eq!(d.scale, 0);
}

#[test]
fn later_rate_entry_overrides_earlier_one() {
    let mut table = RateTable::new();
    assert!(table.add_rate("2023-01-02", "USD", "1"));
    assert!(table.add_rate("2023-01-02", "USD", "2"));
    let r = convert("2023-01-02", "1.00", "USD", &table);
    assert_eq!(r, Ok("2,00".to_string()));
}

#[test]
fn bad_rate_string_is_refused_and_table_unchanged() {
    let mut table = RateTable::new();
    assert!(!table.add_rate("2023-01-02", "USD", "x1"));
    let r = convert("2023-01-02", "1.00", "USD", &table);
    assert_eq!(r, Err(ConvertError::RateDateMissing));
}
