use dividends::convert::ConvertError;
use dividends::directory::{company_address, Directory};
use dividends::dividend::Diag;
use dividends::parsers::{load_revolut_dividends, load_t212_dividends};
use dividends::rates::RateTable;

fn places_with_apple() -> Directory {
    let mut places = Directory::new();
    places.add("AAPL".to_string(), "1 Infinite Loop".to_string(), "USA".to_string());
    places
}

fn aliases_with_apple() -> Directory {
    let mut aliases = Directory::new();
    aliases.add("AAPL".to_string(), "US0378331005".to_string(), "Apple Inc".to_string());
    aliases
}

const T212_HEADER: &str =
    "Action,Time,ISIN,Name,Total,Withholding tax,Currency (Withholding tax),Ticker\n";

#[test]
fn t212_eur_row_produces_one_dividend() {
    let text = format!(
        "{}Dividend (Ordinary),2023-05-09T10:00:00,US0378331005,Apple,10.00,12.34,EUR,AAPL\n",
        T212_HEADER
    );
    let rates = RateTable::new();
    let places = places_with_apple();
    let (divs, diags) = load_t212_dividends(&text, &places, &rates).unwrap();
    assert_eq!(divs.len(), 1);
    assert!(diags.is_empty());
    let d = &divs[0];
    assert_eq!(d.tax, "12,34");
    assert_eq!(d.amount, "10.00");
    assert_eq!(d.payer_id, "US0378331005");
    assert_eq!(d.name, "Apple");
    assert_eq!(d.address, "1 Infinite Loop");
    assert_eq!(d.country, "USA");
    assert_eq!(d.date, "2023-05-09T10:00:00");
}

#[test]
fn t212_non_dividend_rows_are_ignored_silently() {
    let text = format!(
        "{}Market buy,2023-05-09T10:00:00,US0378331005,Apple,10.00,12.34,EUR,AAPL\n",
        T212_HEADER
    );
    let rates = RateTable::new();
    let places = places_with_apple();
    let (divs, diags) = load_t212_dividends(&text, &places, &rates).unwrap();
    assert!(divs.is_empty());
    assert!(diags.is_empty());
}

#[test]
fn row_missing_ticker_column_gives_one_diagnostic_and_no_rows() {
    let text = "Action,Time,ISIN,Name,Total,Withholding tax,Currency (Withholding tax)\n\
                Dividend (Ordinary),2023-05-09T10:00:00,US0378331005,Apple,10.00,12.34,EUR\n";
    let rates = RateTable::new();
    let places = places_with_apple();
    let (divs, diags) = load_t212_dividends(text, &places, &rates).unwrap();
    assert!(divs.is_empty());
    assert_eq!(diags.len(), 1);
    assert_eq!(diags[0], Diag::MissingColumn { field: "Ticker".to_string() });
}

#[test]
fn unknown_ticker_is_dropped_and_remaining_rows_processed() {
    let text = format!(
        "{}Dividend (Ordinary),2023-05-09T10:00:00,XX1,Nowhere,5.00,1.00,EUR,ZZZZ\n\
         Dividend (Ordinary),2023-05-10T10:00:00,US0378331005,Apple,10.00,12.34,EUR,AAPL\n",
        T212_HEADER
    );
    let rates = RateTable::new();
    let places = places_with_apple();
    let (divs, diags) = load_t212_dividends(&text, &places, &rates).unwrap();
    assert_eq!(divs.len(), 1);
    assert_eq!(divs[0].name, "Apple");
    assert_eq!(diags.len(), 1);
    assert_eq!(
        diags[0],
        Diag::AddressMissing {
            payer_id: "XX1".to_string(),
            ticker: "ZZZZ".to_string(),
            name: "Nowhere".to_string(),
        }
    );
}

#[test]
fn date_absent_from_rate_table_drops_row_without_aborting() {
    let text = format!(
        "{}Dividend (Ordinary),2023-05-09T10:00:00,US0378331005,Apple,10.00,12.34,USD,AAPL\n\
         Dividend (Ordinary),2023-05-10T10:00:00,US0378331005,Apple,10.00,12.34,EUR,AAPL\n",
        T212_HEADER
    );
    let mut rates = RateTable::new();
    assert!(rates.add_rate("2023-05-10", "USD", "1.05"));
    let places = places_with_apple();
    let (divs, diags) = load_t212_dividends(&text, &places, &rates).unwrap();
    assert_eq!(divs.len(), 1);
    assert_eq!(divs[0].tax, "12,34");
    assert_eq!(diags.len(), 1);
    assert_eq!(
        diags[0],
        Diag::ConversionFailed {
            currency: "USD".to_string(),
            error: ConvertError::RateDateMissing,
        }
    );
}

#[test]
fn revolut_dividend_row_converts_usd_amount() {
    let text = "Type,Date,Ticker,Total Amount\nDIVIDEND,2023-01-02,AAPL,$100.00\n";
    let mut rates = RateTable::new();
    assert!(rates.add_rate("2023-01-02", "USD", "1.05"));
    let places = places_with_apple();
    let aliases = aliases_with_apple();
    let (divs, diags) = load_revolut_dividends(text, &places, &rates, &aliases).unwrap();
    assert!(diags.is_empty());
    assert_eq!(divs.len(), 1);
    let d = &divs[0];
    // 100.00 * 1.05, two decimals, comma separator
    assert_eq!(d.amount, "105,00");
    assert_eq!(d.tax, "0.00");
    assert_eq!(d.payer_id, "US0378331005");
    assert_eq!(d.name, "Apple Inc");
    assert_eq!(d.address, "1 Infinite Loop");
    assert_eq!(d.country, "USA");
}

#[test]
fn revolut_non_dividend_rows_are_ignored() {
    let text = "Type,Date,Ticker,Total Amount\nBUY,2023-01-02,AAPL,$100.00\n";
    let rates = RateTable::new();
    let places = places_with_apple();
    let aliases = aliases_with_apple();
    let (divs, diags) = load_revolut_dividends(text, &places, &rates, &aliases).unwrap();
    assert!(divs.is_empty());
    assert!(diags.is_empty());
}

#[test]
fn revolut_ticker_without_alias_is_skipped() {
    let text = "Type,Date,Ticker,Total Amount\nDIVIDEND,2023-01-02,AAPL,$100.00\n";
    let mut rates = RateTable::new();
    assert!(rates.add_rate("2023-01-02", "USD", "1.05"));
    let places = places_with_apple();
    let aliases = Directory::new();
    let (divs, diags) = load_revolut_dividends(text, &places, &rates, &aliases).unwrap();
    assert!(divs.is_empty());
    assert_eq!(diags.len(), 1);
    assert_eq!(diags[0], Diag::AliasMissing { ticker: "AAPL".to_string() });
}

#[test]
fn malformed_csv_is_fatal() {
    let text = "Type,Date,Ticker,Total Amount\nDIVIDEND,2023-01-02,AAPL\n";
    let rates = RateTable::new();
    let places = places_with_apple();
    let aliases = aliases_with_apple();
    assert!(load_revolut_dividends(text, &places, &rates, &aliases).is_err());
}

#[test]
fn company_address_resolves_known_and_unknown_tickers() {
    let places = places_with_apple();
    assert_eq!(
        company_address("AAPL", &places),
        Some(("1 Infinite Loop".to_string(), "USA".to_string()))
    );
    assert_eq!(company_address("MSFT", &places), None);
}
