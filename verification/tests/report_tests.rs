use dividends::dividend::{Diag, Dividend};
use dividends::report::{reformat_date, render_report};

fn sample_dividend() -> Dividend {
    Dividend {
        date: "2023-05-09T10:00:00".to_string(),
        payer_id: "US0378331005".to_string(),
        name: "Apple".to_string(),
        address: "1 Infinite Loop".to_string(),
        country: "USA".to_string(),
        amount: "10.00".to_string(),
        tax: "12,34".to_string(),
    }
}

#[test]
fn date_transform_is_a_pure_rearrangement() {
    assert_eq!(reformat_date("2023-05-09T10:00:00"), Some("09.05.2023".to_string()));
    assert_eq!(reformat_date("2023-05-09 10:00:00"), Some("09.05.2023".to_string()));
    assert_eq!(reformat_date("2023-05-09"), Some("09.05.2023".to_string()));
    // deterministic: the same input gives the same output again
    assert_eq!(reformat_date("2023-05-09T10:00:00"), Some("09.05.2023".to_string()));
}

#[test]
fn date_without_three_components_is_rejected() {
    assert_eq!(reformat_date("garbage"), None);
    assert_eq!(reformat_date("2023-05"), None);
    assert_eq!(reformat_date("2023--09"), None);
    assert_eq!(reformat_date("-05-09"), None);
    assert_eq!(reformat_date("2023-05-"), None);
}

#[test]
fn report_is_reproduced_byte_for_byte() {
    let (text, diags) = render_report("12345678", &vec![sample_dividend()]);
    assert!(diags.is_empty());
    let expected = "#FormCode;Version;TaxPayerID;TaxPayerType;DocumentWorkflowID;;;;;;\n\n\
        DOH-DIV;3.9;12345678;FO;O;;;;;;\n\n\
        #datum prejema dividende;dav\u{10d}na \u{161}tevilka izpla\u{10d}evalca dividend;identifikacijska  \u{161}tevilka izpla\u{10d}evalca dividend;naziv izpla\u{10d}evalca dividend;naslov izpla\u{10d}evalca dividend;dr\u{17e}ava izpla\u{10d}evalca dividend;vrsta dividende;znesek dividend;tuji davek;dr\u{17e}ava vira;uveljavljam oprostitev po mednarodni pogodbi\n\n\
        09.05.2023;;US0378331005;Apple;1 Infinite Loop;USA;1;10,00;12,34;USA;\n";
    assert_eq!(text, expected);
}

#[test]
fn malformed_date_skips_row_with_diagnostic() {
    let mut bad = sample_dividend();
    bad.date = "someday".to_string();
    let (text, diags) = render_report("12345678", &vec![bad, sample_dividend()]);
    assert_eq!(diags.len(), 1);
    assert_eq!(diags[0], Diag::MalformedDate { date: "someday".to_string() });
    // the malformed row is absent, the good row is present
    assert_eq!(text.matches("09.05.2023;;").count(), 1);
    assert!(!text.contains("someday"));
}

#[test]
fn report_amount_replaces_every_dot() {
    let mut odd = sample_dividend();
    odd.amount = "1.2.3".to_string();
    let (text, diags) = render_report("12345678", &vec![odd]);
    assert!(diags.is_empty());
    assert!(text.ends_with("09.05.2023;;US0378331005;Apple;1 Infinite Loop;USA;1;1,2,3;12,34;USA;\n"));
}

#[test]
fn rows_keep_append_order() {
    let mut second = sample_dividend();
    second.date = "2023-06-01".to_string();
    second.name = "Second".to_string();
    let (text, diags) = render_report("987", &vec![sample_dividend(), second]);
    assert!(diags.is_empty());
    let first_pos = text.find("Apple").unwrap();
    let second_pos = text.find("Second").unwrap();
    assert!(first_pos < second_pos);
}

#[test]
fn empty_run_produces_header_only() {
    let (text, diags) = render_report("555", &Vec::new());
    assert!(diags.is_empty());
    assert!(text.starts_with("#FormCode;Version;TaxPayerID;TaxPayerType;DocumentWorkflowID;;;;;;\n\nDOH-DIV;3.9;555;FO;O;;;;;;\n\n"));
    assert!(text.ends_with("uveljavljam oprostitev po mednarodni pogodbi\n\n"));
}
