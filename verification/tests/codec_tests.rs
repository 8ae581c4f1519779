use filecabinet::codec::{
    encode_filename, filter_document_files, is_document_file, is_normalized, normalize_name,
    parse_date, parse_page, to_document, Filter,
};
use filecabinet::VaultError;

#[test]
fn test_parse_page() {
    assert_eq!(parse_page(""), None);
    assert_eq!(parse_page("pg"), None);
    assert_eq!(parse_page("01"), Some("01".to_owned()));
    assert_eq!(parse_page("20"), Some("20".to_owned()));
    assert_eq!(parse_page("pg20"), Some("20".to_owned()));
}

#[test]
fn test_parse_date_hyphens() {
    assert_eq!(
        parse_date("2020-04-03_boop_loop"),
        Some("2020-04-03".to_string())
    )
}

#[test]
fn test_parse_date_no_hyphens() {
    assert_eq!(
        parse_date("20180530_boop_loop"),
        Some("2018-05-30".to_string())
    )
}

#[test]
fn test_parse_date_year_only() {
    assert_eq!(parse_date("2018_boop_loop"), Some("2018-01-01".to_string()))
}

#[test]
fn test_parse_date_no_match() {
    assert_eq!(parse_date("boop"), None);
    assert_eq!(parse_date("201"), None);
    assert_eq!(parse_date(""), None);
}

#[test]
fn test_decode_full_filename() {
    let doc = to_document("2020-04-03_BankA_Statement_pg20.pdf");
    assert_eq!(doc.date, Some("2020-04-03".to_string()));
    assert_eq!(doc.institution, Some("BankA".to_string()));
    assert_eq!(doc.name, Some("Statement".to_string()));
    assert_eq!(doc.page, Some("20".to_string()));
}

#[test]
fn test_decode_no_separator_date() {
    let doc = to_document("20180530_boop_loop");
    assert_eq!(doc.date, Some("2018-05-30".to_string()));
    assert_eq!(doc.institution, Some("boop".to_string()));
    assert_eq!(doc.name, Some("loop".to_string()));
    assert_eq!(doc.page, None);
}

#[test]
fn test_decode_year_only_fallback() {
    let doc = to_document("2018_boop_loop");
    assert_eq!(doc.date, Some("2018-01-01".to_string()));
}

#[test]
fn test_decode_missing_fields() {
    let doc = to_document("receipt.pdf");
    assert_eq!(doc.date, None);
    assert_eq!(doc.institution, None);
    assert_eq!(doc.name, None);
    assert_eq!(doc.page, None);
}

#[test]
fn test_decode_empty_filename() {
    let doc = to_document("");
    assert_eq!(doc.date, None);
    assert_eq!(doc.institution, None);
    assert_eq!(doc.name, None);
    assert_eq!(doc.page, None);
}

#[test]
fn test_encode_canonical_filename() {
    assert_eq!(
        encode_filename("2020-04-03", "BankA", "Statement", "20", "PDF"),
        "2020-04-03_BankA_Statement_20.pdf"
    );
    assert_eq!(
        encode_filename("2020-04-03", "BankA", "Statement", "20", ""),
        "2020-04-03_BankA_Statement_20"
    );
}

#[test]
fn test_encode_decode_round_trip() {
    let name = encode_filename("2020-04-03", "BankA", "Statement", "20", "pdf");
    let doc = to_document(&name);
    assert_eq!(doc.date, Some("2020-04-03".to_string()));
    assert_eq!(doc.institution, Some("BankA".to_string()));
    assert_eq!(doc.name, Some("Statement".to_string()));
    assert_eq!(doc.page, Some("20".to_string()));
}

#[test]
fn test_normalize_name() {
    assert_eq!(
        normalize_name("2020-04-03_BankA_Statement_pg20.PDF"),
        Ok("2020-04-03_BankA_Statement_20.pdf".to_string())
    );
}

#[test]
fn test_normalize_name_defaults_page() {
    assert_eq!(
        normalize_name("2018_boop_loop"),
        Ok("2018-01-01_boop_loop_1".to_string())
    );
}

#[test]
fn test_normalize_name_requires_institution_and_title() {
    assert_eq!(normalize_name("2020-04-03.pdf"), Err(VaultError::FormatError));
    assert_eq!(normalize_name("receipt.pdf"), Err(VaultError::FormatError));
}

#[test]
fn test_is_normalized() {
    assert!(is_normalized("2020-04-03_BankA_Statement_20.pdf"));
    assert!(!is_normalized("receipt.pdf"));
    assert!(!is_normalized("2020-04-03_BankA_Statement.pdf"));
}

#[test]
fn test_filter_selects() {
    let normalized = "2020-04-03_BankA_Statement_20.pdf";
    let unnormalized = "receipt.pdf";
    assert!(Filter::All.selects(normalized));
    assert!(Filter::All.selects(unnormalized));
    assert!(Filter::Normalized.selects(normalized));
    assert!(!Filter::Normalized.selects(unnormalized));
    assert!(!Filter::Unnormalized.selects(normalized));
    assert!(Filter::Unnormalized.selects(unnormalized));
}

#[test]
fn test_is_document_file() {
    assert!(is_document_file("a.pdf"));
    assert!(is_document_file("a.PDF"));
    assert!(is_document_file("b.jpg"));
    assert!(is_document_file("c.png"));
    assert!(is_document_file("d.pdf.cocoon"));
    assert!(!is_document_file("e.txt"));
    assert!(!is_document_file("no_extension"));
}

#[test]
fn test_filter_document_files() {
    let names = vec![
        "a.pdf".to_string(),
        "notes.txt".to_string(),
        "b.JPG".to_string(),
        "c.pdf.cocoon".to_string(),
    ];
    let kept = filter_document_files(&names);
    assert_eq!(
        kept,
        vec![
            "a.pdf".to_string(),
            "b.JPG".to_string(),
            "c.pdf.cocoon".to_string()
        ]
    );
}
