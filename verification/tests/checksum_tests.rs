use filecabinet::checksum::{
    check_digest, digest_hex, generate_line, is_sidecar, parse_sidecar_line, sidecar_detects_change,
    sidecar_name, sidecar_round_trip, DigestStream,
};
use filecabinet::VaultError;

#[test]
fn test_digest_hex_known_vector() {
    assert_eq!(
        digest_hex(b"hello world"),
        "b94d27b9934d3e08a52e52d7da7dabfac484efe37a5380ee9088f7ace2efcde9"
    );
}

#[test]
fn test_digest_hex_empty() {
    assert_eq!(
        digest_hex(b""),
        "e3b0c44298fc1c149afbf4c8996fb92427ae41e4649b934ca495991b7852b855"
    );
}

#[test]
fn test_digest_stream_chunks() {
    let mut stream = DigestStream::new();
    stream.update(b"hello ");
    stream.update(b"world");
    let digest = stream.finish();
    assert_eq!(digest.len(), 32);
    let whole = digest_hex(b"hello world");
    let streamed: String = digest
        .iter()
        .map(|b| format!("{:02x}", b))
        .collect::<Vec<String>>()
        .join("");
    assert_eq!(streamed, whole);
}

#[test]
fn test_sidecar_name() {
    assert_eq!(sidecar_name("a.pdf"), "a.pdf.sha256");
}

#[test]
fn test_is_sidecar() {
    assert!(is_sidecar("a.pdf.sha256"));
    assert!(!is_sidecar("a.pdf"));
    assert!(!is_sidecar("256"));
}

#[test]
fn test_generate_line_format() {
    let line = generate_line(b"hello world", "a.pdf");
    assert_eq!(
        line,
        "b94d27b9934d3e08a52e52d7da7dabfac484efe37a5380ee9088f7ace2efcde9  a.pdf\n"
    );
}

#[test]
fn test_parse_sidecar_line() {
    let rec = parse_sidecar_line(
        "b94d27b9934d3e08a52e52d7da7dabfac484efe37a5380ee9088f7ace2efcde9  a.pdf\n",
    )
    .unwrap();
    assert_eq!(
        rec.digest,
        "b94d27b9934d3e08a52e52d7da7dabfac484efe37a5380ee9088f7ace2efcde9"
    );
    assert_eq!(rec.filename, "a.pdf");
}

#[test]
fn test_parse_sidecar_line_missing_separator() {
    assert!(matches!(
        parse_sidecar_line("deadbeef a.pdf\n"),
        Err(VaultError::FormatError)
    ));
}

#[test]
fn test_generate_then_validate_unchanged() {
    let data = b"scanned document bytes";
    let line = generate_line(data, "doc.pdf");
    let rec = parse_sidecar_line(&line).unwrap();
    assert_eq!(rec.filename, "doc.pdf");
    assert!(check_digest(&rec.digest, data));
}

#[test]
fn test_generate_then_validate_changed() {
    let line = generate_line(b"original content", "doc.pdf");
    let rec = parse_sidecar_line(&line).unwrap();
    assert!(!check_digest(&rec.digest, b"changed content"));
}

#[test]
fn test_sidecar_detects_change_law() {
    assert!(!sidecar_detects_change(
        b"original content",
        b"changed content",
        "doc.pdf"
    ));
    assert!(sidecar_detects_change(
        b"original content",
        b"original content",
        "doc.pdf"
    ));
}

#[test]
fn test_sidecar_round_trip_law() {
    assert!(sidecar_round_trip(b"any bytes at all", "name with  spaces.pdf"));
    assert!(sidecar_round_trip(b"", ""));
}
