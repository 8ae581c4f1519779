use filecabinet::batch::{
    is_eligible, partition, plan_verify, requires_password, tally, BatchJob, OperationKind,
    Outcome,
};
use filecabinet::checksum::{check_digest, generate_line, parse_sidecar_line};
use filecabinet::config::{Config, Request};
use filecabinet::crypto::{decrypt, encrypt, get_encrypted_name};
use filecabinet::VaultError;

fn config_with(password: Option<&str>) -> Config {
    Config {
        verbose: false,
        launch_web: false,
        target_directory: ".".to_string(),
        password: password.map(|p| p.to_string()),
        file_to_decrypt: None,
        file_to_encrypt: None,
        verify: false,
        normalize: None,
    }
}

#[test]
fn test_requires_password() {
    assert!(requires_password(OperationKind::Encrypt));
    assert!(requires_password(OperationKind::Decrypt));
    assert!(!requires_password(OperationKind::Verify));
    assert!(!requires_password(OperationKind::Normalize));
}

#[test]
fn test_is_eligible() {
    assert!(is_eligible(OperationKind::Encrypt, "a.pdf"));
    assert!(!is_eligible(OperationKind::Encrypt, "a.pdf.cocoon"));
    assert!(!is_eligible(OperationKind::Encrypt, "a.pdf.sha256"));
    assert!(is_eligible(OperationKind::Decrypt, "a.pdf.cocoon"));
    assert!(!is_eligible(OperationKind::Decrypt, "a.pdf"));
    assert!(!is_eligible(OperationKind::Decrypt, "a.pdf.sha256"));
    assert!(is_eligible(OperationKind::Normalize, "anything"));
}

#[test]
fn test_partition_encrypt_excludes_encrypted() {
    let targets = vec!["a.pdf".to_string(), "b.pdf.cocoon".to_string()];
    let (included, excluded) = partition(OperationKind::Encrypt, &targets);
    assert_eq!(included, vec!["a.pdf".to_string()]);
    assert_eq!(excluded, vec!["b.pdf.cocoon".to_string()]);
}

#[test]
fn test_partition_then_encrypt_and_sidecar() {
    let targets = vec!["a.pdf".to_string(), "b.pdf.cocoon".to_string()];
    let (included, excluded) = partition(OperationKind::Encrypt, &targets);
    assert_eq!(included, vec!["a.pdf".to_string()]);
    assert_eq!(excluded, vec!["b.pdf.cocoon".to_string()]);

    let content = b"the bytes of a.pdf";
    let blob = encrypt(b"password", content).unwrap();
    let encrypted_name = get_encrypted_name(&included[0]);
    assert_eq!(encrypted_name, "a.pdf.cocoon");

    let line = generate_line(&blob, &encrypted_name);
    let rec = parse_sidecar_line(&line).unwrap();
    assert_eq!(rec.filename, "a.pdf.cocoon");
    assert!(check_digest(&rec.digest, &blob));
    assert_eq!(decrypt(b"password", &blob).unwrap(), content.to_vec());
}

#[test]
fn test_partition_decrypt() {
    let targets = vec![
        "a.pdf".to_string(),
        "b.pdf.cocoon".to_string(),
        "c.pdf.sha256".to_string(),
    ];
    let (included, excluded) = partition(OperationKind::Decrypt, &targets);
    assert_eq!(included, vec!["b.pdf.cocoon".to_string()]);
    assert_eq!(
        excluded,
        vec!["a.pdf".to_string(), "c.pdf.sha256".to_string()]
    );
}

#[test]
fn test_plan_verify_reports_missing() {
    let files = vec![
        "x.pdf".to_string(),
        "x.pdf.sha256".to_string(),
        "y.pdf".to_string(),
    ];
    let plan = plan_verify(&files);
    assert_eq!(plan.sidecars, vec!["x.pdf.sha256".to_string()]);
    assert_eq!(plan.missing, vec!["y.pdf".to_string()]);
}

#[test]
fn test_plan_verify_validates_sidecared_file() {
    let content = b"the bytes of x.pdf";
    let line = generate_line(content, "x.pdf");
    let files = vec![
        "x.pdf".to_string(),
        "x.pdf.sha256".to_string(),
        "y.pdf".to_string(),
    ];
    let plan = plan_verify(&files);
    assert_eq!(plan.missing.len(), 1);
    assert_eq!(plan.sidecars.len(), 1);
    let rec = parse_sidecar_line(&line).unwrap();
    assert_eq!(rec.filename, "x.pdf");
    assert!(check_digest(&rec.digest, content));
}

#[test]
fn test_partition_empty() {
    let (included, excluded) = partition(OperationKind::Encrypt, &Vec::new());
    assert!(included.is_empty());
    assert!(excluded.is_empty());
}

#[test]
fn test_plan_verify_empty() {
    let plan = plan_verify(&Vec::new());
    assert!(plan.sidecars.is_empty());
    assert!(plan.missing.is_empty());
}

#[test]
fn test_tally() {
    let outcomes = vec![
        Outcome::Success,
        Outcome::Failure(VaultError::IoError),
        Outcome::Success,
        Outcome::Failure(VaultError::AuthenticationError),
        Outcome::Success,
    ];
    assert_eq!(tally(&outcomes), (3, 2));
    assert_eq!(tally(&Vec::new()), (0, 0));
}

#[test]
fn test_batch_job_runnable() {
    let job = BatchJob {
        operation: OperationKind::Encrypt,
        targets: vec!["a.pdf".to_string()],
        password: Some("secret".to_string()),
    };
    assert!(job.is_runnable());
    let no_password = BatchJob {
        operation: OperationKind::Encrypt,
        targets: vec!["a.pdf".to_string()],
        password: None,
    };
    assert!(!no_password.is_runnable());
    let empty_password = BatchJob {
        operation: OperationKind::Decrypt,
        targets: vec![],
        password: Some("".to_string()),
    };
    assert!(!empty_password.is_runnable());
    let verify = BatchJob {
        operation: OperationKind::Verify,
        targets: vec![],
        password: None,
    };
    assert!(verify.is_runnable());
}

#[test]
fn test_select_request_precedence() {
    let mut config = config_with(Some("secret"));
    config.file_to_decrypt = Some(vec!["a.pdf.cocoon".to_string()]);
    config.file_to_encrypt = Some(vec!["b.pdf".to_string()]);
    config.verify = true;
    match config.select_request() {
        Some(Request::Decrypt(files)) => assert_eq!(files, vec!["a.pdf.cocoon".to_string()]),
        _ => panic!("decrypt should win the precedence"),
    }
}

#[test]
fn test_select_request_requires_password() {
    let mut config = config_with(None);
    config.file_to_encrypt = Some(vec!["b.pdf".to_string()]);
    assert!(config.select_request().is_none());

    let mut config = config_with(Some(""));
    config.file_to_encrypt = Some(vec!["b.pdf".to_string()]);
    assert!(config.select_request().is_none());
}

#[test]
fn test_select_request_verify_needs_no_password() {
    let mut config = config_with(None);
    config.verify = true;
    assert!(matches!(config.select_request(), Some(Request::Verify)));
}

#[test]
fn test_select_request_normalize_and_serve() {
    let mut config = config_with(None);
    config.normalize = Some(vec!["a.pdf".to_string()]);
    match config.select_request() {
        Some(Request::Normalize(files)) => assert_eq!(files, vec!["a.pdf".to_string()]),
        _ => panic!("normalize should be selected"),
    }
    let config = config_with(Some("secret"));
    assert!(matches!(config.select_request(), Some(Request::Serve)));
}

#[test]
fn test_select_request_serve_needs_password() {
    assert!(config_with(None).select_request().is_none());
    assert!(config_with(Some("")).select_request().is_none());
}
