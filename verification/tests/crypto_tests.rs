use filecabinet::crypto::{
    decrypt, encrypt, encrypt_decrypt_round_trip, get_decrypted_name, get_encrypted_name,
    is_encrypted_path, plan_decrypt_target, plan_encrypt_target,
};
use filecabinet::VaultError;

#[test]
fn test_get_decrypted_name() {
    assert_eq!(
        get_decrypted_name("/boop/loop/readme.md.cocoon"),
        "/boop/loop/readme.md"
    );
    assert_eq!(get_decrypted_name("readme.md.cocoon"), "readme.md");
}

#[test]
fn test_get_encrypted_name() {
    assert_eq!(
        get_encrypted_name("/boop/loop/readme.md"),
        "/boop/loop/readme.md.cocoon"
    );
    assert_eq!(get_encrypted_name("readme.md"), "readme.md.cocoon");
}

#[test]
fn test_suffix_round_trip() {
    let name = "statement.pdf";
    assert_eq!(get_decrypted_name(&get_encrypted_name(name)), name);
}

#[test]
fn test_is_encrypted_path() {
    assert!(is_encrypted_path("a.pdf.cocoon"));
    assert!(!is_encrypted_path("a.pdf"));
    assert!(!is_encrypted_path("oon"));
}

#[test]
fn test_encrypt_decrypt_round_trip() {
    let password = b"password";
    let plaintext = b"hello world".to_vec();
    let blob = encrypt(password, &plaintext).unwrap();
    assert_ne!(blob, plaintext);
    let recovered = decrypt(password, &blob).unwrap();
    assert_eq!(recovered, plaintext);
}

#[test]
fn test_round_trip_helper() {
    let out = encrypt_decrypt_round_trip(b"sdfasfd", b"some document bytes").unwrap();
    assert_eq!(out, b"some document bytes".to_vec());
}

#[test]
fn test_decrypt_wrong_password() {
    let blob = encrypt(b"right password", b"secret").unwrap();
    assert_eq!(
        decrypt(b"wrong password", &blob),
        Err(VaultError::AuthenticationError)
    );
}

#[test]
fn test_decrypt_tampered_container() {
    let mut blob = encrypt(b"password", b"secret bytes").unwrap();
    let last = blob.len() - 1;
    blob[last] ^= 0x01;
    assert_eq!(decrypt(b"password", &blob), Err(VaultError::AuthenticationError));
}

#[test]
fn test_decrypt_truncated_container() {
    let blob = encrypt(b"password", b"a reasonably long plaintext").unwrap();
    let truncated = &blob[..blob.len() - 5];
    assert_eq!(
        decrypt(b"password", truncated),
        Err(VaultError::AuthenticationError)
    );
}

#[test]
fn test_decrypt_extended_container() {
    let mut blob = encrypt(b"password", b"secret bytes").unwrap();
    blob.push(0x00);
    assert_eq!(decrypt(b"password", &blob), Err(VaultError::AuthenticationError));
}

#[test]
fn test_decrypt_corrupted_length_field() {
    // A container whose header declares a payload far larger than the
    // container itself must be rejected, not trip the parser's allocation.
    let mut blob = encrypt(b"password", b"secret bytes").unwrap();
    for byte in blob[36..44].iter_mut() {
        *byte = 0xff;
    }
    assert_eq!(decrypt(b"password", &blob), Err(VaultError::AuthenticationError));
}

#[test]
fn test_decrypt_garbage() {
    assert_eq!(
        decrypt(b"password", b"not a container at all"),
        Err(VaultError::AuthenticationError)
    );
}

#[test]
fn test_encrypt_freshness() {
    let a = encrypt(b"password", b"same plaintext").unwrap();
    let b = encrypt(b"password", b"same plaintext").unwrap();
    assert_ne!(a, b);
}

#[test]
fn test_plan_encrypt_target() {
    assert_eq!(plan_encrypt_target("a.pdf"), Ok("a.pdf.cocoon".to_string()));
    assert_eq!(
        plan_encrypt_target("a.pdf.cocoon"),
        Err(VaultError::AlreadyEncrypted)
    );
}

#[test]
fn test_plan_decrypt_target() {
    assert_eq!(plan_decrypt_target("a.pdf.cocoon"), Ok("a.pdf".to_string()));
    assert_eq!(plan_decrypt_target("a.pdf"), Err(VaultError::NotEncrypted));
}

#[test]
fn test_error_descriptions() {
    assert_eq!(VaultError::NotEncrypted.describe(), "not encrypted");
    assert_eq!(VaultError::AlreadyEncrypted.describe(), "already encrypted");
}
