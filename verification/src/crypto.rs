//! Password-based authenticated encryption of whole files.
//!
//! Encryption is all-or-nothing over an entire plaintext; there is no
//! partial or streamed mode. A per-call symmetric key is derived from the
//! password by a memory/CPU-hard KDF over a fresh random salt, a fresh
//! random nonce seeds an AEAD cipher, and `salt ‖ nonce ‖ ciphertext ‖ tag`
//! is serialized into one opaque container blob. Paths holding a container
//! are marked by the reserved suffix, and stripping or adding that suffix is
//! bijective on paths that do not already carry it.

use crate::text::ends_with_str;
use crate::VaultError;
use vstd::prelude::*;
use vstd::string::*;

verus! {

/// The reserved suffix that marks a path as holding an encrypted container.
pub const ENCRYPTION_FILE_EXT: &'static str = ".cocoon";

/// The characters of the reserved suffix.
pub open spec fn suffix_chars() -> Seq<char> {
    seq!['.', 'c', 'o', 'c', 'o', 'o', 'n']
}

/// Whether a path carries the reserved suffix, and so names an encrypted
/// container.
pub open spec fn has_suffix(path: Seq<char>) -> bool {
    path.len() >= 7 && path.subrange(path.len() - 7, path.len() as int) == suffix_chars()
}

/// The encrypted sibling of a path: the path itself when it already carries
/// the reserved suffix, otherwise the path with the suffix appended.
pub open spec fn encrypted_name_of(path: Seq<char>) -> Seq<char> {
    if has_suffix(path) {
        path
    } else {
        path + suffix_chars()
    }
}

/// The decrypted sibling of a path: the path with the reserved suffix
/// stripped when it carries one, otherwise the path itself.
pub open spec fn decrypted_name_of(path: Seq<char>) -> Seq<char> {
    if has_suffix(path) {
        path.subrange(0, path.len() - 7)
    } else {
        path
    }
}

/// Whether the path carries the reserved suffix.
pub fn is_encrypted_path(path: &str) -> (r: bool)
    ensures
        r == has_suffix(path@),
{
    proof {
        reveal_strlit(".cocoon");
        assert((".cocoon")@ =~= suffix_chars());
    }
    ends_with_str(path, ".cocoon")
}

/// The path an encrypted container of this file goes to: the reserved
/// suffix is appended unless the path already carries it.
pub fn get_encrypted_name(path: &str) -> (r: String)
    ensures
        r@ == encrypted_name_of(path@),
{
    if is_encrypted_path(path) {
        String::from_str(path)
    } else {
        let mut out = String::from_str(path);
        out.append(ENCRYPTION_FILE_EXT);
        proof {
            reveal_strlit(".cocoon");
            assert(out@ =~= path@ + suffix_chars());
        }
        out
    }
}

/// The path a decrypted file goes to: the reserved suffix is stripped if the
/// path carries it.
pub fn get_decrypted_name(path: &str) -> (r: String)
    ensures
        r@ == decrypted_name_of(path@),
{
    let n = path.unicode_len();
    if is_encrypted_path(path) {
        String::from_str(path.substring_char(0, n - 7))
    } else {
        String::from_str(path)
    }
}

/// Stripping the reserved suffix undoes adding it: on a path not already
/// carrying the suffix, the decrypted sibling of the encrypted sibling is
/// the path itself.
pub proof fn lemma_suffix_round_trip(path: Seq<char>)
    requires
        !has_suffix(path),
    ensures
        decrypted_name_of(encrypted_name_of(path)) == path,
{
    let e = path + suffix_chars();
    assert(e.subrange(e.len() - 7, e.len() as int) =~= suffix_chars());
    assert(e.subrange(0, e.len() - 7) =~= path);
}

/// Adding the reserved suffix undoes stripping it: on a suffixed path whose
/// stripped form is not itself still suffixed (a doubly-suffixed path is the
/// one exception), the encrypted sibling of the decrypted sibling is the
/// path itself.
pub proof fn lemma_suffix_round_trip_rev(path: Seq<char>)
    requires
        has_suffix(path),
        !has_suffix(path.subrange(0, path.len() - 7)),
    ensures
        encrypted_name_of(decrypted_name_of(path)) == path,
{
    let d = path.subrange(0, path.len() - 7);
    assert(d + suffix_chars() =~= path);
}

/// What cocoon's `unwrap` returns for a password and container: `Some` of
/// the sealed plaintext exactly when the tag authenticates under the key the
/// password derives, `None` otherwise. Deterministic in its two arguments.
pub uninterp spec fn unwrap_of(password: Seq<u8>, container: Seq<u8>) -> Option<Seq<u8>>;

/// The payload length a container declares: the big-endian value of the
/// eight bytes at positions 36..44 of its header.
pub open spec fn length_field_of(container: Seq<u8>) -> int {
    container[36] * 0x100_0000_0000_0000 + container[37] * 0x1_0000_0000_0000 + container[38]
        * 0x100_0000_0000 + container[39] * 0x1_0000_0000 + container[40] * 0x100_0000
        + container[41] * 0x1_0000 + container[42] * 0x100 + container[43]
}

/// A container is well-framed when it holds at least the 60-byte prefix
/// (header and tag) and declares exactly the payload it carries. A container
/// whose declared length overruns its size is truncated; one that declares
/// less than it carries has bytes appended. Both are tampering, and the
/// declared-length check also keeps the parser's allocation within the
/// container's own size.
pub open spec fn well_formed_container(container: Seq<u8>) -> bool {
    container.len() >= 60 && length_field_of(container) == container.len() - 60
}

/// Whether a container declares exactly the payload it carries.
pub fn is_well_formed_container(container: &[u8]) -> (r: bool)
    ensures
        r == well_formed_container(container@),
{
    let n = container.len();
    if n < 60 {
        return false;
    }
    let declared: u128 = (container[36] as u128) * 0x100_0000_0000_0000 + (container[37] as u128)
        * 0x1_0000_0000_0000 + (container[38] as u128) * 0x100_0000_0000 + (container[39] as u128)
        * 0x1_0000_0000 + (container[40] as u128) * 0x100_0000 + (container[41] as u128) * 0x1_0000
        + (container[42] as u128) * 0x100 + (container[43] as u128);
    declared + 60 == n as u128
}

/// Relies on `cocoon::Cocoon::wrap`: the returned container is the 60-byte
/// prefix (header with the payload length at bytes 36..44, and tag) followed
/// by exactly the payload, sealed so that `cocoon::Cocoon::unwrap` under the
/// same password yields the plaintext back. The only failure is the AEAD's
/// deterministic length check, so wrapping succeeds below the ChaCha20
/// counter limit of 64 * (2^32 - 1) payload bytes. The salt and nonce inside
/// the container are drawn fresh from the thread's RNG, so nothing more is
/// promised of the container bytes themselves.
#[verifier::external_body]
fn seal_bytes(password: &[u8], plaintext: &[u8]) -> (r: Result<Vec<u8>, VaultError>)
    ensures
        plaintext@.len() < 0x3FFF_FFFF_C0 ==> r is Ok,
        r matches Ok(blob) ==> unwrap_of(password@, blob@) == Some(plaintext@),
        r matches Ok(blob) ==> blob@.len() == plaintext@.len() + 60 && well_formed_container(
            blob@,
        ),
        r matches Err(e) ==> e == VaultError::AuthenticationError,
{
    let mut sealer = cocoon::Cocoon::new(password);
    match sealer.wrap(plaintext) {
        Ok(blob) => Ok(blob),
        Err(_) => Err(VaultError::AuthenticationError),
    }
}

/// Relies on `cocoon::Cocoon::unwrap`: deterministic in the password and
/// container bytes; returns the sealed plaintext under the right password
/// and fails on a wrong password or a tampered, truncated or malformed
/// container. Only well-framed containers are admitted: on one whose length
/// field overruns its size, cocoon's bounds arithmetic and allocation can
/// abort instead of returning.
#[verifier::external_body]
fn open_bytes(password: &[u8], container: &[u8]) -> (r: Result<Vec<u8>, VaultError>)
    requires
        well_formed_container(container@),
    ensures
        r matches Ok(plaintext) ==> unwrap_of(password@, container@) == Some(plaintext@),
        r is Err ==> unwrap_of(password@, container@) is None,
        r matches Err(e) ==> e == VaultError::AuthenticationError,
{
    let opener = cocoon::Cocoon::parse_only(password);
    match opener.unwrap(container) {
        Ok(plaintext) => Ok(plaintext),
        Err(_) => Err(VaultError::AuthenticationError),
    }
}

/// Encrypts a whole plaintext under a password into one opaque container.
///
/// Succeeds for every plaintext below the cipher's length limit of
/// 64 * (2^32 - 1) bytes, returning a well-framed container that decrypts
/// back to the plaintext under the same password. A fresh random salt and
/// nonce go into every container, so two calls with the same password and
/// plaintext yield different blobs; beyond what decryption recovers, the
/// container bytes are therefore left unpinned.
pub fn encrypt(password: &[u8], plaintext: &[u8]) -> (r: Result<Vec<u8>, VaultError>)
    ensures
        plaintext@.len() < 0x3FFF_FFFF_C0 ==> r is Ok,
        r matches Ok(blob) ==> unwrap_of(password@, blob@) == Some(plaintext@),
        r matches Ok(blob) ==> blob@.len() == plaintext@.len() + 60 && well_formed_container(
            blob@,
        ),
        r matches Err(e) ==> e == VaultError::AuthenticationError,
{
    seal_bytes(password, plaintext)
}

/// Decrypts a container under a password.
///
/// A container that is not well-framed — too short for the 60-byte prefix,
/// truncated below its declared payload length, or extended past it — is
/// rejected outright. A well-framed container returns the sealed plaintext
/// exactly when it authenticates under the password. Every rejection is
/// [`VaultError::AuthenticationError`], and no partial plaintext is ever
/// returned.
pub fn decrypt(password: &[u8], container: &[u8]) -> (r: Result<Vec<u8>, VaultError>)
    ensures
        well_formed_container(container@) ==> (r is Ok <==> unwrap_of(password@, container@)
            is Some),
        !well_formed_container(container@) ==> r is Err,
        r matches Ok(plaintext) ==> unwrap_of(password@, container@) == Some(plaintext@),
        r matches Err(e) ==> e == VaultError::AuthenticationError,
{
    if is_well_formed_container(container) {
        open_bytes(password, container)
    } else {
        Err(VaultError::AuthenticationError)
    }
}

/// The round-trip law: for every plaintext below the cipher's length limit,
/// encrypting and then decrypting under the same password succeeds and
/// returns the original plaintext, byte for byte.
pub fn encrypt_decrypt_round_trip(password: &[u8], plaintext: &[u8]) -> (r: Result<
    Vec<u8>,
    VaultError,
>)
    ensures
        plaintext@.len() < 0x3FFF_FFFF_C0 ==> r is Ok,
        r matches Ok(out) ==> out@ == plaintext@,
        r matches Err(e) ==> e == VaultError::AuthenticationError,
{
    match encrypt(password, plaintext) {
        Ok(blob) => decrypt(password, blob.as_slice()),
        Err(e) => Err(e),
    }
}

/// Decides where an encryption run writes: the path with the reserved
/// suffix appended. A path already carrying the suffix is already in the
/// target state and is rejected.
pub fn plan_encrypt_target(path: &str) -> (r: Result<String, VaultError>)
    ensures
        r is Ok <==> !has_suffix(path@),
        r matches Ok(t) ==> t@ == encrypted_name_of(path@),
        r matches Err(e) ==> e == VaultError::AlreadyEncrypted,
{
    if is_encrypted_path(path) {
        Err(VaultError::AlreadyEncrypted)
    } else {
        Ok(get_encrypted_name(path))
    }
}

/// Decides where a decryption run writes: the path with the reserved suffix
/// stripped. A path not carrying the suffix holds no container and is
/// rejected.
pub fn plan_decrypt_target(path: &str) -> (r: Result<String, VaultError>)
    ensures
        r is Ok <==> has_suffix(path@),
        r matches Ok(t) ==> t@ == decrypted_name_of(path@),
        r matches Err(e) ==> e == VaultError::NotEncrypted,
{
    if is_encrypted_path(path) {
        Ok(get_decrypted_name(path))
    } else {
        Err(VaultError::NotEncrypted)
    }
}

} // verus!
