use vstd::prelude::*;

pub mod batch;
pub mod checksum;
pub mod codec;
pub mod config;
pub mod crypto;
pub mod text;

verus! {

/// The failure taxonomy of the vault.
///
/// Every fallible operation of the library reports one of these reasons.
/// The two state reasons are kept distinct so that a caller can tell
/// "already encrypted" apart from "not encrypted".
#[derive(Clone, Copy, Debug, PartialEq, Eq, Structural)]
pub enum VaultError {
    /// An open, read, write or rename failed.
    IoError,
    /// A sidecar line is malformed, or a filename's metadata cannot be decoded.
    FormatError,
    /// The password is wrong, or the container is tampered or corrupted.
    AuthenticationError,
    /// Encryption was requested for a path that already carries the reserved suffix.
    AlreadyEncrypted,
    /// Decryption was requested for a path that does not carry the reserved suffix.
    NotEncrypted,
    /// A sidecar references a subject file that does not exist.
    ReferenceError,
}

impl VaultError {
    /// A short human-readable reason, for per-target failure reports.
    pub fn describe(&self) -> &'static str {
        match self {
            VaultError::IoError => "input/output failure",
            VaultError::FormatError => "malformed sidecar line or undecodable metadata",
            VaultError::AuthenticationError => "wrong password or corrupted container",
            VaultError::AlreadyEncrypted => "already encrypted",
            VaultError::NotEncrypted => "not encrypted",
            VaultError::ReferenceError => "sidecar references a missing file",
        }
    }
}

} // verus!
