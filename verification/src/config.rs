//! Program configuration and operation selection.
//!
//! A configuration arrives as independent optional flags; exactly one
//! operation is selected per invocation, by fixed precedence, and the
//! selection is rejected up front — before any file is touched — when the
//! operation requires a password and none (or an empty one) was supplied.

use vstd::prelude::*;
use vstd::string::*;

verus! {

/// The program's configuration, as handed in by the command line.
pub struct Config {
    /// Verbose reporting.
    pub verbose: bool,
    /// Launch the web front end instead of a batch run.
    pub launch_web: bool,
    /// The directory the vault works over.
    pub target_directory: String,
    /// The password, already read from its file; `None` when not supplied
    /// or when the password file was empty.
    pub password: Option<String>,
    /// Files to decrypt, when decryption was requested.
    pub file_to_decrypt: Option<Vec<String>>,
    /// Files to encrypt, when encryption was requested.
    pub file_to_encrypt: Option<Vec<String>>,
    /// Verify the integrity of all files in the target directory.
    pub verify: bool,
    /// Files to rename to their canonical metadata name.
    pub normalize: Option<Vec<String>>,
}

/// The one operation a configuration requests. Keeping the choice as a
/// single tagged value makes invalid flag combinations unrepresentable past
/// this point.
pub enum Request {
    /// Validate every sidecar under the target directory.
    Verify,
    /// Decrypt the given files.
    Decrypt(Vec<String>),
    /// Encrypt the given files.
    Encrypt(Vec<String>),
    /// Rename the given files to their canonical metadata names.
    Normalize(Vec<String>),
    /// Hand control to the web or desktop front end.
    Serve,
}

impl Config {
    /// The up-front password rule: any operation other than verify and
    /// normalize — decryption, encryption, and serving, whether requested by
    /// flag or selected by default — needs a non-empty password.
    pub open spec fn password_ok(&self) -> bool {
        (self.file_to_decrypt is Some || self.file_to_encrypt is Some || self.launch_web || (
        !self.verify && self.normalize is None)) ==> (self.password is Some
            && self.password->Some_0@.len() > 0)
    }

    /// Selects the single operation this configuration requests, by fixed
    /// precedence: decrypt, encrypt, verify, normalize, serve. Returns
    /// `None` — the caller must then terminate with a diagnostic before
    /// touching any file — exactly when the selected operation requires a
    /// password and none (or an empty one) was supplied.
    pub fn select_request(self) -> (r: Option<Request>)
        ensures
            r is Some <==> self.password_ok(),
            r matches Some(req) ==> (if self.file_to_decrypt is Some {
                req is Decrypt && req->Decrypt_0.deep_view()
                    == self.file_to_decrypt->Some_0.deep_view()
            } else if self.file_to_encrypt is Some {
                req is Encrypt && req->Encrypt_0.deep_view()
                    == self.file_to_encrypt->Some_0.deep_view()
            } else if self.verify {
                req is Verify
            } else if self.normalize is Some {
                req is Normalize && req->Normalize_0.deep_view()
                    == self.normalize->Some_0.deep_view()
            } else {
                req is Serve
            }),
    {
        let password_present = match &self.password {
            Some(p) => p.as_str().unicode_len() > 0,
            None => false,
        };
        let needs_password = self.file_to_decrypt.is_some() || self.file_to_encrypt.is_some()
            || self.launch_web || (!self.verify && self.normalize.is_none());
        if needs_password && !password_present {
            return None;
        }
        if let Some(files) = self.file_to_decrypt {
            Some(Request::Decrypt(files))
        } else if let Some(files) = self.file_to_encrypt {
            Some(Request::Encrypt(files))
        } else if self.verify {
            Some(Request::Verify)
        } else if let Some(files) = self.normalize {
            Some(Request::Normalize(files))
        } else {
            Some(Request::Serve)
        }
    }
}

} // verus!
