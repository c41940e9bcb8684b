//! Error taxonomy of the vault core.
//!
//! Every fallible operation returns one of these typed errors; the vault
//! never substitutes a default value for a failure.

use vstd::prelude::*;

verus! {

/// Failure while talking to the operating system's credential store.
#[derive(Debug, Clone, Copy, PartialEq, Eq, Structural)]
pub enum CredentialStoreError {
    /// No master key has ever been stored for this identity.
    NotFound,
    /// The store exists but refused access (permissions, locked keychain).
    AccessDenied,
    /// No credential store is available on this platform.
    PlatformUnsupported,
}

/// Failure while reading or writing the vault file.
#[derive(Debug, Clone, Copy, PartialEq, Eq, Structural)]
pub enum StoreIoError {
    /// The vault file does not exist.
    NotFound,
    /// The vault file exists but could not be read or replaced.
    PermissionDenied,
    /// The new contents could not be written out in full.
    WriteFailed,
}

/// Any failure of the vault core, as surfaced to the UI layer.
#[derive(Debug, Clone, Copy, PartialEq, Eq, Structural)]
pub enum VaultError {
    /// The master key could not be stored or retrieved.
    CredentialStore(CredentialStoreError),
    /// The vault file could not be read or written.
    Io(StoreIoError),
    /// The ciphertext is malformed or does not decrypt under the given key.
    /// Wrong key and corrupted ciphertext are deliberately not distinguished.
    Decryption,
    /// Decryption succeeded but the plaintext is not a valid credential map.
    CorruptDatabase,
    /// The system clipboard could not be opened.
    ClipboardUnavailable,
}

impl CredentialStoreError {
    /// A short human-readable description.
    pub fn message(&self) -> (r: &'static str)
        ensures
            r@ == self.message_spec(),
    {
        match self {
            CredentialStoreError::NotFound => "no master key has been set",
            CredentialStoreError::AccessDenied => "credential store access denied",
            CredentialStoreError::PlatformUnsupported => "no credential store on this platform",
        }
    }

    /// What `message` returns for each variant.
    pub open spec fn message_spec(&self) -> Seq<char> {
        match self {
            CredentialStoreError::NotFound => "no master key has been set"@,
            CredentialStoreError::AccessDenied => "credential store access denied"@,
            CredentialStoreError::PlatformUnsupported => "no credential store on this platform"@,
        }
    }
}

impl VaultError {
    /// A short human-readable description.
    pub fn message(&self) -> (r: &'static str)
        ensures
            r@ == self.message_spec(),
    {
        match self {
            VaultError::CredentialStore(e) => e.message(),
            VaultError::Io(StoreIoError::NotFound) => "vault file not found",
            VaultError::Io(StoreIoError::PermissionDenied) => "vault file access denied",
            VaultError::Io(StoreIoError::WriteFailed) => "vault file write failed",
            VaultError::Decryption => "decryption failed: wrong key or corrupted data",
            VaultError::CorruptDatabase => "decrypted data is not a valid credential map",
            VaultError::ClipboardUnavailable => "system clipboard unavailable",
        }
    }

    /// What `message` returns for each variant.
    pub open spec fn message_spec(&self) -> Seq<char> {
        match self {
            VaultError::CredentialStore(e) => e.message_spec(),
            VaultError::Io(StoreIoError::NotFound) => "vault file not found"@,
            VaultError::Io(StoreIoError::PermissionDenied) => "vault file access denied"@,
            VaultError::Io(StoreIoError::WriteFailed) => "vault file write failed"@,
            VaultError::Decryption => "decryption failed: wrong key or corrupted data"@,
            VaultError::CorruptDatabase => "decrypted data is not a valid credential map"@,
            VaultError::ClipboardUnavailable => "system clipboard unavailable"@,
        }
    }
}

} // verus!
