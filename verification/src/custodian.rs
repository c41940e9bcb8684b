//! The master-key custodian: storing and retrieving the vault's passphrase
//! in the operating system's credential store.
//!
//! Every call re-queries the store under the fixed service name and the
//! caller's identity; nothing is cached, so a rotated key takes effect on
//! the next call. What the store answers depends wholly on the platform, so
//! the wrappers promise nothing beyond the shape of the outcome.

use vstd::prelude::*;
use crate::errors::CredentialStoreError;

verus! {

/// The entry handle type of the outside credential-store crate.
#[verifier::external_type_specification]
#[verifier::external_body]
pub struct ExEntry(keyring::Entry);

/// Relies on `keyring::Entry::new`: initializes the platform credential
/// store on first use and addresses the entry for `service` and `user`.
/// Which error comes back depends on the platform, so only the error
/// mapping is fixed: a missing entry is `NotFound`, an unusable platform is
/// `PlatformUnsupported`, everything else is `AccessDenied`.
#[verifier::external_body]
fn entry_new(service: &str, user: &str) -> (r: Result<keyring::Entry, CredentialStoreError>) {
    match keyring::Entry::new(service, user) {
        Ok(e) => Ok(e),
        Err(keyring::Error::NoEntry) => Err(CredentialStoreError::NotFound),
        Err(keyring::Error::NoDefaultStore)
        | Err(keyring::Error::Invalid(_, _))
        | Err(keyring::Error::NotSupportedByStore(_)) => Err(
            CredentialStoreError::PlatformUnsupported,
        ),
        Err(_) => Err(CredentialStoreError::AccessDenied),
    }
}

/// Relies on `keyring::Entry::set_password`: overwrites the stored secret
/// for the entry; the outcome depends on the platform store.
#[verifier::external_body]
fn entry_set_password(entry: &keyring::Entry, password: &str) -> (r: Result<
    (),
    CredentialStoreError,
>) {
    match entry.set_password(password) {
        Ok(()) => Ok(()),
        Err(keyring::Error::NoEntry) => Err(CredentialStoreError::NotFound),
        Err(keyring::Error::NoDefaultStore)
        | Err(keyring::Error::Invalid(_, _))
        | Err(keyring::Error::NotSupportedByStore(_)) => Err(
            CredentialStoreError::PlatformUnsupported,
        ),
        Err(_) => Err(CredentialStoreError::AccessDenied),
    }
}

/// Relies on `keyring::Entry::get_password`: reads the stored secret for
/// the entry; `NoEntry` means no secret was ever stored. The value depends
/// on the store's state, so nothing is promised about it.
#[verifier::external_body]
fn entry_get_password(entry: &keyring::Entry) -> (r: Result<String, CredentialStoreError>) {
    match entry.get_password() {
        Ok(p) => Ok(p),
        Err(keyring::Error::NoEntry) => Err(CredentialStoreError::NotFound),
        Err(keyring::Error::NoDefaultStore)
        | Err(keyring::Error::Invalid(_, _))
        | Err(keyring::Error::NotSupportedByStore(_)) => Err(
            CredentialStoreError::PlatformUnsupported,
        ),
        Err(_) => Err(CredentialStoreError::AccessDenied),
    }
}

/// Store `passphrase` as the vault's master key for `identity`, overwriting
/// any previous one. The outcome is the platform store's; on success the
/// passphrase has been handed to it and nowhere else.
pub fn set_master_key(identity: &str, passphrase: &str) -> (r: Result<(), CredentialStoreError>) {
    let entry = match entry_new("vikeypass", identity) {
        Ok(e) => e,
        Err(e) => {
            return Err(e);
        },
    };
    entry_set_password(&entry, passphrase)
}

/// Retrieve the master key previously stored for `identity`; `NotFound`
/// when none was ever set.
pub fn get_master_key(identity: &str) -> (r: Result<String, CredentialStoreError>) {
    let entry = match entry_new("vikeypass", identity) {
        Ok(e) => e,
        Err(e) => {
            return Err(e);
        },
    };
    entry_get_password(&entry)
}

} // verus!
