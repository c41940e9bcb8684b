//! Path resolution, the end-to-end save/load scenario, the exposure
//! manager's token discipline, and the custodian against the real platform
//! store.

use vikeypass::cipher::{decrypt, encrypt};
use vikeypass::credmap::CredentialMap;
use vikeypass::custodian::{get_master_key, set_master_key};
use vikeypass::errors::{CredentialStoreError, VaultError};
use vikeypass::exposure::ExposureManager;
use vikeypass::store::{get_database_filepath, load_database, save_database};

#[test]
fn path_override_wins() {
    let p = get_database_filepath(Some(String::from("/tmp/test.vault")), "/home/someone");
    assert_eq!(p, "/tmp/test.vault");
}

#[test]
fn path_defaults_under_home() {
    let p = get_database_filepath(None, "/home/someone");
    assert_eq!(p, "/home/someone/.vikeypass.data");
}

#[test]
fn end_to_end_save_then_load() {
    // The on-disk life of a vault, with the file itself simulated by the
    // blob string: save under a key, "restart", load under the same key;
    // then load under a different key fails with a decryption error.
    let mut m = CredentialMap::new();
    m.add(String::from("github"), String::from("p@ss"));
    let blob = encrypt(&m, "correct-key");

    let restored = decrypt(blob.as_str(), "correct-key").expect("load after restart succeeds");
    assert_eq!(restored.len(), 1);
    assert_eq!(restored.get("github"), Some(String::from("p@ss")));

    assert!(matches!(decrypt(blob.as_str(), "wrong-key"), Err(VaultError::Decryption)));
}

#[test]
fn exposure_tokens_grow_and_stale_clears_are_suppressed() {
    let mut mgr = ExposureManager::new();
    // Whether a clipboard exists depends on the host; both outcomes keep
    // the token discipline.
    match mgr.expose("secret123", 10000) {
        Ok(first) => {
            assert_eq!(first.window_millis, 10000);
            assert!(mgr.should_clear(first.token));
            match mgr.expose("another", 10000) {
                Ok(second) => {
                    assert!(second.token > first.token);
                    assert!(!mgr.should_clear(first.token));
                    assert!(mgr.should_clear(second.token));
                    // The stale clear must report that it did not act.
                    assert_eq!(
                        mgr.clear_exposed(first.token).expect("stale clear decides"),
                        false
                    );
                },
                Err(e) => assert!(matches!(e, VaultError::ClipboardUnavailable)),
            }
        },
        Err(e) => {
            assert!(matches!(e, VaultError::ClipboardUnavailable));
            // A failed exposure hands out no token, so nothing may clear.
            assert!(!mgr.should_clear(1));
        },
    }
}

#[test]
fn custodian_round_trip_or_typed_error() {
    // The platform credential store may be absent here; either the key
    // round-trips through it or both calls fail with a typed store error.
    match set_master_key("vikeypass-test-identity", "correct-key") {
        Ok(()) => {
            let got = get_master_key("vikeypass-test-identity").expect("stored key reads back");
            assert_eq!(got, "correct-key");
        },
        Err(e) => {
            assert!(matches!(
                e,
                CredentialStoreError::NotFound
                    | CredentialStoreError::AccessDenied
                    | CredentialStoreError::PlatformUnsupported
            ));
        },
    }
}

#[test]
fn load_database_surfaces_store_errors_or_data() {
    // With no master key stored under this identity the load fails with a
    // credential-store error; if a store is present and a key happens to be
    // set, the blob still decides the outcome.
    let mut m = CredentialMap::new();
    m.add(String::from("a"), String::from("1"));
    match save_database(&m, "vikeypass-absent-identity") {
        Ok(blob) => {
            let back = load_database(blob.as_str(), "vikeypass-absent-identity")
                .expect("saved blob loads back under the same identity");
            assert_eq!(back.get("a"), Some(String::from("1")));
        },
        Err(VaultError::CredentialStore(_)) => {
            assert!(matches!(
                load_database("irrelevant", "vikeypass-absent-identity"),
                Err(VaultError::CredentialStore(_))
            ));
        },
        Err(e) => panic!("save may only fail with a store error, got {:?}", e.message()),
    }
}

#[test]
fn error_messages_name_the_failure() {
    assert_eq!(
        VaultError::Decryption.message(),
        "decryption failed: wrong key or corrupted data"
    );
    assert_eq!(
        VaultError::CredentialStore(CredentialStoreError::NotFound).message(),
        "no master key has been set"
    );
    assert_eq!(VaultError::ClipboardUnavailable.message(), "system clipboard unavailable");
}
