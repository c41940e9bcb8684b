//! The cipher codec and the canonical JSON form, exercised end to end with
//! the real outside cipher linked in.

use vikeypass::cipher::{decrypt, encrypt};
use vikeypass::credmap::CredentialMap;
use vikeypass::errors::VaultError;
use vikeypass::jsoncodec::{parse_json_exec, to_json};

use magic_crypt::MagicCryptTrait;

fn sample_map() -> CredentialMap {
    let mut m = CredentialMap::new();
    m.add(String::from("github"), String::from("p@ss"));
    m.add(String::from("mail"), String::from("hunter2"));
    m
}

#[test]
fn round_trip_single_entry() {
    let mut m = CredentialMap::new();
    m.add(String::from("github"), String::from("p@ss"));
    let blob = encrypt(&m, "correct-key");
    let back = decrypt(blob.as_str(), "correct-key").expect("round trip must succeed");
    assert_eq!(back.len(), 1);
    assert_eq!(back.get("github"), Some(String::from("p@ss")));
}

#[test]
fn round_trip_empty_map() {
    let m = CredentialMap::new();
    let blob = encrypt(&m, "k");
    let back = decrypt(blob.as_str(), "k").expect("round trip must succeed");
    assert_eq!(back.len(), 0);
}

#[test]
fn round_trip_special_characters() {
    let mut m = CredentialMap::new();
    m.add(
        String::from("we\"ird\\name"),
        String::from("line1\nline2\ttabbed\r\"quoted\" \\slashed\\"),
    );
    m.add(String::from("ctl"), String::from("\u{1}\u{2}\u{1f}"));
    let blob = encrypt(&m, "key with spaces");
    let back = decrypt(blob.as_str(), "key with spaces").expect("round trip must succeed");
    assert_eq!(back.len(), 2);
    assert_eq!(
        back.get("we\"ird\\name"),
        Some(String::from("line1\nline2\ttabbed\r\"quoted\" \\slashed\\"))
    );
    assert_eq!(back.get("ctl"), Some(String::from("\u{1}\u{2}\u{1f}")));
}

#[test]
fn wrong_key_gives_decryption_error() {
    let m = sample_map();
    let blob = encrypt(&m, "correct-key");
    match decrypt(blob.as_str(), "wrong-key") {
        Err(VaultError::Decryption) => {},
        other => panic!("expected a decryption error, got {:?}", other.map(|m| m.len())),
    }
}

#[test]
fn malformed_base64_gives_decryption_error() {
    match decrypt("!!! not base64 !!!", "any-key") {
        Err(VaultError::Decryption) => {},
        other => panic!("expected a decryption error, got {:?}", other.map(|m| m.len())),
    }
}

#[test]
fn corrupt_payload_gives_corrupt_database_error() {
    // A blob that decrypts fine under the right key but whose plaintext is
    // not a credential-map object.
    let mc: magic_crypt::MagicCrypt256 = MagicCryptTrait::new("correct-key", None::<&str>);
    let blob = mc.encrypt_str_to_base64("this is not a credential map");
    match decrypt(blob.as_str(), "correct-key") {
        Err(VaultError::CorruptDatabase) => {},
        other => panic!("expected a corrupt-database error, got {:?}", other.map(|m| m.len())),
    }
}

#[test]
fn corrupt_json_distinct_from_wrong_key() {
    let mc: magic_crypt::MagicCrypt256 = MagicCryptTrait::new("k1", None::<&str>);
    let blob = mc.encrypt_str_to_base64("{\"a\":\"b\"");
    assert!(matches!(decrypt(blob.as_str(), "k1"), Err(VaultError::CorruptDatabase)));
    assert!(matches!(decrypt(blob.as_str(), "k2"), Err(VaultError::Decryption)));
}

#[test]
fn idempotent_save_blob() {
    // Saving the same map twice produces the same blob, and each decodes
    // back to the map.
    let m = sample_map();
    let blob1 = encrypt(&m, "k");
    let blob2 = encrypt(&m, "k");
    assert_eq!(blob1, blob2);
    for blob in [blob1, blob2] {
        let back = decrypt(blob.as_str(), "k").expect("round trip must succeed");
        assert_eq!(back.len(), 2);
        assert_eq!(back.get("github"), Some(String::from("p@ss")));
        assert_eq!(back.get("mail"), Some(String::from("hunter2")));
    }
}

#[test]
fn canonical_json_exact_text() {
    let m = sample_map();
    assert_eq!(to_json(&m), "{\"github\":\"p@ss\",\"mail\":\"hunter2\"}");
    let empty = CredentialMap::new();
    assert_eq!(to_json(&empty), "{}");
}

#[test]
fn canonical_json_is_real_json() {
    // The canonical form must be plain JSON: an independent parser decodes
    // it to the same mapping, escapes included.
    let mut m = CredentialMap::new();
    m.add(String::from("a\"b\\c"), String::from("x\u{0}y\nz"));
    let text = to_json(&m);
    let decoded: std::collections::HashMap<String, String> =
        serde_json::from_str(text.as_str()).expect("canonical text must be valid JSON");
    assert_eq!(decoded.len(), 1);
    assert_eq!(decoded.get("a\"b\\c"), Some(&String::from("x\u{0}y\nz")));
}

#[test]
fn parser_accepts_exactly_the_canonical_form() {
    assert!(parse_json_exec("{}").is_some());
    let m = parse_json_exec("{\"a\":\"b\",\"c\":\"d\"}").expect("canonical object parses");
    assert_eq!(m.get("a"), Some(String::from("b")));
    assert_eq!(m.get("c"), Some(String::from("d")));
    assert!(parse_json_exec("").is_none());
    assert!(parse_json_exec("{").is_none());
    assert!(parse_json_exec("{}x").is_none());
    assert!(parse_json_exec("{\"a\":\"b\"}trailing").is_none());
    assert!(parse_json_exec("{\"a\":1}").is_none());
    assert!(parse_json_exec("[\"a\"]").is_none());
}

#[test]
fn parser_rejects_duplicate_keys() {
    assert!(parse_json_exec("{\"a\":\"b\",\"a\":\"c\"}").is_none());
}

#[test]
fn parser_decodes_escapes() {
    let m = parse_json_exec("{\"q\\\"k\":\"v\\\\w\\u0009x\"}").expect("escapes parse");
    assert_eq!(m.get("q\"k"), Some(String::from("v\\w\tx")));
}
