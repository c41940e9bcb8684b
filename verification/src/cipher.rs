//! The cipher codec: the encrypt/decrypt round trip for the on-disk blob.
//!
//! A credential map is serialized to its canonical JSON text, encrypted with
//! an AES-256 key derived from the master passphrase, and encoded as base64.
//! The cipher itself is the outside crate's; it is deterministic in the
//! passphrase and the plaintext, so its two directions are named by the
//! uninterpreted functions `cipher_of` and `plain_of`, and everything around
//! the two trusted calls is verified against those names.

use vstd::prelude::*;
use crate::credmap::CredentialMap;
use crate::errors::VaultError;
use crate::jsoncodec::{json_text, parse_json, parse_json_exec, to_json};
use magic_crypt::MagicCryptTrait;

verus! {

/// The base64 ciphertext that the outside cipher produces for a passphrase
/// and a plaintext.
pub uninterp spec fn cipher_of(key: Seq<char>, plain: Seq<char>) -> Seq<char>;

/// The plaintext that the outside cipher recovers from a passphrase and a
/// base64 ciphertext; `None` when decoding or decryption fails.
pub uninterp spec fn plain_of(key: Seq<char>, cipher: Seq<char>) -> Option<Seq<char>>;

/// Relies on magic_crypt's `MagicCrypt256::new` and `encrypt_str_to_base64`:
/// the AES-256 key and the IV are derived from the passphrase alone (SHA-256
/// of it, and a zero IV), so the base64 ciphertext is a function of the
/// passphrase and the plaintext; CBC encryption with PKCS#7 padding, base64
/// encoding and UTF-8 are each inverted exactly by
/// `decrypt_base64_to_string` under the same passphrase.
#[verifier::external_body]
fn aes_encrypt_base64(key: &str, plain: &str) -> (r: String)
    ensures
        r@ == cipher_of(key@, plain@),
        plain_of(key@, r@) == Some(plain@),
{
    let mc: magic_crypt::MagicCrypt256 = MagicCryptTrait::new(key, None::<&str>);
    mc.encrypt_str_to_base64(plain)
}

/// Relies on magic_crypt's `decrypt_base64_to_string`: deterministic in the
/// passphrase and the ciphertext; it fails on malformed base64, on bad
/// block padding (wrong passphrase or corrupted ciphertext) and on
/// non-UTF-8 plaintext, and nothing more is promised about which inputs
/// fail.
#[verifier::external_body]
fn aes_decrypt_base64(key: &str, cipher: &str) -> (r: Option<String>)
    ensures
        (r is Some) == (plain_of(key@, cipher@) is Some),
        r matches Some(p) ==> Some(p@) == plain_of(key@, cipher@),
{
    let mc: magic_crypt::MagicCrypt256 = MagicCryptTrait::new(key, None::<&str>);
    mc.decrypt_base64_to_string(cipher).ok()
}

/// The vault round trip: decrypting an encryption of a credential map under
/// the key it was encrypted with recovers exactly the map.
///
/// `encrypt` ensures of its result what the `requires` here assumes, and
/// `decrypt` ensures `Ok` with exactly the entries that the conclusion
/// here derives, so together the two contracts give
/// `decrypt(encrypt(m, k), k) == Ok(m)` for every well-formed map `m` and
/// key `k`.
pub proof fn lemma_cipher_round_trip(
    key: Seq<char>,
    blob: Seq<char>,
    es: Seq<(Seq<char>, Seq<char>)>,
)
    requires
        crate::credmap::distinct_keys(es),
        plain_of(key, blob) == Some(json_text(es)),
    ensures
        plain_of(key, blob) matches Some(p) && parse_json(p) == Some(es),
{
    crate::jsoncodec::lemma_json_round_trip(es);
}

/// Serialize `m` to its canonical JSON text and encrypt it under
/// `master_key`. The result is a function of the map's entries and the key,
/// and decrypting it under the same key recovers exactly the canonical text.
pub fn encrypt(m: &CredentialMap, master_key: &str) -> (r: String)
    ensures
        r@ == cipher_of(master_key@, json_text(m.entries())),
        plain_of(master_key@, r@) == Some(json_text(m.entries())),
{
    let text = to_json(m);
    aes_encrypt_base64(master_key, text.as_str())
}

/// Decrypt `ciphertext` under `master_key` and parse the credential map.
///
/// Fails with `Decryption` exactly when the cipher rejects the blob (wrong
/// key, malformed base64 or corrupted data), and with `CorruptDatabase`
/// exactly when decryption succeeds but the plaintext is not a canonical
/// credential-map object; a partially-decoded map is never returned.
pub fn decrypt(ciphertext: &str, master_key: &str) -> (r: Result<CredentialMap, VaultError>)
    ensures
        match plain_of(master_key@, ciphertext@) {
            Option::None => r == Err::<CredentialMap, VaultError>(VaultError::Decryption),
            Option::Some(p) => match parse_json(p) {
                Option::None => r == Err::<CredentialMap, VaultError>(VaultError::CorruptDatabase),
                Option::Some(es) => r matches Ok(m) && m.entries() == es && m.wf() && m@
                    == crate::credmap::map_of(es),
            },
        },
{
    match aes_decrypt_base64(master_key, ciphertext) {
        Some(p) => match parse_json_exec(p.as_str()) {
            Some(m) => {
                proof {
                    m.lemma_view_is_map_of_entries();
                }
                Ok(m)
            },
            None => Err(VaultError::CorruptDatabase),
        },
        None => Err(VaultError::Decryption),
    }
}

} // verus!
