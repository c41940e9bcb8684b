//! The vault store: path resolution and the load/save logic around the
//! cipher codec.
//!
//! The caller (the thin I/O layer) reads and writes the vault file itself
//! and passes the file's text in and out as plain values, together with the
//! environment values that path resolution depends on; everything between
//! those edges is verified.

use vstd::prelude::*;
use vstd::string::*;
use crate::cipher::{cipher_of, decrypt, encrypt, plain_of};
use crate::credmap::CredentialMap;
use crate::custodian::get_master_key;
use crate::errors::VaultError;
use crate::jsoncodec::{json_text, parse_json};

verus! {

/// The vault file's location: the override value if the recognized
/// environment variable is set, otherwise the fixed default under the home
/// directory. The caller passes the two environment lookups in, so the path
/// is resolved fresh on every call.
pub fn get_database_filepath(file_override: Option<String>, home_dir: &str) -> (r: String)
    ensures
        file_override matches Some(p) ==> r@ == p@,
        file_override is None ==> r@ == home_dir@ + "/.vikeypass.data"@,
{
    match file_override {
        Some(p) => p,
        None => {
            let mut path = String::from_str(home_dir);
            path.append("/.vikeypass.data");
            path
        },
    }
}

/// Decrypt the vault file's text with the master key stored for `identity`
/// and parse the credential map. The caller reads the file and hands its
/// text in; errors of the credential store, of decryption and of parsing
/// are surfaced unchanged, and no partially-decoded map is ever returned.
pub fn load_database(encrypted_data: &str, identity: &str) -> (r: Result<
    CredentialMap,
    VaultError,
>)
    ensures
        r matches Ok(m) ==> m.wf(),
        r matches Ok(m) ==> exists|k: Seq<char>|
            (#[trigger] plain_of(k, encrypted_data@)) matches Some(p) && parse_json(p) == Some(
                m.entries(),
            ),
        r matches Err(e) ==> (e matches VaultError::CredentialStore(_) || e
            == VaultError::Decryption || e == VaultError::CorruptDatabase),
{
    let key = match get_master_key(identity) {
        Ok(k) => k,
        Err(e) => {
            return Err(VaultError::CredentialStore(e));
        },
    };
    let r = decrypt(encrypted_data, key.as_str());
    proof {
        if r is Ok {
            let k = key@;
            assert(plain_of(k, encrypted_data@) matches Some(p) && parse_json(p) == Some(
                r.unwrap().entries(),
            ));
        }
    }
    r
}

/// Encrypt `m` under the master key stored for `identity`. The caller
/// writes the returned base64 blob to the vault file in one all-or-nothing
/// replacement; on success the blob is an encryption of exactly the map's
/// canonical JSON text, so nothing but ciphertext ever reaches the file.
pub fn save_database(m: &CredentialMap, identity: &str) -> (r: Result<String, VaultError>)
    ensures
        r matches Err(e) ==> e matches VaultError::CredentialStore(_),
        r matches Ok(blob) ==> exists|k: Seq<char>|
            blob@ == #[trigger] cipher_of(k, json_text(m.entries())) && plain_of(k, blob@) == Some(
                json_text(m.entries()),
            ),
{
    let key = match get_master_key(identity) {
        Ok(k) => k,
        Err(e) => {
            return Err(VaultError::CredentialStore(e));
        },
    };
    let blob = encrypt(m, key.as_str());
    proof {
        let k = key@;
        assert(blob@ == cipher_of(k, json_text(m.entries())) && plain_of(k, blob@) == Some(
            json_text(m.entries()),
        ));
    }
    Ok(blob)
}

} // verus!
