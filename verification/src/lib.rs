//! A local, single-user secrets vault: an in-memory map from account names to
//! secrets, persisted on disk as an encrypted, base64-encoded blob and
//! unlocked with a master key held in the operating system's credential store.
//!
//! The crate verifies the vault core: the credential map and its add/edit
//! semantics, the canonical JSON form of the map, the encrypt/decrypt round
//! trip for the on-disk blob, database-path resolution, command decoding, and
//! the bounded-exposure bookkeeping for secrets placed on the clipboard.
//! Calls into the cipher, the credential store and the clipboard go through
//! small trusted wrappers; everything around them is proved.

pub mod cipher;
pub mod commands;
pub mod credmap;
pub mod custodian;
pub mod errors;
pub mod exposure;
pub mod jsoncodec;
pub mod store;
pub mod strutil;
