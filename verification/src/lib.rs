//! A backup system: an input folder is archived, the archive is cut into parts,
//! and each part is sealed with a key derived from a password; a restore checks
//! the password, opens the parts, joins them and unpacks the archive.
//!
//! This crate holds the logic of both directions: the path layout of a backup,
//! the splitting and joining of archives, the record a backup keeps, the password
//! check and the key derivation and sealing (computed by OpenSSL).
pub mod chunks;
pub mod crypto;
pub mod error;
pub mod layout;
pub mod models;
pub mod paths;
pub mod record;
pub mod service;
pub mod text;

pub use crypto::generate_key;
pub use error::BackupError;
pub use models::{File, Folder};
pub use record::BackupInfo;
