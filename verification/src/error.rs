//! What can go wrong in a backup or a restore.
use vstd::prelude::*;

verus! {

/// The failures that the library itself decides on.
#[derive(Debug, Clone, Copy, PartialEq, Eq, Structural)]
pub enum BackupError {
    /// The target folder of a new backup exists already.
    AlreadyBackedUp,
    /// The password given for a restore is not the one the backup was made with.
    WrongPassword,
    /// OpenSSL refused the key or failed to derive, seal or open.
    Crypto,
}

} // verus!
