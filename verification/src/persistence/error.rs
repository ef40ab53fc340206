//! Errors of the tables.

use vstd::prelude::*;
use std::path::PathBuf;

verus! {

/// What can go wrong with a table.
#[derive(Debug)]
pub enum PersistenceError {
    AlreadyInUse { used_path: PathBuf },
    IoError,
    JsonValueIsNotObject,
    NoSuchKeyInJsonValue,
    KeyWasAlreadyInObject,
}

} // verus!
