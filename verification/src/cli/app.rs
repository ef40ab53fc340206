//! The commands of the command line.

use vstd::prelude::*;

verus! {

/// What to do with entries.
#[derive(Debug)]
pub enum EntryCmd {
    List,
    Add(String),
}

/// How to change the stored entries.
#[derive(Debug)]
pub enum MigrateCmd {
    Add(String, String),
    Remove(String),
    GenerateUid(String),
}

/// What to do with users.
#[derive(Debug)]
pub enum UserCmd {
    List,
    Add(i64),
    SetTimezone(i32),
}

/// What to do with categories.
#[derive(Debug)]
pub enum CategoryCmd {
    List,
    Add(String, String),
}

} // verus!
