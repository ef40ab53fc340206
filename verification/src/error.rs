//! Errors of the application.

use vstd::prelude::*;
use std::path::PathBuf;

verus! {

/// `std::path::PathBuf`, carried through as it is.
#[verifier::external_type_specification]
#[verifier::external_body]
pub struct ExPathBuf(PathBuf);

/// What can go wrong in the application.
#[derive(Debug)]
pub enum AppError {
    ActixError { code: i32 },
    NotImplementedYet,
    Any { text: &'static str },
    InvalidRegistryPath { used_path: PathBuf },
    NumberOfLauchesExeeded,
    ProductAlreadyHasCategory { product: String, category: String },
    Calculation { reason: String },
    InvalidEnumVariant,
    NoDataForPeriod,
    InvalidDate,
    EmailNotSetUp { property: String },
    BotUsage { reason: String },
}

} // verus!
