//! Category commands of the bot.

use vstd::prelude::*;
use crate::error::AppError;

verus! {

/// Answers a category command: the bot has none yet.
pub fn category() -> (result: Result<String, AppError>)
    ensures
        result matches Err(AppError::NotImplementedYet),
{
    Err(AppError::NotImplementedYet)
}

} // verus!
