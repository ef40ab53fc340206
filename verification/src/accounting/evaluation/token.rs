//! Tokens of the infix text and instructions of the postfix program.

use vstd::prelude::*;
use super::operation::Operation;

verus! {

/// One lexical unit of a price expression.
#[derive(Debug, Clone, Copy, PartialEq, Eq, Structural)]
pub enum Token {
    Number(i32),
    Operation(Operation),
    OpenBracket,
    CloseBracket,
}

/// One step of a postfix program.
#[derive(Debug, Clone, Copy, PartialEq, Eq, Structural)]
pub enum Instruction {
    Number(i32),
    Operation(Operation),
}

} // verus!
