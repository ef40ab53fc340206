//! The four arithmetic operations of a price expression.

use vstd::prelude::*;
use super::Error;

verus! {

/// A binary arithmetic operation. All four associate to the left.
#[derive(Debug, Clone, Copy, PartialEq, Eq, Structural)]
pub enum Operation {
    Mul,
    Add,
    Sub,
    Div,
}

/// Quotient of `left` by a non-zero `right`, rounded towards zero.
pub open spec fn quotient(left: int, right: int) -> int {
    if left >= 0 && right > 0 {
        left / right
    } else if left >= 0 {
        -(left / (-right))
    } else if right > 0 {
        -((-left) / right)
    } else {
        (-left) / (-right)
    }
}

/// The exact result of applying `operation`, before it is fitted into 32 bits.
/// A division by zero has none.
pub open spec fn exact_result(operation: Operation, left: int, right: int) -> Option<int> {
    match operation {
        Operation::Add => Some(left + right),
        Operation::Sub => Some(left - right),
        Operation::Mul => Some(left * right),
        Operation::Div => if right == 0 {
            None
        } else {
            Some(quotient(left, right))
        },
    }
}

/// Whether `value` is a representable price.
pub open spec fn fits(value: int) -> bool {
    i32::MIN <= value <= i32::MAX
}

/// What `Operation::apply` returns: the exact result where it has one that
/// fits in 32 bits, and `ArithmeticOverflow` in every other case, a zero
/// divisor included.
pub open spec fn applied(operation: Operation, left: i32, right: i32) -> Result<i32, Error> {
    match exact_result(operation, left as int, right as int) {
        Some(value) => if fits(value) {
            Ok(value as i32)
        } else {
            Err(Error::ArithmeticOverflow)
        },
        None => Err(Error::ArithmeticOverflow),
    }
}

impl Operation {
    /// Binding strength: `Mul` and `Div` bind tighter than `Add` and `Sub`.
    pub open spec fn rank(self) -> int {
        match self {
            Operation::Add | Operation::Sub => 0,
            Operation::Mul | Operation::Div => 1,
        }
    }

    /// Applies the operation with overflow checks.
    pub fn apply(self, left: i32, right: i32) -> (result: Result<i32, Error>)
        ensures
            result == applied(self, left, right),
    {
        let checked = match self {
            Operation::Add => left.checked_add(right),
            Operation::Mul => left.checked_mul(right),
            Operation::Sub => left.checked_sub(right),
            Operation::Div => left.checked_div(right),
        };
        match checked {
            Some(value) => Ok(value),
            None => Err(Error::ArithmeticOverflow),
        }
    }

    /// Precedence of the operation: 0 for `Add` and `Sub`, 1 for `Mul` and `Div`.
    pub fn precedence(&self) -> (level: i32)
        ensures
            level == self.rank(),
    {
        match *self {
            Operation::Add => 0,
            Operation::Mul => 1,
            Operation::Sub => 0,
            Operation::Div => 1,
        }
    }
}

/// An addition whose exact sum lies outside the 32-bit range is an
/// `ArithmeticOverflow`; every other addition gives the exact sum.
pub proof fn lemma_addition_overflow(left: i32, right: i32)
    ensures
        !fits(left + right) ==> applied(Operation::Add, left, right) == Err::<i32, Error>(
            Error::ArithmeticOverflow,
        ),
        fits(left + right) ==> applied(Operation::Add, left, right) == Ok::<i32, Error>(
            (left + right) as i32,
        ),
{
}

/// No operation wraps around: a result, where there is one, is the exact
/// result, and the one error is `ArithmeticOverflow`.
pub proof fn lemma_applied_exact(operation: Operation, left: i32, right: i32)
    ensures
        match applied(operation, left, right) {
            Ok(value) => exact_result(operation, left as int, right as int) == Some(value as int),
            Err(error) => error == Error::ArithmeticOverflow,
        },
{
}

} // verus!
