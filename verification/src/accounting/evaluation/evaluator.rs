//! The postfix evaluator: a stack machine over 32-bit integers.

use vstd::prelude::*;
use super::Error;
use super::operation::applied;
use super::token::Instruction;

verus! {

/// The result of running `instructions` on a machine whose stack holds
/// `values`, the top last.
///
/// A number is pushed. An operation takes the top value as its right operand
/// and the one below as its left operand and pushes the result; with fewer
/// than two values it is a `MalformedExpression`, and a result that does not
/// exist or does not fit is an `ArithmeticOverflow`. At the end exactly one
/// value must be left, else the program is a `MalformedExpression`.
pub open spec fn run_from(values: Seq<i32>, instructions: Seq<Instruction>) -> Result<i32, Error>
    decreases instructions.len(),
{
    if instructions.len() == 0 {
        if values.len() == 1 {
            Ok(values[0])
        } else {
            Err(Error::MalformedExpression)
        }
    } else {
        let rest = instructions.drop_first();
        match instructions[0] {
            Instruction::Number(value) => run_from(values.push(value), rest),
            Instruction::Operation(operation) => if values.len() < 2 {
                Err(Error::MalformedExpression)
            } else {
                let right = values[values.len() - 1];
                let left = values[values.len() - 2];
                match applied(operation, left, right) {
                    Ok(value) => run_from(values.take(values.len() - 2).push(value), rest),
                    Err(error) => Err(error),
                }
            },
        }
    }
}

/// The result of running `instructions` on an empty stack.
pub open spec fn run(instructions: Seq<Instruction>) -> Result<i32, Error> {
    run_from(Seq::empty(), instructions)
}

/// A run ends with a value, a `MalformedExpression` or an
/// `ArithmeticOverflow`: there is no other outcome.
pub proof fn lemma_run_outcomes(values: Seq<i32>, instructions: Seq<Instruction>)
    ensures
        run_from(values, instructions) matches Err(error) ==> error == Error::MalformedExpression
            || error == Error::ArithmeticOverflow,
    decreases instructions.len(),
{
    if instructions.len() > 0 {
        let rest = instructions.drop_first();
        match instructions[0] {
            Instruction::Number(value) => {
                lemma_run_outcomes(values.push(value), rest);
            },
            Instruction::Operation(operation) => {
                if values.len() >= 2 {
                    let right = values[values.len() - 1];
                    let left = values[values.len() - 2];
                    if let Ok(value) = applied(operation, left, right) {
                        lemma_run_outcomes(values.take(values.len() - 2).push(value), rest);
                    }
                }
            },
        }
    }
}

/// A postfix program, ready to run.
#[derive(Debug)]
pub struct Evaluator {
    instructions: Vec<Instruction>,
}

impl Evaluator {
    /// The instructions of the program, in the order in which they run.
    pub closed spec fn program(&self) -> Seq<Instruction> {
        self.instructions@
    }

    /// An evaluator for `instructions`.
    pub fn new(instructions: Vec<Instruction>) -> (evaluator: Evaluator)
        ensures
            evaluator.program() == instructions@,
    {
        Evaluator { instructions }
    }

    /// Runs the program on an empty stack. The program itself is left as it
    /// was. Every program has an outcome: a value, a `MalformedExpression`
    /// or an `ArithmeticOverflow`.
    pub fn evaluate(&mut self) -> (result: Result<i32, Error>)
        ensures
            result == run(old(self).program()),
            final(self).program() == old(self).program(),
            result matches Err(error) ==> error == Error::MalformedExpression || error
                == Error::ArithmeticOverflow,
    {
        let mut stack: Vec<i32> = Vec::new();
        let mut index: usize = 0;
        proof {
            lemma_run_outcomes(Seq::empty(), self.instructions@);
            assert(self.instructions@.skip(0) == self.instructions@);
        }
        while index < self.instructions.len()
            invariant
                index <= self.instructions.len(),
                self.instructions@ == old(self).instructions@,
                run_from(stack@, self.instructions@.skip(index as int)) == run(
                    self.instructions@,
                ),
                run(self.instructions@) matches Err(error) ==> error == Error::MalformedExpression
                    || error == Error::ArithmeticOverflow,
            decreases self.instructions.len() - index,
        {
            proof {
                assert(self.instructions@.skip(index as int).drop_first()
                    == self.instructions@.skip(index + 1));
            }
            match self.instructions[index] {
                Instruction::Number(value) => stack.push(value),
                Instruction::Operation(operation) => {
                    let ghost before = stack@;
                    let right_operand = stack.pop();
                    let left_operand = stack.pop();
                    match (right_operand, left_operand) {
                        (Some(right), Some(left)) => {
                            assert(stack@ == before.take(before.len() - 2));
                            match operation.apply(left, right) {
                                Ok(operation_result) => stack.push(operation_result),
                                Err(error) => {
                                    return Err(error);
                                },
                            }
                        },
                        _ => {
                            return Err(Error::MalformedExpression);
                        },
                    }
                },
            }
            index = index + 1;
        }
        let last_value = stack.pop();
        match (last_value, stack.len() == 0) {
            (Some(result), true) => Ok(result),
            _ => Err(Error::MalformedExpression),
        }
    }
}

} // verus!
