//! Evaluation of price expressions: text to tokens, tokens to postfix
//! instructions, instructions to a 32-bit integer.

use vstd::prelude::*;
use self::converter::{lemma_postfix_balanced, postfix, stack};
use self::evaluator::{lemma_run_outcomes, run, Evaluator};
use self::tokenizer::{lemma_lex_outcomes, lex, tokens};

pub mod converter;
pub mod evaluator;
pub mod expression;
pub mod notation;
pub mod operation;
pub mod token;
pub mod tokenizer;

verus! {

/// Why a line or a price expression was refused.
#[derive(Debug, Clone, Copy, PartialEq, Eq, Structural)]
pub enum Error {
    /// The line does not consist of a name and a price expression.
    InvalidEntryFormat,
    /// A character that is no digit, operator, bracket or space.
    InvalidCharacter(char),
    /// A number or an intermediate result does not fit in 32 bits, or a
    /// division has a zero divisor.
    ArithmeticOverflow,
    /// The brackets of the expression do not match.
    UnbalancedParentheses,
    /// The instructions do not leave exactly one value.
    MalformedExpression,
}

/// The value of the price expression `text`: its tokens, converted to
/// postfix and run. The first stage that fails gives the error.
pub open spec fn expression_value(text: Seq<char>) -> Result<i32, Error> {
    match lex(text) {
        Ok(tokens) => match postfix(tokens) {
            Ok(instructions) => run(instructions),
            Err(error) => Err(error),
        },
        Err(error) => Err(error),
    }
}

/// Every text has an outcome: a value, or one of the four errors of the
/// stages. An `InvalidEntryFormat` never comes from an expression.
pub proof fn lemma_evaluation_outcomes(text: Seq<char>)
    ensures
        match expression_value(text) {
            Ok(_) => true,
            Err(Error::InvalidCharacter(c)) => text.contains(c),
            Err(Error::ArithmeticOverflow) => true,
            Err(Error::UnbalancedParentheses) => true,
            Err(Error::MalformedExpression) => true,
            Err(Error::InvalidEntryFormat) => false,
        },
{
    lemma_lex_outcomes(text);
    if let Ok(tokens) = lex(text) {
        lemma_postfix_balanced(tokens);
        if let Ok(instructions) = postfix(tokens) {
            lemma_run_outcomes(Seq::empty(), instructions);
        }
    }
}

/// Evaluating a text again gives the same result: the result is a function
/// of the characters alone.
pub proof fn lemma_evaluation_repeats(
    text: Seq<char>,
    first: Result<i32, Error>,
    second: Result<i32, Error>,
)
    requires
        first == expression_value(text),
        second == expression_value(text),
    ensures
        first == second,
{
}

/// Evaluates a price expression such as `(10+10)*3` to its exact value.
pub fn evaluate(input: &str) -> (result: Result<i32, Error>)
    ensures
        result == expression_value(input@),
{
    let tokens = match tokens(input) {
        Ok(tokens) => tokens,
        Err(error) => {
            return Err(error);
        },
    };
    let stack = match stack(tokens) {
        Ok(stack) => stack,
        Err(error) => {
            return Err(error);
        },
    };
    Evaluator::new(stack).evaluate()
}

} // verus!
