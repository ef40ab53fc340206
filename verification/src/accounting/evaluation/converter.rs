//! The shunting-yard converter: infix tokens to postfix instructions.

use vstd::prelude::*;
use super::Error;
use super::operation::Operation;
use super::token::{Instruction, Token};

verus! {

/// What waits on the converter's working stack: an operator that has not been
/// emitted yet, or a bracket that has not been closed yet.
#[derive(Debug, Clone, Copy, PartialEq, Eq, Structural)]
pub enum StackItem {
    Operation(Operation),
    OpenBracket,
}

/// Closing a bracket: the operators on top of `stack` move to `output`, top
/// first, down to the nearest open bracket, which is dropped. Without an open
/// bracket on the stack there is no result.
pub open spec fn close(stack: Seq<StackItem>, output: Seq<Instruction>) -> Option<
    (Seq<StackItem>, Seq<Instruction>),
>
    decreases stack.len(),
{
    if stack.len() == 0 {
        None
    } else {
        match stack.last() {
            StackItem::OpenBracket => Some((stack.drop_last(), output)),
            StackItem::Operation(operation) => close(
                stack.drop_last(),
                output.push(Instruction::Operation(operation)),
            ),
        }
    }
}

/// Making room for `incoming`: the operators on top of `stack` that bind at
/// least as tightly move to `output`, top first. An open bracket, an
/// operator that binds less tightly, or the bottom of the stack ends the move.
pub open spec fn yield_to(
    incoming: Operation,
    stack: Seq<StackItem>,
    output: Seq<Instruction>,
) -> (Seq<StackItem>, Seq<Instruction>)
    decreases stack.len(),
{
    if stack.len() == 0 {
        (stack, output)
    } else {
        match stack.last() {
            StackItem::OpenBracket => (stack, output),
            StackItem::Operation(operation) => if incoming.rank() <= operation.rank() {
                yield_to(
                    incoming,
                    stack.drop_last(),
                    output.push(Instruction::Operation(operation)),
                )
            } else {
                (stack, output)
            },
        }
    }
}

/// The end of the tokens: every operator left on `stack` moves to `output`,
/// top first. An open bracket met on the way was never closed.
pub open spec fn drain(stack: Seq<StackItem>, output: Seq<Instruction>) -> Result<
    Seq<Instruction>,
    Error,
>
    decreases stack.len(),
{
    if stack.len() == 0 {
        Ok(output)
    } else {
        match stack.last() {
            StackItem::OpenBracket => Err(Error::UnbalancedParentheses),
            StackItem::Operation(operation) => drain(
                stack.drop_last(),
                output.push(Instruction::Operation(operation)),
            ),
        }
    }
}

/// The instructions that the converter ends with when it stands at `stack` and
/// `output` and has `tokens` left to read.
pub open spec fn convert_from(
    stack: Seq<StackItem>,
    output: Seq<Instruction>,
    tokens: Seq<Token>,
) -> Result<Seq<Instruction>, Error>
    decreases tokens.len(),
{
    if tokens.len() == 0 {
        drain(stack, output)
    } else {
        let rest = tokens.drop_first();
        match tokens[0] {
            Token::Number(value) => convert_from(
                stack,
                output.push(Instruction::Number(value)),
                rest,
            ),
            Token::OpenBracket => convert_from(stack.push(StackItem::OpenBracket), output, rest),
            Token::CloseBracket => match close(stack, output) {
                Some((lower, longer)) => convert_from(lower, longer, rest),
                None => Err(Error::UnbalancedParentheses),
            },
            Token::Operation(operation) => {
                let (lower, longer) = yield_to(operation, stack, output);
                convert_from(lower.push(StackItem::Operation(operation)), longer, rest)
            },
        }
    }
}

/// The postfix form of the infix `tokens`: numbers go straight to the
/// output, operators wait on a stack until an operator that binds no tighter
/// or a closing bracket or the end of the tokens sends them after their
/// operands. Brackets that do not match are `UnbalancedParentheses`.
pub open spec fn postfix(tokens: Seq<Token>) -> Result<Seq<Instruction>, Error> {
    convert_from(Seq::empty(), Seq::empty(), tokens)
}

/// Whether the brackets of `tokens` match when `depth` brackets are open
/// already: no bracket closes what was not opened, and none stays open.
pub open spec fn brackets_match(tokens: Seq<Token>, depth: nat) -> bool
    decreases tokens.len(),
{
    if tokens.len() == 0 {
        depth == 0
    } else {
        match tokens[0] {
            Token::OpenBracket => brackets_match(tokens.drop_first(), depth + 1),
            Token::CloseBracket => depth > 0 && brackets_match(
                tokens.drop_first(),
                (depth - 1) as nat,
            ),
            _ => brackets_match(tokens.drop_first(), depth),
        }
    }
}

/// Whether every bracket of `tokens` has its partner.
pub open spec fn balanced(tokens: Seq<Token>) -> bool {
    brackets_match(tokens, 0)
}

/// Number of open brackets on `stack`.
pub open spec fn open_brackets(stack: Seq<StackItem>) -> nat
    decreases stack.len(),
{
    if stack.len() == 0 {
        0
    } else {
        open_brackets(stack.drop_last()) + if stack.last() == StackItem::OpenBracket {
            1nat
        } else {
            0nat
        }
    }
}

/// Closing succeeds exactly when a bracket is open, and closes one.
pub proof fn lemma_close_brackets(stack: Seq<StackItem>, output: Seq<Instruction>)
    ensures
        close(stack, output) is Some <==> open_brackets(stack) > 0,
        close(stack, output) matches Some((lower, _)) ==> open_brackets(lower) + 1
            == open_brackets(stack),
    decreases stack.len(),
{
    if stack.len() > 0 {
        match stack.last() {
            StackItem::OpenBracket => {},
            StackItem::Operation(operation) => {
                lemma_close_brackets(
                    stack.drop_last(),
                    output.push(Instruction::Operation(operation)),
                );
            },
        }
    }
}

/// Making room for an operator leaves the open brackets where they are.
pub proof fn lemma_yield_brackets(
    incoming: Operation,
    stack: Seq<StackItem>,
    output: Seq<Instruction>,
)
    ensures
        open_brackets(yield_to(incoming, stack, output).0) == open_brackets(stack),
    decreases stack.len(),
{
    if stack.len() > 0 {
        match stack.last() {
            StackItem::OpenBracket => {},
            StackItem::Operation(operation) => {
                if incoming.rank() <= operation.rank() {
                    lemma_yield_brackets(
                        incoming,
                        stack.drop_last(),
                        output.push(Instruction::Operation(operation)),
                    );
                }
            },
        }
    }
}

/// Draining succeeds exactly when no bracket is open.
pub proof fn lemma_drain_brackets(stack: Seq<StackItem>, output: Seq<Instruction>)
    ensures
        drain(stack, output) is Ok <==> open_brackets(stack) == 0,
        drain(stack, output) matches Err(error) ==> error == Error::UnbalancedParentheses,
    decreases stack.len(),
{
    if stack.len() > 0 {
        match stack.last() {
            StackItem::OpenBracket => {},
            StackItem::Operation(operation) => {
                lemma_drain_brackets(
                    stack.drop_last(),
                    output.push(Instruction::Operation(operation)),
                );
            },
        }
    }
}

/// From any state, the conversion succeeds exactly when the brackets of the
/// tokens left match those that are open on the stack; it fails in no other
/// way.
pub proof fn lemma_convert_brackets(
    stack: Seq<StackItem>,
    output: Seq<Instruction>,
    tokens: Seq<Token>,
)
    ensures
        convert_from(stack, output, tokens) is Ok <==> brackets_match(
            tokens,
            open_brackets(stack),
        ),
        convert_from(stack, output, tokens) matches Err(error) ==> error
            == Error::UnbalancedParentheses,
    decreases tokens.len(),
{
    if tokens.len() == 0 {
        lemma_drain_brackets(stack, output);
    } else {
        let rest = tokens.drop_first();
        match tokens[0] {
            Token::Number(value) => {
                lemma_convert_brackets(stack, output.push(Instruction::Number(value)), rest);
            },
            Token::OpenBracket => {
                let higher = stack.push(StackItem::OpenBracket);
                assert(higher.drop_last() == stack);
                lemma_convert_brackets(higher, output, rest);
            },
            Token::CloseBracket => {
                lemma_close_brackets(stack, output);
                if let Some((lower, longer)) = close(stack, output) {
                    lemma_convert_brackets(lower, longer, rest);
                }
            },
            Token::Operation(operation) => {
                lemma_yield_brackets(operation, stack, output);
                let (lower, longer) = yield_to(operation, stack, output);
                let higher = lower.push(StackItem::Operation(operation));
                assert(higher.drop_last() == lower);
                lemma_convert_brackets(higher, longer, rest);
            },
        }
    }
}

/// The conversion succeeds exactly on balanced tokens, and fails only with
/// `UnbalancedParentheses`.
pub proof fn lemma_postfix_balanced(tokens: Seq<Token>)
    ensures
        postfix(tokens) is Ok <==> balanced(tokens),
        postfix(tokens) matches Err(error) ==> error == Error::UnbalancedParentheses,
{
    lemma_convert_brackets(Seq::empty(), Seq::empty(), tokens);
}

/// Moves operators from `stack` to `instructions` down to the nearest open
/// bracket and drops that bracket; tells whether there was one.
fn close_bracket(stack: &mut Vec<StackItem>, instructions: &mut Vec<Instruction>) -> (closed: bool)
    ensures
        match close(old(stack)@, old(instructions)@) {
            Some((lower, longer)) => closed && final(stack)@ == lower && final(instructions)@
                == longer,
            None => !closed,
        },
{
    loop
        invariant
            close(stack@, instructions@) == close(old(stack)@, old(instructions)@),
        decreases stack.len(),
    {
        match stack.pop() {
            None => {
                return false;
            },
            Some(StackItem::OpenBracket) => {
                return true;
            },
            Some(StackItem::Operation(operation)) => {
                instructions.push(Instruction::Operation(operation));
            },
        }
    }
}

/// Moves the operators on top of `stack` that bind at least as tightly as
/// `incoming` to `instructions`.
fn make_room(
    incoming: Operation,
    stack: &mut Vec<StackItem>,
    instructions: &mut Vec<Instruction>,
)
    ensures
        (final(stack)@, final(instructions)@) == yield_to(
            incoming,
            old(stack)@,
            old(instructions)@,
        ),
{
    loop
        invariant
            yield_to(incoming, stack@, instructions@) == yield_to(
                incoming,
                old(stack)@,
                old(instructions)@,
            ),
        decreases stack.len(),
    {
        match stack.pop() {
            None => {
                return ;
            },
            Some(StackItem::OpenBracket) => {
                stack.push(StackItem::OpenBracket);
                return ;
            },
            Some(StackItem::Operation(waiting)) => {
                if incoming.precedence() <= waiting.precedence() {
                    instructions.push(Instruction::Operation(waiting));
                } else {
                    stack.push(StackItem::Operation(waiting));
                    return ;
                }
            },
        }
    }
}

/// Moves every operator left on `stack` to `instructions`; tells whether no
/// open bracket was in the way.
fn drain_stack(stack: &mut Vec<StackItem>, instructions: &mut Vec<Instruction>) -> (done: bool)
    ensures
        match drain(old(stack)@, old(instructions)@) {
            Ok(output) => done && final(instructions)@ == output,
            Err(_) => !done,
        },
{
    loop
        invariant
            drain(stack@, instructions@) == drain(old(stack)@, old(instructions)@),
        decreases stack.len(),
    {
        match stack.pop() {
            None => {
                return true;
            },
            Some(StackItem::OpenBracket) => {
                return false;
            },
            Some(StackItem::Operation(operation)) => {
                instructions.push(Instruction::Operation(operation));
            },
        }
    }
}

/// Converts infix tokens to postfix instructions.
///
/// The result is `Ok` exactly when the brackets of `tokens` are balanced;
/// the one error is `UnbalancedParentheses`.
pub fn stack(tokens: Vec<Token>) -> (result: Result<Vec<Instruction>, Error>)
    ensures
        result matches Ok(instructions) ==> postfix(tokens@) == Ok::<Seq<Instruction>, Error>(
            instructions@,
        ),
        result matches Err(error) ==> postfix(tokens@) == Err::<Seq<Instruction>, Error>(error),
        result is Ok <==> balanced(tokens@),
        result matches Err(error) ==> error == Error::UnbalancedParentheses,
{
    let mut instructions: Vec<Instruction> = Vec::new();
    let mut stack: Vec<StackItem> = Vec::new();
    let mut index: usize = 0;
    proof {
        lemma_postfix_balanced(tokens@);
        assert(tokens@.skip(0) == tokens@);
    }
    while index < tokens.len()
        invariant
            index <= tokens.len(),
            convert_from(stack@, instructions@, tokens@.skip(index as int)) == postfix(tokens@),
            postfix(tokens@) is Ok <==> balanced(tokens@),
        decreases tokens.len() - index,
    {
        proof {
            assert(tokens@.skip(index as int).drop_first() == tokens@.skip(index + 1));
        }
        match tokens[index] {
            Token::Number(value) => instructions.push(Instruction::Number(value)),
            Token::OpenBracket => stack.push(StackItem::OpenBracket),
            Token::CloseBracket => {
                if !close_bracket(&mut stack, &mut instructions) {
                    return Err(Error::UnbalancedParentheses);
                }
            },
            Token::Operation(value) => {
                make_room(value, &mut stack, &mut instructions);
                stack.push(StackItem::Operation(value));
            },
        }
        index = index + 1;
    }
    if drain_stack(&mut stack, &mut instructions) {
        Ok(instructions)
    } else {
        Err(Error::UnbalancedParentheses)
    }
}

} // verus!
