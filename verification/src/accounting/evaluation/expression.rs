//! What the pipeline means: expressions as trees, their infix and postfix
//! forms, and their values.

use vstd::prelude::*;
use super::Error;
use super::converter::{close, convert_from, drain, postfix, yield_to, StackItem};
use super::evaluator::{run, run_from};
use super::notation::{lemma_lex_of_written, unsigned, written};
use super::operation::{applied, Operation};
use super::token::{Instruction, Token};
use super::tokenizer::lex;
use super::expression_value;

verus! {

/// An arithmetic expression: a number, a bracketed expression, or two
/// expressions joined by an operation.
pub enum Expression {
    Number(i32),
    Group(Box<Expression>),
    Binary(Box<Expression>, Operation, Box<Expression>),
}

impl Expression {
    /// How tightly the expression holds together: the rank of its outermost
    /// operation, and more than any operation for a number or a group.
    pub open spec fn rank(self) -> int {
        match self {
            Expression::Number(_) => 2,
            Expression::Group(_) => 2,
            Expression::Binary(_, operation, _) => operation.rank(),
        }
    }

    /// Whether the tree is the reading of its own infix form: in every
    /// `left operation right`, `left` binds at least as tightly as the
    /// operation and `right` binds tighter. So `*` and `/` go before `+` and
    /// `-`, operations of one rank group from the left, and any other
    /// grouping needs a `Group`.
    pub open spec fn natural(self) -> bool
        decreases self,
    {
        match self {
            Expression::Number(_) => true,
            Expression::Group(inner) => inner.natural(),
            Expression::Binary(left, operation, right) => {
                &&& left.natural()
                &&& right.natural()
                &&& left.rank() >= operation.rank()
                &&& right.rank() > operation.rank()
            },
        }
    }

    /// The infix form: operands around their operation, brackets around
    /// each group.
    pub open spec fn infix(self) -> Seq<Token>
        decreases self,
    {
        match self {
            Expression::Number(value) => seq![Token::Number(value)],
            Expression::Group(inner) => seq![Token::OpenBracket] + inner.infix()
                + seq![Token::CloseBracket],
            Expression::Binary(left, operation, right) => left.infix()
                + seq![Token::Operation(operation)] + right.infix(),
        }
    }

    /// The postfix form: both operands, then their operation.
    pub open spec fn postorder(self) -> Seq<Instruction>
        decreases self,
    {
        match self {
            Expression::Number(value) => seq![Instruction::Number(value)],
            Expression::Group(inner) => inner.postorder(),
            Expression::Binary(left, operation, right) => left.postorder() + right.postorder()
                + seq![Instruction::Operation(operation)],
        }
    }

    /// The value: operands first, the left one before the right one, then
    /// the operation with its overflow check. The first failure is the
    /// result.
    pub open spec fn value(self) -> Result<i32, Error>
        decreases self,
    {
        match self {
            Expression::Number(value) => Ok(value),
            Expression::Group(inner) => inner.value(),
            Expression::Binary(left, operation, right) => match left.value() {
                Ok(left_value) => match right.value() {
                    Ok(right_value) => applied(operation, left_value, right_value),
                    Err(error) => Err(error),
                },
                Err(error) => Err(error),
            },
        }
    }

    /// The operations that still wait on the converter's stack when the
    /// infix form has been read, the lowest first.
    pub open spec fn waiting(self) -> Seq<StackItem>
        decreases self,
    {
        match self {
            Expression::Number(_) => Seq::empty(),
            Expression::Group(_) => Seq::empty(),
            Expression::Binary(_, operation, right) => seq![StackItem::Operation(operation)]
                + right.waiting(),
        }
    }

    /// The instructions that the converter has emitted when the infix form
    /// has been read.
    pub open spec fn emitted(self) -> Seq<Instruction>
        decreases self,
    {
        match self {
            Expression::Number(value) => seq![Instruction::Number(value)],
            Expression::Group(inner) => inner.postorder(),
            Expression::Binary(left, _, right) => left.postorder() + right.emitted(),
        }
    }
}

/// Whether `items` holds operators only, each of rank `floor` or more.
pub open spec fn operators_from(items: Seq<StackItem>, floor: int) -> bool {
    forall|i: int|
        0 <= i < items.len() ==> (#[trigger] items[i] matches StackItem::Operation(operation)
            && operation.rank() >= floor)
}

/// The operators of `items` as instructions, the top one first.
pub open spec fn unloaded(items: Seq<StackItem>) -> Seq<Instruction>
    decreases items.len(),
{
    if items.len() == 0 {
        Seq::empty()
    } else {
        match items.last() {
            StackItem::Operation(operation) => seq![Instruction::Operation(operation)]
                + unloaded(items.drop_last()),
            StackItem::OpenBracket => unloaded(items.drop_last()),
        }
    }
}

/// Whether an operation of rank `rank` stays above `stack`: the stack is
/// empty, or its top is an open bracket or an operator of lower rank.
pub open spec fn rests_on(stack: Seq<StackItem>, rank: int) -> bool {
    stack.len() > 0 ==> match stack.last() {
        StackItem::OpenBracket => true,
        StackItem::Operation(operation) => operation.rank() < rank,
    }
}

/// An operator below others leaves the stack after them.
proof fn lemma_unloaded_bottom(operation: Operation, items: Seq<StackItem>)
    ensures
        unloaded(seq![StackItem::Operation(operation)] + items) == unloaded(items)
            + seq![Instruction::Operation(operation)],
    decreases items.len(),
{
    let bottom = seq![StackItem::Operation(operation)];
    let all = bottom + items;
    if items.len() == 0 {
        assert(all == bottom);
        assert(all.drop_last() == Seq::<StackItem>::empty());
        assert(unloaded(all.drop_last()) == Seq::<Instruction>::empty());
        assert(unloaded(all) == seq![Instruction::Operation(operation)]
            + Seq::<Instruction>::empty());
        assert(unloaded(items) + seq![Instruction::Operation(operation)]
            == seq![Instruction::Operation(operation)]);
    } else {
        assert(all.last() == items.last());
        assert(all.drop_last() == bottom + items.drop_last());
        lemma_unloaded_bottom(operation, items.drop_last());
        match items.last() {
            StackItem::Operation(top) => {
                assert(seq![Instruction::Operation(top)] + (unloaded(items.drop_last())
                    + seq![Instruction::Operation(operation)]) == (seq![
                    Instruction::Operation(top),
                ] + unloaded(items.drop_last())) + seq![Instruction::Operation(operation)]);
            },
            StackItem::OpenBracket => {},
        }
    }
}

/// What waits after reading a natural expression are operators of at least
/// its rank, and with them unloaded the emitted instructions are its
/// postfix form.
proof fn lemma_waiting(expression: Expression)
    requires
        expression.natural(),
    ensures
        operators_from(expression.waiting(), expression.rank()),
        expression.emitted() + unloaded(expression.waiting()) == expression.postorder(),
    decreases expression,
{
    match expression {
        Expression::Number(value) => {
            assert(expression.emitted() + Seq::<Instruction>::empty() == expression.emitted());
        },
        Expression::Group(inner) => {
            assert(expression.emitted() + Seq::<Instruction>::empty() == expression.emitted());
        },
        Expression::Binary(left, operation, right) => {
            lemma_waiting(*right);
            lemma_unloaded_bottom(operation, right.waiting());
            let waiting = expression.waiting();
            assert forall|i: int| 0 <= i < waiting.len() implies (
            #[trigger] waiting[i] matches StackItem::Operation(other) && other.rank()
                >= operation.rank()) by {
                if i > 0 {
                    assert(waiting[i] == right.waiting()[i - 1]);
                }
            }
            assert((left.postorder() + right.emitted()) + (unloaded(right.waiting())
                + seq![Instruction::Operation(operation)]) == left.postorder() + (
            right.emitted() + unloaded(right.waiting())) + seq![
                Instruction::Operation(operation),
            ]);
        },
    }
}

/// A closing bracket unloads the operators above the nearest open bracket.
proof fn lemma_close_unloads(
    stack: Seq<StackItem>,
    items: Seq<StackItem>,
    output: Seq<Instruction>,
)
    requires
        operators_from(items, 0),
    ensures
        close(stack.push(StackItem::OpenBracket) + items, output) == Some(
            (stack, output + unloaded(items)),
        ),
    decreases items.len(),
{
    let all = stack.push(StackItem::OpenBracket) + items;
    if items.len() == 0 {
        assert(all == stack.push(StackItem::OpenBracket));
        assert(all.drop_last() == stack);
        assert(output + Seq::<Instruction>::empty() == output);
    } else {
        let operation = items.last()->Operation_0;
        let rest = items.drop_last();
        assert(all.last() == items.last());
        assert(all.drop_last() == stack.push(StackItem::OpenBracket) + rest);
        assert(operators_from(rest, 0)) by {
            assert forall|i: int| 0 <= i < rest.len() implies (
            #[trigger] rest[i] matches StackItem::Operation(other) && other.rank() >= 0) by {
                assert(rest[i] == items[i]);
            }
        }
        lemma_close_unloads(stack, rest, output.push(Instruction::Operation(operation)));
        assert(output.push(Instruction::Operation(operation)) + unloaded(rest) == output + (
        seq![Instruction::Operation(operation)] + unloaded(rest)));
    }
}

/// An incoming operator unloads the operators above it that bind at least
/// as tightly, down to what it rests on.
proof fn lemma_yield_unloads(
    incoming: Operation,
    stack: Seq<StackItem>,
    items: Seq<StackItem>,
    output: Seq<Instruction>,
)
    requires
        operators_from(items, incoming.rank()),
        rests_on(stack, incoming.rank()),
    ensures
        yield_to(incoming, stack + items, output) == (stack, output + unloaded(items)),
    decreases items.len(),
{
    let all = stack + items;
    if items.len() == 0 {
        assert(all == stack);
        assert(output + Seq::<Instruction>::empty() == output);
    } else {
        let operation = items.last()->Operation_0;
        let rest = items.drop_last();
        assert(all.last() == items.last());
        assert(all.drop_last() == stack + rest);
        assert(operators_from(rest, incoming.rank())) by {
            assert forall|i: int| 0 <= i < rest.len() implies (
            #[trigger] rest[i] matches StackItem::Operation(other) && other.rank()
                >= incoming.rank()) by {
                assert(rest[i] == items[i]);
            }
        }
        lemma_yield_unloads(incoming, stack, rest, output.push(Instruction::Operation(operation)));
        assert(output.push(Instruction::Operation(operation)) + unloaded(rest) == output + (
        seq![Instruction::Operation(operation)] + unloaded(rest)));
    }
}

/// The end of the tokens unloads a stack of operators.
proof fn lemma_drain_unloads(items: Seq<StackItem>, output: Seq<Instruction>)
    requires
        operators_from(items, 0),
    ensures
        drain(items, output) == Ok::<Seq<Instruction>, Error>(output + unloaded(items)),
    decreases items.len(),
{
    if items.len() == 0 {
        assert(output + Seq::<Instruction>::empty() == output);
    } else {
        let operation = items.last()->Operation_0;
        let rest = items.drop_last();
        assert(operators_from(rest, 0)) by {
            assert forall|i: int| 0 <= i < rest.len() implies (
            #[trigger] rest[i] matches StackItem::Operation(other) && other.rank() >= 0) by {
                assert(rest[i] == items[i]);
            }
        }
        lemma_drain_unloads(rest, output.push(Instruction::Operation(operation)));
        assert(output.push(Instruction::Operation(operation)) + unloaded(rest) == output + (
        seq![Instruction::Operation(operation)] + unloaded(rest)));
    }
}

/// Reading the infix form of a natural expression takes the converter from
/// any state on which the expression rests to the state with the
/// expression's waiting operators and emitted instructions added.
proof fn lemma_convert_expression(
    expression: Expression,
    stack: Seq<StackItem>,
    output: Seq<Instruction>,
    rest: Seq<Token>,
)
    requires
        expression.natural(),
        rests_on(stack, expression.rank()),
    ensures
        convert_from(stack, output, expression.infix() + rest) == convert_from(
            stack + expression.waiting(),
            output + expression.emitted(),
            rest,
        ),
    decreases expression,
{
    let tokens = expression.infix() + rest;
    match expression {
        Expression::Number(value) => {
            assert(tokens[0] == Token::Number(value));
            assert(tokens.drop_first() == rest);
            assert(stack + expression.waiting() == stack);
            assert(output + expression.emitted() == output.push(Instruction::Number(value)));
        },
        Expression::Group(inner) => {
            let opened = stack.push(StackItem::OpenBracket);
            let after = seq![Token::CloseBracket] + rest;
            assert(tokens[0] == Token::OpenBracket);
            assert(tokens.drop_first() == inner.infix() + after);
            lemma_convert_expression(*inner, opened, output, after);
            assert(after[0] == Token::CloseBracket);
            assert(after.drop_first() == rest);
            lemma_waiting(*inner);
            lemma_close_unloads(stack, inner.waiting(), output + inner.emitted());
            assert((output + inner.emitted()) + unloaded(inner.waiting()) == output + (
            inner.emitted() + unloaded(inner.waiting())));
            assert(stack + expression.waiting() == stack);
        },
        Expression::Binary(left, operation, right) => {
            let after_left = seq![Token::Operation(operation)] + right.infix() + rest;
            assert(tokens == left.infix() + after_left);
            lemma_convert_expression(*left, stack, output, after_left);
            assert(after_left[0] == Token::Operation(operation));
            assert(after_left.drop_first() == right.infix() + rest);
            lemma_waiting(*left);
            lemma_yield_unloads(operation, stack, left.waiting(), output + left.emitted());
            assert((output + left.emitted()) + unloaded(left.waiting()) == output + (
            left.emitted() + unloaded(left.waiting())));
            let pushed = stack.push(StackItem::Operation(operation));
            lemma_convert_expression(*right, pushed, output + left.postorder(), rest);
            assert(pushed + right.waiting() == stack + expression.waiting());
            assert((output + left.postorder()) + right.emitted() == output
                + expression.emitted());
        },
    }
}

/// The converter turns the infix form of every natural expression into its
/// postfix form: operands keep their order, and each operation follows the
/// two operands that precedence, grouping from the left and brackets give it.
pub proof fn lemma_postfix_of_infix(expression: Expression)
    requires
        expression.natural(),
    ensures
        postfix(expression.infix()) == Ok::<Seq<Instruction>, Error>(expression.postorder()),
{
    let none = Seq::<Token>::empty();
    assert(expression.infix() + none == expression.infix());
    lemma_convert_expression(expression, Seq::empty(), Seq::empty(), none);
    lemma_waiting(expression);
    assert(Seq::<StackItem>::empty() + expression.waiting() == expression.waiting());
    assert(Seq::<Instruction>::empty() + expression.emitted() == expression.emitted());
    assert(operators_from(expression.waiting(), 0));
    lemma_drain_unloads(expression.waiting(), expression.emitted());
}

/// Running the postfix form of an expression in front of further
/// instructions leaves the expression's value on the stack, or stops with
/// the expression's error.
pub proof fn lemma_run_expression(
    expression: Expression,
    values: Seq<i32>,
    rest: Seq<Instruction>,
)
    ensures
        run_from(values, expression.postorder() + rest) == match expression.value() {
            Ok(value) => run_from(values.push(value), rest),
            Err(error) => Err(error),
        },
    decreases expression,
{
    let program = expression.postorder() + rest;
    match expression {
        Expression::Number(value) => {
            assert(program[0] == Instruction::Number(value));
            assert(program.drop_first() == rest);
        },
        Expression::Group(inner) => {
            lemma_run_expression(*inner, values, rest);
        },
        Expression::Binary(left, operation, right) => {
            let last = seq![Instruction::Operation(operation)] + rest;
            let after_left = right.postorder() + last;
            assert(program == left.postorder() + after_left);
            lemma_run_expression(*left, values, after_left);
            if let Ok(left_value) = left.value() {
                let one = values.push(left_value);
                lemma_run_expression(*right, one, last);
                if let Ok(right_value) = right.value() {
                    let two = one.push(right_value);
                    assert(last[0] == Instruction::Operation(operation));
                    assert(last.drop_first() == rest);
                    assert(two.take(two.len() - 2) == values);
                }
            }
        },
    }
}

/// The evaluator computes the value of every expression from its postfix
/// form.
pub proof fn lemma_run_of_postorder(expression: Expression)
    ensures
        run(expression.postorder()) == expression.value(),
{
    let none = Seq::<Instruction>::empty();
    assert(expression.postorder() + none == expression.postorder());
    lemma_run_expression(expression, Seq::empty(), none);
    if let Ok(value) = expression.value() {
        assert(Seq::<i32>::empty().push(value).len() == 1);
    }
}

/// A text whose tokens are the infix form of a natural expression
/// evaluates to the value of that expression: multiplication and division
/// before addition and subtraction, equal ranks from the left, brackets
/// first.
pub proof fn lemma_value_of_text(text: Seq<char>, expression: Expression)
    requires
        expression.natural(),
        lex(text) == Ok::<Seq<Token>, Error>(expression.infix()),
    ensures
        expression_value(text) == expression.value(),
{
    lemma_postfix_of_infix(expression);
    lemma_run_of_postorder(expression);
}

/// Every natural expression without negative numbers, written down in
/// infix form, evaluates to its value.
pub proof fn lemma_value_of_written(expression: Expression)
    requires
        expression.natural(),
        unsigned(expression.infix()),
    ensures
        expression_value(written(expression.infix())) == expression.value(),
{
    lemma_lex_of_written(expression.infix());
    lemma_value_of_text(written(expression.infix()), expression);
}

/// A sum of two expressions whose values add up to a number outside the
/// 32-bit range evaluates to `ArithmeticOverflow`, not to a wrapped number.
pub proof fn lemma_sum_overflow(text: Seq<char>, left: Expression, right: Expression)
    requires
        left.natural(),
        right.natural(),
        right.rank() > Operation::Add.rank(),
        lex(text) == Ok::<Seq<Token>, Error>(
            Expression::Binary(Box::new(left), Operation::Add, Box::new(right)).infix(),
        ),
        left.value() matches Ok(a) && right.value() matches Ok(b) && !(i32::MIN <= a + b
            <= i32::MAX),
    ensures
        expression_value(text) == Err::<i32, Error>(Error::ArithmeticOverflow),
{
    let sum = Expression::Binary(Box::new(left), Operation::Add, Box::new(right));
    assert(sum.natural());
    lemma_value_of_text(text, sum);
}

} // verus!
