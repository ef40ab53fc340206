//! The tokenizer: one pass over the characters, with a one-slot buffer for the
//! token that is still growing.

use vstd::prelude::*;
use super::Error;
use super::operation::{fits, Operation};
use super::token::Token;
use crate::text::{digit_value, is_digit};

verus! {

/// The token that the single character `c` spells, if it is an operator or a
/// bracket.
pub open spec fn symbol(c: char) -> Option<Token> {
    if c == '*' {
        Some(Token::Operation(Operation::Mul))
    } else if c == '-' {
        Some(Token::Operation(Operation::Sub))
    } else if c == '+' {
        Some(Token::Operation(Operation::Add))
    } else if c == '/' {
        Some(Token::Operation(Operation::Div))
    } else if c == '(' {
        Some(Token::OpenBracket)
    } else if c == ')' {
        Some(Token::CloseBracket)
    } else {
        None
    }
}

/// Length of the longest prefix of `text` that consists of digits.
pub open spec fn digits_len(text: Seq<char>) -> nat
    decreases text.len(),
{
    if text.len() > 0 && is_digit(text[0]) {
        1 + digits_len(text.drop_first())
    } else {
        0
    }
}

/// The number read when the digits `digits` follow a number that so far has
/// the value `value`: each digit multiplies by ten and adds itself.
pub open spec fn decimal(value: int, digits: Seq<char>) -> int
    decreases digits.len(),
{
    if digits.len() == 0 {
        value
    } else {
        decimal(10 * value + digit_value(digits[0]), digits.drop_first())
    }
}

/// `token` in front of the tokens of `rest`, or the error of `rest`.
pub open spec fn prepend(token: Token, rest: Result<Seq<Token>, Error>) -> Result<
    Seq<Token>,
    Error,
> {
    match rest {
        Ok(tokens) => Ok(seq![token] + tokens),
        Err(error) => Err(error),
    }
}

/// The prefix of a text's digits is not longer than the text.
pub proof fn lemma_digits_len_bound(text: Seq<char>)
    ensures
        digits_len(text) <= text.len(),
        forall|i: int| 0 <= i < digits_len(text) ==> is_digit(#[trigger] text[i]),
        digits_len(text) < text.len() ==> !is_digit(text[digits_len(text) as int]),
    decreases text.len(),
{
    if text.len() > 0 && is_digit(text[0]) {
        lemma_digits_len_bound(text.drop_first());
        assert forall|i: int| 0 <= i < digits_len(text) implies is_digit(#[trigger] text[i]) by {
            if i > 0 {
                assert(text[i] == text.drop_first()[i - 1]);
            }
        }
    }
}

/// The tokens of `text`, or the first error met when reading it from the left.
///
/// A digit starts a number that extends over all the digits that follow it
/// directly; a number above `i32::MAX` is an `ArithmeticOverflow`. Each of
/// `* - + / ( )` is a token of its own, a space is skipped, and any other
/// character is an `InvalidCharacter`.
pub open spec fn lex(text: Seq<char>) -> Result<Seq<Token>, Error>
    decreases text.len(),
{
    if text.len() == 0 {
        Ok(Seq::empty())
    } else if is_digit(text[0]) {
        let n = digits_len(text);
        let value = decimal(0, text.take(n as int));
        if fits(value) {
            proof {
                lemma_digits_len_bound(text);
            }
            prepend(Token::Number(value as i32), lex(text.skip(n as int)))
        } else {
            Err(Error::ArithmeticOverflow)
        }
    } else if text[0] == ' ' {
        lex(text.drop_first())
    } else {
        match symbol(text[0]) {
            Some(token) => prepend(token, lex(text.drop_first())),
            None => Err(Error::InvalidCharacter(text[0])),
        }
    }
}

/// Reading fails only on a character outside the alphabet, which the error
/// names, or on a number that is too large.
pub proof fn lemma_lex_outcomes(text: Seq<char>)
    ensures
        lex(text) matches Err(error) ==> error == Error::ArithmeticOverflow || (
        error matches Error::InvalidCharacter(c) && text.contains(c) && !is_digit(c) && c != ' '
            && symbol(c) is None),
    decreases text.len(),
{
    if text.len() > 0 {
        if is_digit(text[0]) {
            let n = digits_len(text);
            lemma_digits_len_bound(text);
            let rest = text.skip(n as int);
            lemma_lex_outcomes(rest);
            if let Err(Error::InvalidCharacter(c)) = lex(rest) {
                let at = choose|i: int| 0 <= i < rest.len() && rest[i] == c;
                assert(text[at + n] == c);
            }
        } else {
            let rest = text.drop_first();
            lemma_lex_outcomes(rest);
            if let Err(Error::InvalidCharacter(c)) = lex(rest) {
                let at = choose|i: int| 0 <= i < rest.len() && rest[i] == c;
                assert(text[at + 1] == c);
            }
            if text[0] != ' ' && symbol(text[0]) is None {
                assert(text.contains(text[0]));
            }
        }
    }
}

/// `tokens` in front of the tokens of `rest`, or the error of `rest`.
pub open spec fn prepend_all(tokens: Seq<Token>, rest: Result<Seq<Token>, Error>) -> Result<
    Seq<Token>,
    Error,
> {
    match rest {
        Ok(more) => Ok(tokens + more),
        Err(error) => Err(error),
    }
}

/// The tokens still to come when `pending` is buffered and `rest` is unread.
/// A buffered number goes on growing with the digits at the start of `rest`.
pub open spec fn resume(pending: Option<Token>, rest: Seq<char>) -> Result<Seq<Token>, Error> {
    match pending {
        Some(Token::Number(start)) => {
            let n = digits_len(rest);
            let value = decimal(start as int, rest.take(n as int));
            if fits(value) {
                prepend(Token::Number(value as i32), lex(rest.skip(n as int)))
            } else {
                Err(Error::ArithmeticOverflow)
            }
        },
        Some(token) => prepend(token, lex(rest)),
        None => lex(rest),
    }
}

/// Further digits never make a number smaller.
pub proof fn lemma_decimal_grows(value: int, digits: Seq<char>)
    requires
        0 <= value,
        forall|i: int| 0 <= i < digits.len() ==> is_digit(#[trigger] digits[i]),
    ensures
        value <= decimal(value, digits),
    decreases digits.len(),
{
    if digits.len() > 0 {
        let tail = digits.drop_first();
        assert forall|i: int| 0 <= i < tail.len() implies is_digit(#[trigger] tail[i]) by {
            assert(tail[i] == digits[i + 1]);
        }
        lemma_decimal_grows(10 * value + digit_value(digits[0]), tail);
    }
}

/// The buffered token as a sequence of no or one token.
pub open spec fn flushed(pending: Option<Token>) -> Seq<Token> {
    match pending {
        Some(token) => seq![token],
        None => Seq::empty(),
    }
}

/// What reading one more character does to the tokens still to come.
proof fn lemma_resume_step(pending: Option<Token>, rest: Seq<char>)
    requires
        rest.len() > 0,
        pending matches Some(Token::Number(value)) ==> value >= 0,
    ensures
        ({
            let c = rest[0];
            let tail = rest.drop_first();
            let digit = Token::Number(digit_value(c) as i32);
            if is_digit(c) {
                match pending {
                    Some(Token::Number(value)) => if fits(10 * value + digit_value(c)) {
                        resume(pending, rest) == resume(
                            Some(Token::Number((10 * value + digit_value(c)) as i32)),
                            tail,
                        )
                    } else {
                        resume(pending, rest) == Err::<Seq<Token>, Error>(
                            Error::ArithmeticOverflow,
                        )
                    },
                    _ => resume(pending, rest) == prepend_all(
                        flushed(pending),
                        resume(Some(digit), tail),
                    ),
                }
            } else if c == ' ' {
                resume(pending, rest) == prepend_all(flushed(pending), resume(None, tail))
            } else {
                match symbol(c) {
                    Some(token) => resume(pending, rest) == prepend_all(
                        flushed(pending),
                        resume(Some(token), tail),
                    ),
                    None => resume(pending, rest) == Err::<Seq<Token>, Error>(
                        Error::InvalidCharacter(c),
                    ),
                }
            }
        }),
{
    let c = rest[0];
    let tail = rest.drop_first();
    let n = digits_len(rest);
    lemma_digits_len_bound(rest);
    lemma_digits_len_bound(tail);
    if is_digit(c) {
        let m = digits_len(tail);
        assert(n == m + 1);
        assert(rest.take(n as int).drop_first() == tail.take(m as int));
        assert(rest.skip(n as int) == tail.skip(m as int));
        assert(rest.take(n as int)[0] == c);
        match pending {
            Some(Token::Number(value)) => {
                let grown = 10 * value + digit_value(c);
                assert(decimal(value as int, rest.take(n as int)) == decimal(
                    grown,
                    tail.take(m as int),
                ));
                if !fits(grown) {
                    lemma_decimal_grows(grown, tail.take(m as int));
                }
            },
            _ => {
                assert(decimal(0, rest.take(n as int)) == decimal(
                    digit_value(c),
                    tail.take(m as int),
                ));
                assert(lex(rest) == resume(Some(Token::Number(digit_value(c) as i32)), tail));
                lemma_flush(pending, lex(rest));
            },
        }
    } else {
        assert(n == 0);
        assert(rest.skip(0) == rest);
        match pending {
            Some(Token::Number(value)) => {
                assert(rest.take(0).len() == 0);
                assert(decimal(value as int, rest.take(0)) == value);
                assert(resume(pending, rest) == prepend(Token::Number(value), lex(rest)));
            },
            _ => {},
        }
        lemma_flush(pending, lex(rest));
        assert(resume(pending, rest) == prepend_all(flushed(pending), lex(rest)));
    }
}

/// Putting a buffered token in front is putting the flushed buffer in front.
proof fn lemma_flush(pending: Option<Token>, rest: Result<Seq<Token>, Error>)
    ensures
        pending matches Some(token) ==> prepend(token, rest) == prepend_all(flushed(pending), rest),
        pending is None ==> rest == prepend_all(flushed(pending), rest),
{
    if let Ok(more) = rest {
        assert(Seq::<Token>::empty() + more == more);
    }
}

/// Emitted tokens followed by a flushed buffer are the emitted tokens with
/// the buffer's token pushed.
proof fn lemma_prepend_flushed(
    tokens: Seq<Token>,
    pending: Option<Token>,
    rest: Result<Seq<Token>, Error>,
)
    ensures
        prepend_all(tokens, prepend_all(flushed(pending), rest)) == prepend_all(
            tokens + flushed(pending),
            rest,
        ),
{
    if let Ok(more) = rest {
        assert(tokens + (flushed(pending) + more) == (tokens + flushed(pending)) + more);
    }
}

/// The one-slot buffer of the tokenizer: the token that is not yet complete.
pub struct TokenBuilder {
    current_token: Option<Token>,
}

impl TokenBuilder {
    /// The buffered token.
    pub closed spec fn pending(&self) -> Option<Token> {
        self.current_token
    }

    /// A builder with an empty buffer.
    pub fn new() -> (builder: TokenBuilder)
        ensures
            builder.pending() is None,
    {
        TokenBuilder { current_token: None }
    }

    /// Feeds the digit `number`. A buffered number is multiplied by ten and
    /// takes the digit in, and nothing is handed out; if either step
    /// overflows, the buffer stays as it was. Any other buffer content is
    /// handed out and replaced by the number `number`.
    pub fn push_number(&mut self, number: i32) -> (result: Result<Option<Token>, Error>)
        requires
            0 <= number < 10,
        ensures
            match old(self).pending() {
                Some(Token::Number(value)) => if fits(10 * value) && fits(10 * value + number) {
                    &&& result == Ok::<Option<Token>, Error>(None)
                    &&& final(self).pending() == Some(Token::Number((10 * value + number) as i32))
                } else {
                    &&& result == Err::<Option<Token>, Error>(Error::ArithmeticOverflow)
                    &&& final(self).pending() == old(self).pending()
                },
                previous => {
                    &&& result == Ok::<Option<Token>, Error>(previous)
                    &&& final(self).pending() == Some(Token::Number(number))
                },
            },
    {
        if let Some(Token::Number(value)) = self.current_token {
            let grown = match value.checked_mul(10) {
                Some(shifted) => shifted.checked_add(number),
                None => None,
            };
            match grown {
                Some(total) => {
                    self.current_token = Some(Token::Number(total));
                    return Ok(None);
                },
                None => {
                    return Err(Error::ArithmeticOverflow);
                },
            }
        }
        let previous = self.current_token;
        self.current_token = Some(Token::Number(number));
        Ok(previous)
    }

    /// Hands out the buffered token and buffers `operation`.
    pub fn push_operation(&mut self, operation: Operation) -> (previous: Option<Token>)
        ensures
            previous == old(self).pending(),
            final(self).pending() == Some(Token::Operation(operation)),
    {
        let previous = self.current_token;
        self.current_token = Some(Token::Operation(operation));
        previous
    }

    /// Hands out the buffered token and buffers `token`.
    pub fn push_token(&mut self, token: Token) -> (previous: Option<Token>)
        ensures
            previous == old(self).pending(),
            final(self).pending() == Some(token),
    {
        let previous = self.current_token;
        self.current_token = Some(token);
        previous
    }

    /// Hands out the buffered token and leaves the buffer empty.
    pub fn next(&mut self) -> (previous: Option<Token>)
        ensures
            previous == old(self).pending(),
            final(self).pending() is None,
    {
        let previous = self.current_token;
        self.current_token = None;
        previous
    }
}

/// Splits a price expression into its tokens.
pub fn tokens(input: &str) -> (result: Result<Vec<Token>, Error>)
    ensures
        result matches Ok(tokens) ==> lex(input@) == Ok::<Seq<Token>, Error>(tokens@),
        result matches Err(error) ==> lex(input@) == Err::<Seq<Token>, Error>(error),
{
    let mut tokens: Vec<Token> = Vec::new();
    let mut token_builder = TokenBuilder::new();
    proof {
        assert(input@.skip(0) == input@);
        lemma_flush(None, lex(input@));
    }
    for ch in it: input.chars()
        invariant
            it.seq() == input@,
            lex(input@) == prepend_all(
                tokens@,
                resume(token_builder.pending(), input@.skip(it.index())),
            ),
            token_builder.pending() matches Some(Token::Number(value)) ==> value >= 0,
    {
        let ghost rest = input@.skip(it.index());
        let ghost before = token_builder.pending();
        proof {
            assert(rest[0] == ch);
            assert(rest.drop_first() == input@.skip(it.index() + 1));
            lemma_resume_step(before, rest);
        }
        let next_token = match ch {
            '0'..='9' => {
                let digit: i32 = (ch as u32 - '0' as u32) as i32;
                match token_builder.push_number(digit) {
                    Ok(previous) => previous,
                    Err(error) => {
                        return Err(error);
                    },
                }
            },
            '*' => token_builder.push_operation(Operation::Mul),
            '-' => token_builder.push_operation(Operation::Sub),
            '+' => token_builder.push_operation(Operation::Add),
            '/' => token_builder.push_operation(Operation::Div),
            '(' => token_builder.push_token(Token::OpenBracket),
            ')' => token_builder.push_token(Token::CloseBracket),
            ' ' => token_builder.next(),
            invalid_char => {
                return Err(Error::InvalidCharacter(invalid_char));
            },
        };
        proof {
            lemma_prepend_flushed(
                tokens@,
                next_token,
                resume(token_builder.pending(), rest.drop_first()),
            );
        }
        let ghost emitted = tokens@;
        if let Some(token) = next_token {
            tokens.push(token);
        }
        assert(tokens@ == emitted + flushed(next_token));
    }
    let ghost emitted = tokens@;
    let ghost last = token_builder.pending();
    proof {
        let rest = input@.skip(input@.len() as int);
        assert(rest.len() == 0);
        assert(rest.take(0) == rest);
        assert(rest.skip(0) == rest);
        lemma_flush(last, lex(rest));
        assert(resume(last, rest) == Ok::<Seq<Token>, Error>(flushed(last))) by {
            assert(flushed(last) + Seq::<Token>::empty() == flushed(last));
        }
    }
    if let Some(last_token) = token_builder.next() {
        tokens.push(last_token);
    }
    assert(tokens@ == emitted + flushed(last));
    Ok(tokens)
}

} // verus!
