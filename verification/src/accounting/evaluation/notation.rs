//! Writing tokens down: the text that the tokenizer reads back.

use vstd::prelude::*;
use super::Error;
use super::operation::{fits, Operation};
use super::token::Token;
use super::tokenizer::{decimal, digits_len, lex, prepend, symbol};
use crate::text::{digit_value, is_digit};

verus! {

/// The character of the decimal digit `digit`.
pub open spec fn digit_char(digit: int) -> char {
    if digit == 0 {
        '0'
    } else if digit == 1 {
        '1'
    } else if digit == 2 {
        '2'
    } else if digit == 3 {
        '3'
    } else if digit == 4 {
        '4'
    } else if digit == 5 {
        '5'
    } else if digit == 6 {
        '6'
    } else if digit == 7 {
        '7'
    } else if digit == 8 {
        '8'
    } else {
        '9'
    }
}

/// The decimal digits of `number`, without leading zeros.
pub open spec fn digits_of(number: int) -> Seq<char>
    decreases number,
{
    if number < 10 {
        seq![digit_char(number)]
    } else {
        digits_of(number / 10).push(digit_char(number % 10))
    }
}

/// The characters that spell `token`.
pub open spec fn spelling(token: Token) -> Seq<char> {
    match token {
        Token::Number(value) => digits_of(value as int),
        Token::Operation(Operation::Mul) => seq!['*'],
        Token::Operation(Operation::Add) => seq!['+'],
        Token::Operation(Operation::Sub) => seq!['-'],
        Token::Operation(Operation::Div) => seq!['/'],
        Token::OpenBracket => seq!['('],
        Token::CloseBracket => seq![')'],
    }
}

/// `tokens` written down, with a space after each.
pub open spec fn written(tokens: Seq<Token>) -> Seq<char>
    decreases tokens.len(),
{
    if tokens.len() == 0 {
        Seq::empty()
    } else {
        spelling(tokens[0]) + seq![' '] + written(tokens.drop_first())
    }
}

/// Whether no number among `tokens` is negative.
pub open spec fn unsigned(tokens: Seq<Token>) -> bool {
    forall|i: int| 0 <= i < tokens.len() ==> (#[trigger] tokens[i] matches Token::Number(value)
        ==> value >= 0)
}

/// A digit more at the end multiplies by ten and adds the digit.
proof fn lemma_decimal_push(value: int, digits: Seq<char>, last: char)
    ensures
        decimal(value, digits.push(last)) == 10 * decimal(value, digits) + digit_value(last),
    decreases digits.len(),
{
    let longer = digits.push(last);
    if digits.len() == 0 {
        assert(longer.drop_first().len() == 0);
        assert(longer[0] == last);
        assert(decimal(value, digits) == value);
        assert(decimal(10 * value + digit_value(last), longer.drop_first()) == 10 * value
            + digit_value(last));
        assert(decimal(value, longer) == decimal(
            10 * value + digit_value(last),
            longer.drop_first(),
        ));
    } else {
        let next = 10 * value + digit_value(digits[0]);
        assert(longer[0] == digits[0]);
        assert(longer.drop_first() == digits.drop_first().push(last));
        lemma_decimal_push(next, digits.drop_first(), last);
        assert(decimal(value, longer) == decimal(next, longer.drop_first()));
        assert(decimal(value, digits) == decimal(next, digits.drop_first()));
    }
}

/// The digits of a number are digits, and spell the number.
proof fn lemma_digits_of(number: int)
    requires
        0 <= number,
    ensures
        digits_of(number).len() > 0,
        forall|i: int| 0 <= i < digits_of(number).len() ==> is_digit(#[trigger] digits_of(number)[i]),
        decimal(0, digits_of(number)) == number,
    decreases number,
{
    if number < 10 {
        let only = digits_of(number);
        assert(only.drop_first().len() == 0);
        assert(digit_value(only[0]) == number);
        assert(decimal(number, only.drop_first()) == number);
        assert(decimal(0, only) == decimal(10 * 0 + digit_value(only[0]), only.drop_first()));
    } else {
        let front = digits_of(number / 10);
        let last = digit_char(number % 10);
        lemma_digits_of(number / 10);
        lemma_decimal_push(0, front, last);
        assert(digit_value(last) == number % 10);
        assert forall|i: int| 0 <= i < digits_of(number).len() implies is_digit(
            #[trigger] digits_of(number)[i],
        ) by {
            if i < front.len() {
                assert(digits_of(number)[i] == front[i]);
            }
        }
    }
}

/// Digits up to a character that is none are the longest prefix of digits.
proof fn lemma_digits_len(text: Seq<char>, length: int)
    requires
        0 <= length <= text.len(),
        forall|i: int| 0 <= i < length ==> is_digit(#[trigger] text[i]),
        length < text.len() ==> !is_digit(text[length]),
    ensures
        digits_len(text) == length,
    decreases text.len(),
{
    if length > 0 {
        let rest = text.drop_first();
        assert forall|i: int| 0 <= i < length - 1 implies is_digit(#[trigger] rest[i]) by {
            assert(rest[i] == text[i + 1]);
        }
        assert(length - 1 < rest.len() ==> rest[length - 1] == text[length]);
        lemma_digits_len(rest, length - 1);
    }
}

/// The tokenizer reads back what was written: tokens without negative
/// numbers, written down with a space after each, give these tokens again.
pub proof fn lemma_lex_of_written(tokens: Seq<Token>)
    requires
        unsigned(tokens),
    ensures
        lex(written(tokens)) == Ok::<Seq<Token>, Error>(tokens),
    decreases tokens.len(),
{
    if tokens.len() > 0 {
        let first = tokens[0];
        let rest = tokens.drop_first();
        let text = written(tokens);
        let word = spelling(first);
        let tail = seq![' '] + written(rest);
        assert(unsigned(rest)) by {
            assert forall|i: int| 0 <= i < rest.len() implies (
            #[trigger] rest[i] matches Token::Number(value) ==> value >= 0) by {
                assert(rest[i] == tokens[i + 1]);
            }
        }
        lemma_lex_of_written(rest);
        assert(text == word + tail);
        assert(tail[0] == ' ');
        assert(tail.drop_first() == written(rest));
        assert(lex(tail) == lex(written(rest)));
        assert(seq![first] + rest == tokens);
        match first {
            Token::Number(value) => {
                lemma_digits_of(value as int);
                let length = word.len() as int;
                assert forall|i: int| 0 <= i < length implies is_digit(#[trigger] text[i]) by {
                    assert(text[i] == word[i]);
                }
                assert(text[length] == ' ');
                lemma_digits_len(text, length);
                assert(text.take(length) == word);
                assert(text.skip(length) == tail);
                assert(fits(value as int));
                assert(lex(text) == prepend(Token::Number(value), lex(tail)));
            },
            _ => {
                assert(word.len() == 1);
                assert(text[0] == word[0]);
                assert(text.drop_first() == tail);
                assert(symbol(text[0]) == Some(first));
                assert(lex(text) == prepend(first, lex(tail)));
            },
        }
    } else {
        assert(tokens == Seq::<Token>::empty());
    }
}

} // verus!
