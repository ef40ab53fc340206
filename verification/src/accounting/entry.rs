//! Entries of the ledger, and the reading of a free-text line such as
//! `tea 75+25` as a product with its price.

use vstd::prelude::*;
use vstd::string::StrSliceExecFns;
use super::evaluation::{evaluate, expression_value, Error};
use super::evaluation::expression::{lemma_value_of_text, Expression};
use super::evaluation::notation::{lemma_lex_of_written, unsigned, written};
use super::evaluation::tokenizer::{digits_len, lemma_digits_len_bound, lex, symbol};
use super::evaluation::token::Token;
use super::id::{EntryId, UserId};
use super::moment::{local_now, Moment};
use super::tag::Tags;
use crate::text::{
    blank, is_blank, is_digit, is_whitespace, lemma_trimmed_ends, trim, trimmed, white_space,
};

verus! {

/// Whether `c` may stand in a price expression: a digit, a space or any
/// other whitespace, an operator or a bracket. Every other character
/// belongs to a name.
pub open spec fn price_like(c: char) -> bool {
    is_digit(c) || c == ' ' || white_space(c) || symbol(c) is Some
}

/// Length of the longest prefix of `line` whose characters are all
/// price-like (`price` is true) or all name-like (`price` is false).
pub open spec fn run_length(line: Seq<char>, price: bool) -> nat
    decreases line.len(),
{
    if line.len() > 0 && price_like(line[0]) == price {
        1 + run_length(line.drop_first(), price)
    } else {
        0
    }
}

/// The price expression and the name of `line`, in this order.
///
/// The line is cut where the class of its characters changes for the first
/// time. The part of price-like characters is the price expression, the
/// other part the name, whichever comes first. A line that is empty or of
/// one class only, and a line whose name is blank, is an
/// `InvalidEntryFormat`.
pub open spec fn segmented(line: Seq<char>) -> Result<(Seq<char>, Seq<char>), Error> {
    if line.len() == 0 {
        Err(Error::InvalidEntryFormat)
    } else {
        let price_first = price_like(line[0]);
        let cut = run_length(line, price_first) as int;
        if cut == line.len() {
            Err(Error::InvalidEntryFormat)
        } else {
            let (price, name) = if price_first {
                (line.take(cut), line.skip(cut))
            } else {
                (line.skip(cut), line.take(cut))
            };
            if blank(name) {
                Err(Error::InvalidEntryFormat)
            } else {
                Ok((price, name))
            }
        }
    }
}

/// A run of one class that ends before a character of the other class, or
/// at the end of the line, is the longest one.
proof fn lemma_run_length(line: Seq<char>, price: bool, cut: int)
    requires
        0 <= cut <= line.len(),
        forall|i: int| 0 <= i < cut ==> price_like(#[trigger] line[i]) == price,
        cut < line.len() ==> price_like(line[cut]) != price,
    ensures
        run_length(line, price) == cut,
    decreases line.len(),
{
    if cut > 0 {
        let rest = line.drop_first();
        assert forall|i: int| 0 <= i < cut - 1 implies price_like(#[trigger] rest[i])
            == price by {
            assert(rest[i] == line[i + 1]);
        }
        assert(cut - 1 < rest.len() ==> rest[cut - 1] == line[cut]);
        lemma_run_length(rest, price, cut - 1);
    }
}

/// Whether `c` is price-like.
fn is_price_like(c: char) -> (result: bool)
    ensures
        result == price_like(c),
{
    match c {
        '(' | ')' | ' ' | '*' | '-' | '+' | '/' | '0'..='9' => true,
        _ => is_whitespace(c),
    }
}

/// Splits a line into its price expression and its name.
pub fn segment(line: &str) -> (result: Result<(&str, &str), Error>)
    ensures
        match result {
            Ok((price, name)) => segmented(line@) == Ok::<(Seq<char>, Seq<char>), Error>(
                (price@, name@),
            ),
            Err(error) => segmented(line@) == Err::<(Seq<char>, Seq<char>), Error>(error),
        },
{
    let length = line.unicode_len();
    let mut price_first: Option<bool> = None;
    let mut split_index: Option<usize> = None;
    let mut index: usize = 0;
    for ch in it: line.chars()
        invariant
            it.seq() == line@,
            length == line@.len(),
            index == it.index(),
            index > 0 <==> price_first is Some,
            price_first matches Some(first) ==> first == price_like(line@[0]),
            match split_index {
                Some(cut) => price_first matches Some(first) && cut < length && run_length(
                    line@,
                    first,
                ) == cut,
                None => price_first matches Some(first) ==> forall|i: int|
                    0 <= i < index ==> price_like(#[trigger] line@[i]) == first,
            },
    {
        let price_part = is_price_like(ch);
        if split_index.is_none() {
            match (price_part, price_first) {
                (true, None) => price_first = Some(true),
                (true, Some(false)) => {
                    proof {
                        lemma_run_length(line@, false, index as int);
                    }
                    split_index = Some(index);
                },
                (true, Some(true)) => {},
                (false, None) => price_first = Some(false),
                (false, Some(false)) => {},
                (false, Some(true)) => {
                    proof {
                        lemma_run_length(line@, true, index as int);
                    }
                    split_index = Some(index);
                },
            }
        }
        index = index + 1;
    }
    let (price, name) = match (price_first, split_index) {
        (Some(true), Some(cut)) => (line.substring_char(0, cut), line.substring_char(cut, length)),
        (Some(false), Some(cut)) => (
            line.substring_char(cut, length),
            line.substring_char(0, cut),
        ),
        _ => {
            proof {
                if let Some(first) = price_first {
                    lemma_run_length(line@, first, length as int);
                }
            }
            return Err(Error::InvalidEntryFormat);
        },
    };
    if is_blank(name) {
        return Err(Error::InvalidEntryFormat);
    }
    Ok((price, name))
}

/// A line is cut without loss: its two parts, put together again in their
/// order, are the line. The part in front is not empty and of one class
/// throughout, and the other part begins with a character of the other
/// class.
pub proof fn lemma_segments_cover(line: Seq<char>)
    ensures
        segmented(line) matches Ok((price, name)) ==> {
            let (front, back) = if price_like(line[0]) {
                (price, name)
            } else {
                (name, price)
            };
            &&& front + back == line
            &&& front.len() > 0
            &&& back.len() > 0
            &&& forall|i: int|
                0 <= i < front.len() ==> price_like(#[trigger] front[i]) == price_like(line[0])
            &&& price_like(back[0]) != price_like(line[0])
        },
{
    if line.len() > 0 {
        lemma_run_bounds(line, price_like(line[0]));
        let cut = run_length(line, price_like(line[0])) as int;
        assert(line.take(cut) + line.skip(cut) == line);
    }
}

/// The longest run of one class lies within the line, has that class
/// throughout and ends before a character of the other class.
proof fn lemma_run_bounds(line: Seq<char>, price: bool)
    ensures
        run_length(line, price) <= line.len(),
        forall|i: int| 0 <= i < run_length(line, price) ==> price_like(#[trigger] line[i]) == price,
        run_length(line, price) < line.len() ==> price_like(line[run_length(line, price) as int])
            != price,
        line.len() > 0 && price_like(line[0]) == price ==> run_length(line, price) > 0,
    decreases line.len(),
{
    if line.len() > 0 && price_like(line[0]) == price {
        let rest = line.drop_first();
        lemma_run_bounds(rest, price);
        assert forall|i: int| 0 <= i < run_length(line, price) implies price_like(
            #[trigger] line[i],
        ) == price by {
            if i > 0 {
                assert(line[i] == rest[i - 1]);
            }
        }
        if run_length(line, price) < line.len() {
            assert(line[run_length(line, price) as int] == rest[run_length(rest, price) as int]);
        }
    }
}

/// A line is refused only where it is empty or of one class: a name has a
/// character that is not price-like, and so is never blank.
pub proof fn lemma_refusals(line: Seq<char>)
    ensures
        segmented(line) is Err <==> line.len() == 0 || run_length(line, price_like(line[0]))
            == line.len(),
{
    if line.len() > 0 {
        lemma_run_bounds(line, price_like(line[0]));
        let cut = run_length(line, price_like(line[0])) as int;
        if cut < line.len() {
            if price_like(line[0]) {
                let name = line.skip(cut);
                assert(name[0] == line[cut]);
                assert(!white_space(name[0]));
                assert(!blank(name));
            } else {
                let name = line.take(cut);
                assert(name[0] == line[0]);
                assert(!white_space(name[0]));
                assert(!blank(name));
            }
        }
    }
}

/// A trimmed line is refused only where it is empty or of one class: its
/// name is never blank.
pub proof fn lemma_trimmed_line(raw: Seq<char>)
    ensures
        ({
            let line = trimmed(raw);
            segmented(line) is Err <==> line.len() == 0 || run_length(
                line,
                price_like(line[0]),
            ) == line.len()
        }),
{
    let line = trimmed(raw);
    if line.len() > 0 {
        lemma_trimmed_ends(raw);
        lemma_run_bounds(line, price_like(line[0]));
        let cut = run_length(line, price_like(line[0])) as int;
        if cut < line.len() {
            if price_like(line[0]) {
                let name = line.skip(cut);
                assert(name[name.len() - 1] == line.last());
                assert(!blank(name));
            } else {
                let name = line.take(cut);
                assert(name[0] == line[0]);
                assert(!blank(name));
            }
        }
    }
}

/// Splits a raw line into its price expression and its name: the line is
/// trimmed, then cut as `segment` cuts it.
pub fn price_name(raw: &str) -> (result: Result<(&str, &str), Error>)
    ensures
        match result {
            Ok((price, name)) => segmented(trimmed(raw@)) == Ok::<(Seq<char>, Seq<char>), Error>(
                (price@, name@),
            ),
            Err(error) => segmented(trimmed(raw@)) == Err::<(Seq<char>, Seq<char>), Error>(
                error,
            ),
        },
{
    segment(trim(raw))
}

/// What a trimmed line says: the name, and the value of the price
/// expression. The line is refused where it cannot be cut, and else where
/// its price expression has no value.
pub open spec fn entry_of(line: Seq<char>) -> Result<(Seq<char>, i32), Error> {
    match segmented(line) {
        Ok((price, name)) => match expression_value(price) {
            Ok(value) => Ok((name, value)),
            Err(error) => Err(error),
        },
        Err(error) => Err(error),
    }
}

/// What `Product::from_str` reads from the line `raw`: what the trimmed
/// line says.
pub open spec fn product_of(raw: Seq<char>) -> Result<(Seq<char>, i32), Error> {
    entry_of(trimmed(raw))
}

/// The name with the value of `expression`, or the error of the value.
pub open spec fn named(name: Seq<char>, expression: Expression) -> Result<
    (Seq<char>, i32),
    Error,
> {
    match expression.value() {
        Ok(value) => Ok((name, value)),
        Err(error) => Err(error),
    }
}

/// Whether `name` can stand for a product: it is not empty, not blank,
/// and has no character that may stand in a price expression.
pub open spec fn is_name(name: Seq<char>) -> bool {
    &&& name.len() > 0
    &&& !blank(name)
    &&& forall|i: int| 0 <= i < name.len() ==> !price_like(#[trigger] name[i])
}

/// Written tokens are price-like throughout.
proof fn lemma_written_price_like(tokens: Seq<Token>)
    requires
        unsigned(tokens),
    ensures
        forall|i: int| 0 <= i < written(tokens).len() ==> price_like(#[trigger] written(tokens)[i]),
{
    let text = written(tokens);
    lemma_lex_of_written(tokens);
    assert forall|i: int| 0 <= i < text.len() implies price_like(#[trigger] text[i]) by {
        if !price_like(text[i]) {
            lemma_lex_stops(text, i);
        }
    }
}

/// A text with a character that is not price-like has no tokens.
proof fn lemma_lex_stops(text: Seq<char>, at: int)
    requires
        0 <= at < text.len(),
        !price_like(text[at]),
    ensures
        lex(text) is Err,
    decreases text.len(),
{
    lemma_digits_len_bound(text);
    if is_digit(text[0]) {
        let n = digits_len(text) as int;
        if at < n {
            assert(is_digit(text[at]));
        } else {
            let rest = text.skip(n);
            assert(rest[at - n] == text[at]);
            lemma_lex_stops(rest, at - n);
        }
    } else if at > 0 {
        let rest = text.drop_first();
        assert(rest[at - 1] == text[at]);
        lemma_lex_stops(rest, at - 1);
    }
}

/// A line made of a name, a space and a written expression says that name
/// and the value of the expression.
pub proof fn lemma_name_then_price(name: Seq<char>, expression: Expression)
    requires
        is_name(name),
        expression.natural(),
        unsigned(expression.infix()),
    ensures
        entry_of(name + seq![' '] + written(expression.infix())) == named(name, expression),
{
    let price = seq![' '] + written(expression.infix());
    let line = name + price;
    assert(line == name + seq![' '] + written(expression.infix()));
    assert(line[0] == name[0]);
    assert(line[name.len() as int] == ' ');
    assert forall|i: int| 0 <= i < name.len() implies price_like(#[trigger] line[i]) == false by {
        assert(line[i] == name[i]);
    }
    lemma_run_length(line, false, name.len() as int);
    assert(line.take(name.len() as int) == name);
    assert(line.skip(name.len() as int) == price);
    assert(price[0] == ' ');
    assert(price.drop_first() == written(expression.infix()));
    lemma_lex_of_written(expression.infix());
    assert(lex(price) == lex(written(expression.infix())));
    lemma_value_of_text(price, expression);
}

/// A line made of a written expression and a name says that name and the
/// value of the expression.
pub proof fn lemma_price_then_name(name: Seq<char>, expression: Expression)
    requires
        is_name(name),
        expression.natural(),
        unsigned(expression.infix()),
    ensures
        entry_of(written(expression.infix()) + name) == named(name, expression),
{
    let price = written(expression.infix());
    let line = price + name;
    lemma_lex_of_written(expression.infix());
    lemma_written_price_like(expression.infix());
    lemma_infix_not_empty(expression);
    assert(price.len() > 0);
    assert(line[0] == price[0]);
    assert(line[price.len() as int] == name[0]);
    assert forall|i: int| 0 <= i < price.len() implies price_like(#[trigger] line[i]) == true by {
        assert(line[i] == price[i]);
    }
    lemma_run_length(line, true, price.len() as int);
    assert(line.take(price.len() as int) == price);
    assert(line.skip(price.len() as int) == name);
    lemma_value_of_text(price, expression);
}

/// The infix form of an expression has a token, and so has text.
proof fn lemma_infix_not_empty(expression: Expression)
    ensures
        expression.infix().len() > 0,
        written(expression.infix()).len() > 0,
    decreases expression,
{
    match expression {
        Expression::Number(_) => {},
        Expression::Group(_) => {},
        Expression::Binary(left, _, _) => {
            lemma_infix_not_empty(*left);
        },
    }
}

/// A product with the price paid for it.
#[derive(Debug)]
pub struct Product {
    pub name: String,
    pub price: i32,
}

/// One purchase of a user.
#[derive(Debug)]
pub struct Entry {
    pub id: EntryId,
    pub user_id: UserId,
    pub product: Product,
    pub time: Moment,
    pub tags: Tags,
}

impl Entry {
    /// An entry of `user_id` for `product`, with a fresh identifier, the
    /// local time of the clock and no tags.
    pub fn new(user_id: UserId, product: Product) -> (entry: Entry)
        ensures
            entry.user_id == user_id,
            entry.product == product,
            entry.tags.tags@.len() == 0,
            entry.id.0@.len() == 36,
    {
        Entry { id: EntryId::generate(), user_id, product, time: local_now(), tags: Tags::empty() }
    }
}

impl Product {
    /// Reads a line such as `tea 75+25` or `(10+10)*3 rent`.
    pub fn from_str(raw: &str) -> (result: Result<Product, Error>)
        ensures
            match result {
                Ok(product) => product_of(raw@) == Ok::<(Seq<char>, i32), Error>(
                    (product.name@, product.price),
                ),
                Err(error) => product_of(raw@) == Err::<(Seq<char>, i32), Error>(error),
            },
    {
        let (price, name) = match price_name(raw) {
            Ok(parts) => parts,
            Err(error) => {
                return Err(error);
            },
        };
        match evaluate(price) {
            Ok(value) => Ok(Product { name: name.to_owned(), price: value }),
            Err(error) => Err(error),
        }
    }
}

} // verus!
