//! The bot's reading of a message: what the message asks for.

use vstd::prelude::*;
use super::category::category;
use super::report::{report, ReportRequest};
use crate::accounting::entry::{product_of, Product};
use crate::accounting::evaluation::Error;
use crate::error::AppError;
use crate::text::{same_text, texts, words, words_of};

verus! {

/// What a message asks the bot to do.
#[derive(Debug)]
pub enum Request {
    /// To list the commands.
    Help,
    /// To make a report.
    Report(ReportRequest),
    /// To book a purchase.
    Entry(Product),
}

/// Why a message is not served.
#[derive(Debug)]
pub enum Refusal {
    /// The command is not known to the bot, or is used wrongly.
    Command(AppError),
    /// The message is no command, and no purchase either.
    Entry(Error),
}

/// Whether `word` asks for the list of commands.
pub open spec fn asks_help(word: Seq<char>) -> bool {
    word == "help"@ || word == "Help"@ || word == "/help"@
}

/// Whether `word` asks for a report.
pub open spec fn asks_report(word: Seq<char>) -> bool {
    word == "отчет"@ || word == "/отчет"@ || word == "Отчет"@
}

/// Whether `word` is the category command.
pub open spec fn asks_category(word: Seq<char>) -> bool {
    word == "Кат"@ || word == "кат"@
}

/// The word of `all` at `index`, if there is one.
pub open spec fn word_at(all: Seq<Seq<char>>, index: int) -> Option<Seq<char>> {
    if 0 <= index < all.len() {
        Some(all[index])
    } else {
        None
    }
}

/// The list of the bot's commands.
pub fn help() -> (text: String)
    ensures
        text@ == "/help\n/отчет"@,
{
    "/help\n/отчет".to_owned()
}

/// The word of `all` at `index`, if there is one.
fn word<'a>(all: &Vec<&'a str>, index: usize) -> (found: Option<&'a str>)
    ensures
        match found {
            Some(text) => word_at(texts(all@), index as int) == Some(text@),
            None => word_at(texts(all@), index as int) is None,
        },
{
    if index < all.len() {
        Some(all[index])
    } else {
        None
    }
}

/// Reads a message. Its first word decides: a help word, or no word at all,
/// asks for help; a report word asks for the report that the next three
/// words describe; the category command is not served yet; anything else
/// is a purchase, read from the whole message.
pub fn handle(data: &str) -> (result: Result<Request, Refusal>)
    ensures
        ({
            let all = words_of(data@);
            if all.len() == 0 || asks_help(all[0]) {
                result matches Ok(Request::Help)
            } else if asks_report(all[0]) {
                match (word_at(all, 1), word_at(all, 2), word_at(all, 3)) {
                    (None, _, _) => result matches Ok(Request::Report(ReportRequest::Week)),
                    (Some(period), None, _) => {
                        &&& result matches Ok(
                            Request::Report(ReportRequest::Print { time_period }),
                        )
                        &&& time_period@ == period
                    },
                    (Some(period), Some(address), None) => {
                        &&& result matches Ok(
                            Request::Report(ReportRequest::Send { time_period, email }),
                        )
                        &&& time_period@ == period
                        &&& email@ == address
                    },
                    (Some(_), Some(_), Some(_)) => {
                        &&& result matches Err(Refusal::Command(AppError::BotUsage { reason }))
                        &&& reason@ == "ожидается два аргумента"@
                    },
                }
            } else if asks_category(all[0]) {
                result matches Err(Refusal::Command(AppError::NotImplementedYet))
            } else {
                match product_of(data@) {
                    Ok((name, price)) => {
                        &&& result matches Ok(Request::Entry(product))
                        &&& product.name@ == name
                        &&& product.price == price
                    },
                    Err(error) => result matches Err(Refusal::Entry(found)) && found == error,
                }
            }
        }),
{
    let all = words(data);
    let command = match word(&all, 0) {
        Some(command) => command,
        None => {
            return Ok(Request::Help);
        },
    };
    if same_text(command, "help") || same_text(command, "Help") || same_text(command, "/help") {
        Ok(Request::Help)
    } else if same_text(command, "отчет") || same_text(command, "/отчет") || same_text(
        command,
        "Отчет",
    ) {
        match report(word(&all, 1), word(&all, 2), word(&all, 3)) {
            Ok(request) => Ok(Request::Report(request)),
            Err(error) => Err(Refusal::Command(error)),
        }
    } else if same_text(command, "Кат") || same_text(command, "кат") {
        match category() {
            Ok(_) => Ok(Request::Help),
            Err(error) => Err(Refusal::Command(error)),
        }
    } else {
        match Product::from_str(data) {
            Ok(product) => Ok(Request::Entry(product)),
            Err(error) => Err(Refusal::Entry(error)),
        }
    }
}

} // verus!
