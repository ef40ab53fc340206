//! Personal accounting.
//!
//! A purchase is written as a line such as `tea 75+25` or `(10+10)*3 rent`.
//! The line is cut into a name and a price expression, and the expression is
//! evaluated to an exact 32-bit price: `accounting::entry` cuts the line,
//! `accounting::evaluation` reads, converts and runs the expression.
//!
//! Around this stand the records of the ledger and the rules of its
//! commands: reports by period and category (`accounting::statistics`), the
//! messages that the bot understands (`bot`), the records that may be added
//! (`registry`) and the changes to stored records (`persistence`).
//!
//! Every function states what it returns in its contract, and the contracts
//! are proved. Reading files, talking to Telegram and serving HTTP are left
//! to the program that uses the library.

pub mod accounting;
pub mod bot;
pub mod cli;
pub mod config;
pub mod dates;
pub mod error;
pub mod persistence;
pub mod registry;
pub mod representation;
pub mod text;
pub mod web;
