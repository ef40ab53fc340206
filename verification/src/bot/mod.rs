//! The Telegram bot.

pub mod category;
pub mod email;
pub mod handler;
pub mod launcher;
pub mod report;
