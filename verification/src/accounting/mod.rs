//! The accounting domain: price expressions and the records built from them.

pub mod category;
pub mod entry;
pub mod evaluation;
pub mod id;
pub mod moment;
pub mod period;
pub mod sms;
pub mod statistics;
pub mod tag;
pub mod user;
