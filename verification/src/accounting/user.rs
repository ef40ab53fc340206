//! Users of the ledger.

use vstd::prelude::*;
use super::id::UserId;
use super::moment::Moment;
use crate::text::same_text;

verus! {

/// The identifier that Telegram gives a user.
#[derive(Debug, Eq, PartialEq, Clone, Copy)]
pub struct TelegramId(pub i64);

/// The token by which the Android client of a user is known.
#[derive(Debug, Clone, Eq, PartialEq)]
pub struct AndroidAuth(pub String);

/// A user of the ledger.
#[derive(Debug, Clone)]
pub struct User {
    pub id: UserId,
    pub telegram_id: Option<TelegramId>,
    pub android_auth_token: Option<AndroidAuth>,
    pub offset: Option<Moment>,
}

impl User {
    /// A user known by `telegram_id` alone, with a fresh identifier.
    pub fn with_telegram_id(telegram_id: TelegramId) -> (user: User)
        ensures
            user.telegram_id == Some(telegram_id),
            user.offset is None,
            user.android_auth_token is None,
            user.id.0@.len() == 36,
    {
        User {
            id: UserId::generate(),
            telegram_id: Some(telegram_id),
            offset: None,
            android_auth_token: None,
        }
    }

    /// Whether Telegram knows the user as `telegram_id`.
    pub fn has_telegram_id(&self, telegram_id: TelegramId) -> (result: bool)
        ensures
            result == (self.telegram_id == Some(telegram_id)),
    {
        match self.telegram_id {
            Some(own) => own.0 == telegram_id.0,
            None => false,
        }
    }

    /// Whether the user's Android client shows the token `token`.
    pub fn has_android_token(&self, token: &str) -> (result: bool)
        ensures
            result == (self.android_auth_token matches Some(own) && own.0@ == token@),
    {
        match &self.android_auth_token {
            Some(own) => same_text(own.0.as_str(), token),
            None => false,
        }
    }
}

} // verus!
