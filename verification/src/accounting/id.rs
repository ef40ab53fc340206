//! Identifiers of users, categories, entries and messages.

use vstd::prelude::*;
use uuid::Uuid;

verus! {

/// `Uuid::new_v4` of the crate `uuid`, written out by the crate's `Display`
/// for `Uuid`. The identifier is random; its text always has the 36
/// characters of the hyphenated form.
#[verifier::external_body]
pub(crate) fn random_uuid() -> (text: String)
    ensures
        text@.len() == 36,
{
    format!("{}", Uuid::new_v4())
}

/// Identifier of a user.
#[derive(Clone, Debug, PartialEq, Eq, Hash)]
pub struct UserId(pub String);

/// Identifier of a category.
#[derive(Clone, Debug, PartialEq, Eq, Hash)]
pub struct CategoryId(pub String);

/// Identifier of an entry.
#[derive(Clone, Debug, PartialEq, Eq, Hash)]
pub struct EntryId(pub String);

/// Identifier of a text message.
#[derive(Clone, Debug, PartialEq, Eq, Hash)]
pub struct SmsId(pub String);

impl UserId {
    /// The identifier with the text `value`.
    pub fn new(value: String) -> (id: UserId)
        ensures
            id.0 == value,
    {
        UserId(value)
    }

    /// A fresh random identifier.
    pub fn generate() -> (id: UserId)
        ensures
            id.0@.len() == 36,
    {
        UserId(random_uuid())
    }

    /// Whether both identifiers have the same text.
    pub fn same(&self, other: &UserId) -> (same: bool)
        ensures
            same == (self.0@ == other.0@),
    {
        self.0 == other.0
    }

    /// A copy of the identifier.
    pub fn duplicate(&self) -> (id: UserId)
        ensures
            id == *self,
    {
        UserId(self.0.clone())
    }
}

impl CategoryId {
    /// The identifier with the text `value`.
    pub fn new(value: String) -> (id: CategoryId)
        ensures
            id.0 == value,
    {
        CategoryId(value)
    }

    /// A fresh random identifier.
    pub fn generate() -> (id: CategoryId)
        ensures
            id.0@.len() == 36,
    {
        CategoryId(random_uuid())
    }
}

impl EntryId {
    /// The identifier with the text `value`.
    pub fn new(value: String) -> (id: EntryId)
        ensures
            id.0 == value,
    {
        EntryId(value)
    }

    /// A fresh random identifier.
    pub fn generate() -> (id: EntryId)
        ensures
            id.0@.len() == 36,
    {
        EntryId(random_uuid())
    }
}

impl SmsId {
    /// The identifier with the text `value`.
    pub fn new(value: String) -> (id: SmsId)
        ensures
            id.0 == value,
    {
        SmsId(value)
    }

    /// A fresh random identifier.
    pub fn generate() -> (id: SmsId)
        ensures
            id.0@.len() == 36,
    {
        SmsId(random_uuid())
    }
}

} // verus!
