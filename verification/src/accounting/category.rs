//! The category that a user has given to a product.

use vstd::prelude::*;
use super::id::{CategoryId, UserId};

verus! {

/// A product of a user with the category it is counted under.
#[derive(Debug)]
pub struct Category {
    pub id: CategoryId,
    pub user_id: UserId,
    pub product: String,
    pub category: String,
}

impl Category {
    /// A category record with a fresh identifier.
    pub fn new(user_id: UserId, product: String, category: String) -> (record: Category)
        ensures
            record.user_id == user_id,
            record.product == product,
            record.category == category,
            record.id.0@.len() == 36,
    {
        Category { id: CategoryId::generate(), user_id, product, category }
    }
}

} // verus!
