//! The rules of the registry: which record a request finds, and which it may
//! add. Reading and writing the tables is left to the caller.

use vstd::prelude::*;
use crate::accounting::category::Category;
use crate::accounting::id::UserId;
use crate::accounting::user::{TelegramId, User};
use crate::error::AppError;

verus! {

/// Position of the first of `categories` that belongs to `product`.
pub open spec fn first_with_product(categories: Seq<Category>, product: Seq<char>) -> Option<int>
    decreases categories.len(),
{
    if categories.len() == 0 {
        None
    } else if categories[0].product@ == product {
        Some(0)
    } else {
        match first_with_product(categories.drop_first(), product) {
            Some(index) => Some(index + 1),
            None => None,
        }
    }
}

/// The first position found is a position of the product, and the first.
pub proof fn lemma_first_with_product(categories: Seq<Category>, product: Seq<char>)
    ensures
        match first_with_product(categories, product) {
            Some(index) => {
                &&& 0 <= index < categories.len()
                &&& categories[index].product@ == product
                &&& forall|i: int| 0 <= i < index ==> (#[trigger] categories[i]).product@ != product
            },
            None => forall|i: int|
                0 <= i < categories.len() ==> (#[trigger] categories[i]).product@ != product,
        },
    decreases categories.len(),
{
    if categories.len() > 0 && categories[0].product@ != product {
        let rest = categories.drop_first();
        lemma_first_with_product(rest, product);
        match first_with_product(rest, product) {
            Some(index) => {
                assert(categories[index + 1] == rest[index]);
                assert forall|i: int| 0 <= i < index + 1 implies (
                #[trigger] categories[i]).product@ != product by {
                    if i > 0 {
                        assert(categories[i] == rest[i - 1]);
                    }
                }
            },
            None => {
                assert forall|i: int| 0 <= i < categories.len() implies (
                #[trigger] categories[i]).product@ != product by {
                    if i > 0 {
                        assert(categories[i] == rest[i - 1]);
                    }
                }
            },
        }
    }
}

/// Position of the first of `categories` that belongs to `product`.
pub fn find_category(categories: &Vec<Category>, product: &String) -> (found: Option<usize>)
    ensures
        match found {
            Some(index) => first_with_product(categories@, product@) == Some(index as int),
            None => first_with_product(categories@, product@) is None,
        },
{
    let mut index: usize = 0;
    proof {
        lemma_first_with_product(categories@, product@);
    }
    while index < categories.len()
        invariant
            index <= categories.len(),
            forall|i: int| 0 <= i < index ==> (#[trigger] categories@[i]).product@ != product@,
            match first_with_product(categories@, product@) {
                Some(first) => {
                    &&& 0 <= first < categories@.len()
                    &&& categories@[first].product@ == product@
                    &&& forall|i: int|
                        0 <= i < first ==> (#[trigger] categories@[i]).product@ != product@
                },
                None => forall|i: int|
                    0 <= i < categories@.len() ==> (#[trigger] categories@[i]).product@
                        != product@,
            },
        decreases categories.len() - index,
    {
        if categories[index].product == *product {
            return Some(index);
        }
        index = index + 1;
    }
    None
}

/// The category record to add for `product_name`, unless one of `existing`,
/// the categories of the user, belongs to that product already: then the
/// error names the first such record.
pub fn new_category(
    existing: &Vec<Category>,
    user: UserId,
    product_name: String,
    category_name: String,
) -> (result: Result<Category, AppError>)
    ensures
        match result {
            Ok(record) => {
                &&& first_with_product(existing@, product_name@) is None
                &&& record.user_id == user
                &&& record.product == product_name
                &&& record.category == category_name
            },
            Err(error) => {
                &&& first_with_product(existing@, product_name@) matches Some(index)
                &&& error matches AppError::ProductAlreadyHasCategory { product, category }
                &&& product@ == existing@[index].product@
                &&& category@ == existing@[index].category@
            },
        },
{
    match find_category(existing, &product_name) {
        Some(index) => {
            proof {
                lemma_first_with_product(existing@, product_name@);
            }
            Err(
                AppError::ProductAlreadyHasCategory {
                    product: existing[index].product.clone(),
                    category: existing[index].category.clone(),
                },
            )
        },
        None => Ok(Category::new(user, product_name, category_name)),
    }
}

/// The user found by a search that must not find two: none or the one of
/// `users`; more than one is an error.
pub fn find_user(users: Vec<User>) -> (result: Result<Option<User>, AppError>)
    ensures
        match result {
            Ok(Some(user)) => users@.len() == 1 && user == users@[0],
            Ok(None) => users@.len() == 0,
            Err(error) => {
                &&& users@.len() > 1
                &&& error matches AppError::Any { text }
                &&& text@ == "Found more than one user by predicate"@
            },
        },
{
    let mut users = users;
    if users.len() > 1 {
        return Err(AppError::Any { text: "Found more than one user by predicate" });
    }
    Ok(users.pop())
}

/// The user known to Telegram as `telegram_id`: the first of `users`, the
/// users found under that identifier, or a new user where none was found.
/// The second part of the result tells whether the user is new and has yet
/// to be stored.
pub fn find_or_create(users: Vec<User>, telegram_id: TelegramId) -> (result: (User, bool))
    ensures
        result.1 == (users@.len() == 0),
        users@.len() > 0 ==> result.0 == users@[0],
        users@.len() == 0 ==> result.0.telegram_id == Some(telegram_id)
            && result.0.android_auth_token is None && result.0.offset is None,
{
    let mut users = users;
    if users.len() == 0 {
        (User::with_telegram_id(telegram_id), true)
    } else {
        (users.swap_remove(0), false)
    }
}

} // verus!
