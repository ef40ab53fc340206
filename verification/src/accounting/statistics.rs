//! Reports on the entries of a period: what was spent in all and in each
//! category.

use vstd::prelude::*;
use super::category::Category;
use super::entry::Entry;
use super::evaluation::operation::fits;
use super::moment::{local_now, Moment};
use super::period::TimePeriod;
use crate::dates::{
    date_of, day_after, day_at, day_of, from_isoywd_opt, is_date, iso_week, last_day_of_month,
    month_length, succ, Date,
};
use crate::error::AppError;
use crate::text::same_text;

verus! {

/// The sum of `prices` added from the left to `start`, as long as every
/// partial sum fits in 32 bits.
pub open spec fn running_total(start: int, prices: Seq<i32>) -> Option<i32>
    decreases prices.len(),
{
    if prices.len() == 0 {
        Some(start as i32)
    } else if fits(start + prices[0]) {
        running_total(start + prices[0], prices.drop_first())
    } else {
        None
    }
}

/// The sum of `prices`, unless a partial sum from the left overflows.
pub open spec fn total_of(prices: Seq<i32>) -> Option<i32> {
    running_total(0, prices)
}

/// The prices of `entries`.
pub open spec fn prices_of(entries: Seq<&Entry>) -> Seq<i32> {
    entries.map_values(|entry: &Entry| entry.product.price)
}

/// What was spent on `entries`: the sum of their prices, unless a partial
/// sum from the left overflows.
pub open spec fn spent(entries: Seq<Entry>) -> Option<i32> {
    total_of(entries.map_values(|entry: Entry| entry.product.price))
}

/// The prices of references are the prices of what they point to.
proof fn lemma_prices(references: Seq<&Entry>)
    ensures
        total_of(prices_of(references)) == spent(pointed(references)),
{
    assert(prices_of(references) == pointed(references).map_values(
        |entry: Entry| entry.product.price,
    ));
}

/// The entries that `references` point to.
pub open spec fn pointed(references: Seq<&Entry>) -> Seq<Entry> {
    references.map_values(|entry: &Entry| *entry)
}

/// The entries of `entries` whose time lies between `from` and `till`, in
/// their order.
pub open spec fn selected(entries: Seq<Entry>, from: Moment, till: Moment) -> Seq<Entry>
    decreases entries.len(),
{
    if entries.len() == 0 {
        Seq::empty()
    } else {
        let before = selected(entries.drop_last(), from, till);
        if entries.last().time.within(from, till) {
            before.push(entries.last())
        } else {
            before
        }
    }
}

/// The category that `product` is counted under: the one that the last
/// record of `categories` for this product gives it, and without such a
/// record the product's own name.
pub open spec fn category_of(categories: Seq<Category>, product: Seq<char>) -> Seq<char>
    decreases categories.len(),
{
    if categories.len() == 0 {
        product
    } else if categories.last().product@ == product {
        categories.last().category@
    } else {
        category_of(categories.drop_last(), product)
    }
}

/// The entries of `entries` that are counted under the category `name`, in
/// their order.
pub open spec fn counted_under(
    entries: Seq<Entry>,
    categories: Seq<Category>,
    name: Seq<char>,
) -> Seq<Entry>
    decreases entries.len(),
{
    if entries.len() == 0 {
        Seq::empty()
    } else {
        let before = counted_under(entries.drop_last(), categories, name);
        if category_of(categories, entries.last().product.name@) == name {
            before.push(entries.last())
        } else {
            before
        }
    }
}

/// The error of a sum that does not fit in 32 bits.
pub fn overflow() -> (error: AppError)
    ensures
        error matches AppError::Calculation { reason } && reason@ == "Overflow"@,
{
    AppError::Calculation { reason: "Overflow".to_owned() }
}

/// The number of entries as a 32-bit count.
fn count(entries: &Vec<&Entry>) -> (number: i32)
    ensures
        entries@.len() <= i32::MAX ==> number == entries@.len(),
{
    #[verifier::truncate]
    (entries.len() as i32)
}

/// What was spent on `entries`: the sum of their prices, or the overflow
/// error as soon as a partial sum does not fit.
pub fn total_spent(entries: &Vec<&Entry>) -> (result: Result<i32, AppError>)
    ensures
        match result {
            Ok(total) => spent(pointed(entries@)) == Some(total),
            Err(error) => {
                &&& spent(pointed(entries@)) is None
                &&& error matches AppError::Calculation { reason }
                &&& reason@ == "Overflow"@
            },
        },
{
    let mut total: i32 = 0;
    let mut index: usize = 0;
    proof {
        lemma_prices(entries@);
        assert(prices_of(entries@).skip(0) == prices_of(entries@));
    }
    while index < entries.len()
        invariant
            index <= entries.len(),
            running_total(total as int, prices_of(entries@).skip(index as int)) == total_of(
                prices_of(entries@),
            ),
            total_of(prices_of(entries@)) == spent(pointed(entries@)),
        decreases entries.len() - index,
    {
        proof {
            let rest = prices_of(entries@).skip(index as int);
            assert(rest[0] == entries@[index as int].product.price);
            assert(rest.drop_first() == prices_of(entries@).skip(index + 1));
        }
        match total.checked_add(entries[index].product.price) {
            Some(sum) => {
                total = sum;
            },
            None => {
                return Err(overflow());
            },
        }
        index = index + 1;
    }
    Ok(total)
}

/// What was spent on `entries`, and how many they are.
pub fn stats(entries: &Vec<&Entry>) -> (result: Result<(i32, i32), AppError>)
    ensures
        match result {
            Ok((total, number)) => {
                &&& spent(pointed(entries@)) == Some(total)
                &&& entries@.len() <= i32::MAX ==> number == entries@.len()
            },
            Err(error) => {
                &&& spent(pointed(entries@)) is None
                &&& error matches AppError::Calculation { reason }
                &&& reason@ == "Overflow"@
            },
        },
{
    match total_spent(entries) {
        Ok(total) => Ok((total, count(entries))),
        Err(error) => Err(error),
    }
}

/// The category that `product` is counted under.
pub fn category_name<'a>(categories: &'a Vec<Category>, product: &'a String) -> (name: &'a str)
    ensures
        name@ == category_of(categories@, product@),
{
    let mut index = categories.len();
    proof {
        assert(categories@.take(index as int) == categories@);
    }
    while index > 0
        invariant
            index <= categories.len(),
            category_of(categories@, product@) == category_of(
                categories@.take(index as int),
                product@,
            ),
        decreases index,
    {
        proof {
            let front = categories@.take(index as int);
            assert(front.last() == categories@[index - 1]);
            assert(front.drop_last() == categories@.take(index - 1));
        }
        index = index - 1;
        if categories[index].product == *product {
            return categories[index].category.as_str();
        }
    }
    proof {
        assert(categories@.take(0).len() == 0);
    }
    product.as_str()
}

/// The entries of `entries` whose time lies between `from` and `till`.
pub fn entries_in_period<'a>(entries: &'a Vec<Entry>, from: &Moment, till: &Moment) -> (result:
    Vec<&'a Entry>)
    ensures
        pointed(result@) == selected(entries@, *from, *till),
{
    let mut result: Vec<&Entry> = Vec::new();
    let mut index: usize = 0;
    proof {
        assert(entries@.take(0).len() == 0);
        assert(pointed(result@) == Seq::<Entry>::empty());
    }
    while index < entries.len()
        invariant
            index <= entries.len(),
            pointed(result@) == selected(entries@.take(index as int), *from, *till),
        decreases entries.len() - index,
    {
        proof {
            let front = entries@.take(index + 1);
            assert(front.last() == entries@[index as int]);
            assert(front.drop_last() == entries@.take(index as int));
        }
        let ghost before = result@;
        if entries[index].time.is_within(from, till) {
            result.push(&entries[index]);
            proof {
                assert(pointed(result@) == pointed(before).push(entries@[index as int]));
            }
        }
        index = index + 1;
    }
    proof {
        assert(entries@.take(entries@.len() as int) == entries@);
    }
    result
}

/// The entries of one category in a report.
#[derive(Debug, Clone)]
pub struct ByCategory<'r> {
    pub category: &'r str,
    pub entries: Vec<&'r Entry>,
    pub total_spent: i32,
    pub total_products: i32,
}

/// Whether `group` is the group of its category among `chosen`: it holds
/// all the entries counted under the category, in their order, with their
/// sum and their number.
pub open spec fn group_of(group: ByCategory, chosen: Seq<Entry>, categories: Seq<Category>) -> bool {
    &&& pointed(group.entries@) == counted_under(chosen, categories, group.category@)
    &&& group.entries@.len() > 0
    &&& spent(pointed(group.entries@)) == Some(group.total_spent)
    &&& group.entries@.len() <= i32::MAX ==> group.total_products == group.entries@.len()
}

/// Whether one of `groups` is the group of the category `name`.
pub open spec fn has_group(groups: Seq<ByCategory>, name: Seq<char>) -> bool {
    exists|i: int| 0 <= i < groups.len() && (#[trigger] groups[i]).category@ == name
}

/// Whether `groups` go from the one that spent most to the one that spent
/// least.
pub open spec fn descending(groups: Seq<ByCategory>) -> bool {
    forall|i: int, j: int|
        0 <= i < j < groups.len() ==> (#[trigger] groups[i]).total_spent >= (
        #[trigger] groups[j]).total_spent
}

/// Whether `groups` are the entries `chosen` by category: one group for
/// each category that occurs, none twice, the group that spent most first.
pub open spec fn grouped(
    groups: Seq<ByCategory>,
    chosen: Seq<Entry>,
    categories: Seq<Category>,
) -> bool {
    &&& forall|i: int| 0 <= i < groups.len() ==> group_of(#[trigger] groups[i], chosen, categories)
    &&& forall|i: int, j: int|
        0 <= i < j < groups.len() ==> (#[trigger] groups[i]).category@ != (
        #[trigger] groups[j]).category@
    &&& forall|k: int|
        0 <= k < chosen.len() ==> has_group(
            groups,
            category_of(categories, (#[trigger] chosen[k]).product.name@),
        )
    &&& descending(groups)
}

/// Whether the sum of some category of `chosen` overflows.
pub open spec fn some_group_overflows(chosen: Seq<Entry>, categories: Seq<Category>) -> bool {
    exists|k: int|
        0 <= k < chosen.len() && spent(
            counted_under(
                chosen,
                categories,
                category_of(categories, (#[trigger] chosen[k]).product.name@),
            ),
        ) is None
}

/// An entry is among the entries counted under its own category.
proof fn lemma_counted_under_own(chosen: Seq<Entry>, categories: Seq<Category>, k: int)
    requires
        0 <= k < chosen.len(),
    ensures
        counted_under(chosen, categories, category_of(categories, chosen[k].product.name@)).len()
            > 0,
    decreases chosen.len(),
{
    if k < chosen.len() - 1 {
        assert(chosen.drop_last()[k] == chosen[k]);
        lemma_counted_under_own(chosen.drop_last(), categories, k);
    }
}

/// Whether `name` is among `names`.
pub open spec fn has_name(names: Seq<&str>, name: Seq<char>) -> bool {
    exists|i: int| 0 <= i < names.len() && (#[trigger] names[i])@ == name
}

/// Whether one of the first `limit` of `entries` is counted under `name`.
pub open spec fn occurs(
    entries: Seq<&Entry>,
    limit: int,
    categories: Seq<Category>,
    name: Seq<char>,
) -> bool {
    exists|k: int|
        0 <= k < limit && k < entries.len() && category_of(
            categories,
            (#[trigger] entries[k]).product.name@,
        ) == name
}

/// Whether no two of `names` are the same.
pub open spec fn distinct(names: Seq<&str>) -> bool {
    forall|i: int, j: int|
        0 <= i < j < names.len() ==> (#[trigger] names[i])@ != (#[trigger] names[j])@
}

/// Whether `name` is among `names`.
fn contains_name(names: &Vec<&str>, name: &str) -> (result: bool)
    ensures
        result == has_name(names@, name@),
{
    let mut index: usize = 0;
    while index < names.len()
        invariant
            index <= names.len(),
            forall|i: int| 0 <= i < index ==> (#[trigger] names@[i])@ != name@,
        decreases names.len() - index,
    {
        if same_text(names[index], name) {
            return true;
        }
        index = index + 1;
    }
    false
}

/// One more name leaves the names that were there.
proof fn lemma_has_name_push(names: Seq<&str>, added: &str, name: Seq<char>)
    ensures
        has_name(names, name) ==> has_name(names.push(added), name),
        has_name(names.push(added), added@),
{
    let longer = names.push(added);
    if has_name(names, name) {
        let i = choose|i: int| 0 <= i < names.len() && (#[trigger] names[i])@ == name;
        assert(longer[i]@ == name);
    }
    assert(longer[names.len() as int]@ == added@);
}

/// The categories that occur among `entries`, each once, in the order in
/// which they occur first.
fn category_names<'a>(categories: &'a Vec<Category>, entries: &Vec<&'a Entry>) -> (names: Vec<
    &'a str,
>)
    ensures
        distinct(names@),
        forall|i: int|
            0 <= i < names@.len() ==> occurs(
                entries@,
                entries@.len() as int,
                categories@,
                (#[trigger] names@[i])@,
            ),
        forall|k: int|
            0 <= k < entries@.len() ==> has_name(
                names@,
                category_of(categories@, (#[trigger] entries@[k]).product.name@),
            ),
{
    let mut names: Vec<&str> = Vec::new();
    let mut index: usize = 0;
    while index < entries.len()
        invariant
            index <= entries.len(),
            distinct(names@),
            forall|i: int|
                0 <= i < names@.len() ==> occurs(
                    entries@,
                    index as int,
                    categories@,
                    (#[trigger] names@[i])@,
                ),
            forall|k: int|
                0 <= k < index ==> has_name(
                    names@,
                    category_of(categories@, (#[trigger] entries@[k]).product.name@),
                ),
        decreases entries.len() - index,
    {
        let entry: &'a Entry = entries[index];
        let name = category_name(categories, &entry.product.name);
        let ghost before = names@;
        let ghost here = index as int;
        let known = contains_name(&names, name);
        if !known {
            names.push(name);
        }
        proof {
            assert(category_of(categories@, entries@[here].product.name@) == name@);
            assert(occurs(entries@, here + 1, categories@, name@));
            assert forall|i: int| 0 <= i < names@.len() implies occurs(
                entries@,
                here + 1,
                categories@,
                (#[trigger] names@[i])@,
            ) by {
                if i < before.len() {
                    assert(names@[i] == before[i]);
                    assert(occurs(entries@, here, categories@, before[i]@));
                    let k = choose|k: int|
                        0 <= k < here && k < entries@.len() && category_of(
                            categories@,
                            (#[trigger] entries@[k]).product.name@,
                        ) == before[i]@;
                    assert(category_of(categories@, entries@[k].product.name@) == names@[i]@);
                }
            }
            assert forall|k: int| 0 <= k < here + 1 implies has_name(
                names@,
                category_of(categories@, (#[trigger] entries@[k]).product.name@),
            ) by {
                let wanted = category_of(categories@, entries@[k].product.name@);
                if !known {
                    lemma_has_name_push(before, name, wanted);
                }
            }
            if !known {
                assert forall|i: int, j: int| 0 <= i < j < names@.len() implies (
                #[trigger] names@[i])@ != (#[trigger] names@[j])@ by {
                    assert(names@[i] == before[i]);
                    if j < before.len() {
                        assert(names@[j] == before[j]);
                    }
                }
            }
        }
        index = index + 1;
    }
    names
}

/// The entries of `entries` that are counted under the category `name`.
fn members<'a>(categories: &Vec<Category>, entries: &Vec<&'a Entry>, name: &str) -> (result: Vec<
    &'a Entry,
>)
    ensures
        pointed(result@) == counted_under(pointed(entries@), categories@, name@),
{
    let mut result: Vec<&'a Entry> = Vec::new();
    let mut index: usize = 0;
    proof {
        assert(pointed(entries@).take(0).len() == 0);
        assert(pointed(result@) == Seq::<Entry>::empty());
    }
    while index < entries.len()
        invariant
            index <= entries.len(),
            pointed(result@) == counted_under(
                pointed(entries@).take(index as int),
                categories@,
                name@,
            ),
        decreases entries.len() - index,
    {
        proof {
            let front = pointed(entries@).take(index + 1);
            assert(front.last() == *entries@[index as int]);
            assert(front.drop_last() == pointed(entries@).take(index as int));
        }
        let entry: &'a Entry = entries[index];
        let ghost before = result@;
        if same_text(category_name(categories, &entry.product.name), name) {
            result.push(entry);
            proof {
                assert(pointed(result@) == pointed(before).push(*entries@[index as int]));
            }
        }
        index = index + 1;
    }
    proof {
        assert(pointed(entries@).take(entries@.len() as int) == pointed(entries@));
    }
    result
}

/// First position in `groups` whose group spent less than `total`; the
/// length if there is none.
fn place(groups: &Vec<ByCategory>, total: i32) -> (position: usize)
    requires
        descending(groups@),
    ensures
        position <= groups@.len(),
        forall|i: int| 0 <= i < position ==> (#[trigger] groups@[i]).total_spent >= total,
        forall|i: int|
            position <= i < groups@.len() ==> (#[trigger] groups@[i]).total_spent <= total,
{
    let mut position: usize = 0;
    while position < groups.len() && groups[position].total_spent >= total
        invariant
            position <= groups@.len(),
            forall|i: int| 0 <= i < position ==> (#[trigger] groups@[i]).total_spent >= total,
        decreases groups.len() - position,
    {
        position = position + 1;
    }
    proof {
        assert forall|i: int| position <= i < groups@.len() implies (
        #[trigger] groups@[i]).total_spent <= total by {
            if i > position {
                assert(groups@[position as int].total_spent >= groups@[i].total_spent);
            }
        }
    }
    position
}

/// The entries by category, the category that spent most first. A sum that
/// overflows in one of the categories is an error.
pub fn by_category<'r>(categories: &'r Vec<Category>, entries: &Vec<&'r Entry>) -> (result:
    Result<Vec<ByCategory<'r>>, AppError>)
    ensures
        match result {
            Ok(groups) => grouped(groups@, pointed(entries@), categories@),
            Err(error) => {
                &&& some_group_overflows(pointed(entries@), categories@)
                &&& error matches AppError::Calculation { reason }
                &&& reason@ == "Overflow"@
            },
        },
{
    let ghost chosen = pointed(entries@);
    let names = category_names(categories, entries);
    let mut groups: Vec<ByCategory<'r>> = Vec::new();
    let ghost mut origin: Seq<int> = Seq::empty();
    let mut index: usize = 0;
    while index < names.len()
        invariant
            index <= names.len(),
            chosen == pointed(entries@),
            distinct(names@),
            forall|i: int|
                0 <= i < names@.len() ==> occurs(
                    entries@,
                    entries@.len() as int,
                    categories@,
                    (#[trigger] names@[i])@,
                ),
            groups@.len() == index,
            origin.len() == index,
            forall|a: int|
                0 <= a < index ==> 0 <= #[trigger] origin[a] < index && groups@[a].category@
                    == names@[origin[a]]@,
            forall|a: int, b: int|
                0 <= a < b < index ==> #[trigger] origin[a] != #[trigger] origin[b],
            forall|n: int| 0 <= n < index ==> has_group(groups@, (#[trigger] names@[n])@),
            forall|a: int| 0 <= a < index ==> group_of(#[trigger] groups@[a], chosen, categories@),
            descending(groups@),
        decreases names.len() - index,
    {
        let name: &'r str = names[index];
        let group_entries = members(categories, entries, name);
        proof {
            let k = choose|k: int|
                0 <= k < entries@.len() && category_of(
                    categories@,
                    (#[trigger] entries@[k]).product.name@,
                ) == name@;
            assert(chosen[k].product.name@ == entries@[k].product.name@);
            lemma_counted_under_own(chosen, categories@, k);
            assert(pointed(group_entries@).len() == group_entries@.len());
        }
        let (total_spent, total_products) = match stats(&group_entries) {
            Ok(numbers) => numbers,
            Err(error) => {
                return Err(error);
            },
        };
        let position = place(&groups, total_spent);
        let group = ByCategory { category: name, entries: group_entries, total_spent, total_products };
        let ghost before = groups@;
        let ghost before_origin = origin;
        groups.insert(position, group);
        proof {
            origin = before_origin.insert(position as int, index as int);
            let here = position as int;
            assert(groups@[here] == group);
            assert forall|a: int| 0 <= a < index + 1 implies 0 <= #[trigger] origin[a] < index + 1
                && groups@[a].category@ == names@[origin[a]]@ && group_of(
                groups@[a],
                chosen,
                categories@,
            ) by {
                if a < here {
                    assert(groups@[a] == before[a]);
                    assert(origin[a] == before_origin[a]);
                } else if a > here {
                    assert(groups@[a] == before[a - 1]);
                    assert(origin[a] == before_origin[a - 1]);
                }
            }
            assert forall|a: int, b: int| 0 <= a < b < index + 1 implies #[trigger] origin[a]
                != #[trigger] origin[b] by {
                let old_a = if a < here {
                    a
                } else {
                    a - 1
                };
                let old_b = if b < here {
                    b
                } else {
                    b - 1
                };
                if a != here && b != here {
                    assert(origin[a] == before_origin[old_a]);
                    assert(origin[b] == before_origin[old_b]);
                } else if a == here {
                    assert(origin[b] == before_origin[old_b]);
                } else {
                    assert(origin[a] == before_origin[old_a]);
                }
            }
            assert forall|n: int| 0 <= n < index + 1 implies has_group(
                groups@,
                (#[trigger] names@[n])@,
            ) by {
                if n < index {
                    let a = choose|a: int|
                        0 <= a < before.len() && (#[trigger] before[a]).category@ == names@[n]@;
                    if a < here {
                        assert(groups@[a] == before[a]);
                    } else {
                        assert(groups@[a + 1] == before[a]);
                    }
                } else {
                    assert(groups@[here].category@ == names@[n]@);
                }
            }
            assert forall|i: int, j: int| 0 <= i < j < groups@.len() implies (
            #[trigger] groups@[i]).total_spent >= (#[trigger] groups@[j]).total_spent by {
                let old_i = if i < here {
                    i
                } else {
                    i - 1
                };
                let old_j = if j < here {
                    j
                } else {
                    j - 1
                };
                if i != here {
                    assert(groups@[i] == before[old_i]);
                }
                if j != here {
                    assert(groups@[j] == before[old_j]);
                }
            }
        }
        index = index + 1;
    }
    proof {
        assert forall|i: int, j: int| 0 <= i < j < groups@.len() implies (
        #[trigger] groups@[i]).category@ != (#[trigger] groups@[j]).category@ by {
            assert(origin[i] != origin[j]);
            let low = if origin[i] < origin[j] {
                origin[i]
            } else {
                origin[j]
            };
            let high = if origin[i] < origin[j] {
                origin[j]
            } else {
                origin[i]
            };
            assert(names@[low]@ != names@[high]@);
        }
        assert forall|k: int| 0 <= k < chosen.len() implies has_group(
            groups@,
            category_of(categories@, (#[trigger] chosen[k]).product.name@),
        ) by {
            assert(chosen[k].product.name@ == entries@[k].product.name@);
            let wanted = category_of(categories@, entries@[k].product.name@);
            assert(has_name(names@, wanted));
            let n = choose|n: int| 0 <= n < names@.len() && (#[trigger] names@[n])@ == wanted;
            assert(has_group(groups@, names@[n]@));
        }
    }
    Ok(groups)
}

/// Whether no month begins after the month of `from` up to the month of
/// `to`: a period from `from` to `to` has no parts then.
pub open spec fn within_one_month(from: Date, to: Date) -> bool {
    (from.month >= to.month && from.year == to.year) || from.year > to.year
}

/// The last day of the month of `date`.
pub open spec fn month_end(date: Date) -> Date {
    Date {
        year: date.year,
        month: date.month,
        day: month_length(date.year as int, date.month as int) as u32,
    }
}

/// The parts of the period from `start` to `to`, month by month: every
/// part but the last ends with its month, and the next part begins on the
/// day after. (The parts are counted off by months, so that the definition
/// ends for numbers that are no dates as well.)
pub open spec fn months(start: Date, to: Date) -> Seq<(Date, Date)>
    decreases to.month_index() - start.month_index(),
{
    let end = month_end(start);
    let next = day_after(end);
    if end.earlier(to) && next.month_index() == start.month_index() + 1 && next.month_index()
        <= to.month_index() {
        seq![(start, end)] + months(next, to)
    } else {
        seq![(start, to)]
    }
}

/// For dates, the parts of a period are those of its first month and those
/// of the period from the first day of the following month on.
pub proof fn lemma_months(start: Date, to: Date)
    requires
        is_date(start),
        is_date(to),
        start.month_index() <= to.month_index(),
    ensures
        months(start, to) == if month_end(start).earlier(to) {
            seq![(start, month_end(start))] + months(day_after(month_end(start)), to)
        } else {
            seq![(start, to)]
        },
        month_end(start).earlier(to) ==> day_after(month_end(start)) == (if start.month < 12 {
            Date { year: start.year, month: (start.month + 1) as u32, day: 1 }
        } else {
            Date { year: (start.year + 1) as i32, month: 1, day: 1 }
        }),
{
}

/// The parts of the period from `from` to `to`, month by month, if the
/// period reaches into a later month.
pub fn subperiods(from: Date, to: Date) -> (result: Option<Vec<(Date, Date)>>)
    requires
        is_date(from),
        is_date(to),
        to.year < 262142,
    ensures
        match result {
            Some(periods) => {
                &&& !within_one_month(from, to)
                &&& periods@ == months(from, to)
                &&& forall|i: int|
                    0 <= i < periods@.len() ==> is_date((#[trigger] periods@[i]).0) && is_date(
                        periods@[i].1,
                    )
            },
            None => within_one_month(from, to),
        },
{
    if (from.month >= to.month && from.year == to.year) || from.year > to.year {
        return None;
    }
    let mut periods: Vec<(Date, Date)> = Vec::new();
    let mut next_period_start = from;
    let mut next_period_end = last_day_of_month(from);
    proof {
        assert(Seq::<(Date, Date)>::empty() + months(from, to) == months(from, to));
    }
    while next_period_end.is_earlier(&to)
        invariant
            is_date(to),
            to.year < 262142,
            is_date(next_period_start),
            next_period_start.month_index() <= to.month_index(),
            next_period_end == month_end(next_period_start),
            months(from, to) == periods@ + months(next_period_start, to),
            forall|i: int|
                0 <= i < periods@.len() ==> is_date((#[trigger] periods@[i]).0) && is_date(
                    periods@[i].1,
                ),
        decreases to.month_index() - next_period_start.month_index(),
    {
        let ghost before = periods@;
        let ghost start = next_period_start;
        periods.push((next_period_start, next_period_end));
        next_period_start = succ(next_period_end);
        next_period_end = last_day_of_month(next_period_start);
        proof {
            assert(start.month_index() < to.month_index());
            assert(before + (seq![(start, month_end(start))] + months(next_period_start, to))
                == before.push((start, month_end(start))) + months(next_period_start, to));
        }
    }
    let ghost before = periods@;
    periods.push((next_period_start, to));
    proof {
        assert(before + seq![(next_period_start, to)] == before.push((next_period_start, to)));
    }
    Some(periods)
}

/// The entries and categories of a user, from which reports are made.
#[derive(Debug)]
pub struct Statistics {
    entries: Vec<Entry>,
    categories: Vec<Category>,
    now: Moment,
}

/// What was spent in a period.
#[derive(Debug)]
pub struct Report<'r> {
    pub period: (Moment, Moment),
    pub total_spent: i32,
    pub total_products: i32,
    pub by_category: Vec<ByCategory<'r>>,
    pub stats: &'r Statistics,
}

/// The first and the last day of `period`, seen from the day `today`: the
/// day itself, the Monday and the Sunday of its week, the first and the
/// last day of its month or of its year, or the days that the period
/// names, whatever the day. There are none where the calendar cannot
/// represent them.
pub open spec fn days_of(today: Option<Date>, period: TimePeriod) -> Option<(Date, Date)> {
    match (period, today) {
        (TimePeriod::Any(from, to), _) => if is_date(from) && is_date(to) {
            Some((from, to))
        } else {
            None
        },
        (_, None) => None,
        (TimePeriod::Today, Some(day)) => Some((day, day)),
        (TimePeriod::ThisWeek, Some(day)) => match (day.week_day(false), day.week_day(true)) {
            (Some(monday), Some(sunday)) => Some((monday, sunday)),
            _ => None,
        },
        (TimePeriod::ThisMonth, Some(day)) => if day.year < 262142 || day.month < 12 {
            Some((Date { year: day.year, month: day.month, day: 1 }, month_end(day)))
        } else {
            None
        },
        (TimePeriod::ThisYear, Some(day)) => if day.year < 262142 {
            Some(
                (
                    Date { year: day.year, month: 1, day: 1 },
                    Date { year: day.year, month: 12, day: 31 },
                ),
            )
        } else {
            None
        },
    }
}

/// The first and the last moment of `period`, seen from the moment `now`:
/// midnight of its first day and the last second of its last day.
pub open spec fn bounds_of(now: Moment, period: TimePeriod) -> Option<(Moment, Moment)> {
    match days_of(day_of(now.seconds as int, now.nanoseconds as int), period) {
        Some((from, to)) => Some((from.first_moment(), to.last_moment())),
        None => None,
    }
}

/// The first and the last day of `period`, seen from the day `today`.
pub fn period_days(today: Option<Date>, period: TimePeriod) -> (result: Option<(Date, Date)>)
    requires
        today matches Some(day) ==> is_date(day),
    ensures
        result == days_of(today, period),
        result matches Some((from, to)) ==> is_date(from) && is_date(to),
{
    match (period, today) {
        (TimePeriod::Any(from, to), _) => {
            match (
                Date::from_ymd_opt(from.year, from.month, from.day),
                Date::from_ymd_opt(to.year, to.month, to.day),
            ) {
                (Some(from), Some(to)) => Some((from, to)),
                _ => None,
            }
        },
        (_, None) => None,
        (TimePeriod::Today, Some(day)) => Some((day, day)),
        (TimePeriod::ThisWeek, Some(day)) => {
            let week = iso_week(day);
            match (from_isoywd_opt(day.year, week, false), from_isoywd_opt(day.year, week, true)) {
                (Some(monday), Some(sunday)) => Some((monday, sunday)),
                _ => None,
            }
        },
        (TimePeriod::ThisMonth, Some(day)) => {
            if day.year >= 262142 && day.month >= 12 {
                return None;
            }
            Some((Date { year: day.year, month: day.month, day: 1 }, last_day_of_month(day)))
        },
        (TimePeriod::ThisYear, Some(day)) => {
            if day.year >= 262142 {
                return None;
            }
            let december = Date { year: day.year, month: 12, day: 1 };
            Some((Date { year: day.year, month: 1, day: 1 }, last_day_of_month(december)))
        },
    }
}

/// Whether `report` is the report of `statistics` on the entries between
/// `from` and `till`: their sum and number, and their groups by category.
pub open spec fn reports_on(
    report: Report,
    statistics: &Statistics,
    from: Moment,
    till: Moment,
) -> bool {
    let chosen = selected(statistics.records(), from, till);
    &&& chosen.len() > 0
    &&& report.period == (from, till)
    &&& spent(chosen) == Some(report.total_spent)
    &&& chosen.len() <= i32::MAX ==> report.total_products == chosen.len()
    &&& grouped(report.by_category@, chosen, statistics.labels())
    &&& report.stats == statistics
}

/// Whether a sum overflows in the report on the entries between `from` and
/// `till`: that of all the entries, or that of one category.
pub open spec fn overflows(statistics: &Statistics, from: Moment, till: Moment) -> bool {
    let chosen = selected(statistics.records(), from, till);
    chosen.len() > 0 && (spent(chosen) is None || some_group_overflows(
        chosen,
        statistics.labels(),
    ))
}

impl Statistics {
    /// The entries.
    pub closed spec fn records(&self) -> Seq<Entry> {
        self.entries@
    }

    /// The category records.
    pub closed spec fn labels(&self) -> Seq<Category> {
        self.categories@
    }

    /// The time at which the statistics were set up.
    pub closed spec fn made_at(&self) -> Moment {
        self.now
    }

    /// Statistics on `entries` with the categories `categories`, set up at
    /// the local time of the clock.
    pub fn new(entries: Vec<Entry>, categories: Vec<Category>) -> (statistics: Statistics)
        ensures
            statistics.records() == entries@,
            statistics.labels() == categories@,
    {
        Statistics { entries, categories, now: local_now() }
    }

    /// The time at which the statistics were set up.
    pub fn now(&self) -> (now: Moment)
        ensures
            now == self.made_at(),
    {
        self.now
    }

    /// The first and the last moment of `period`, seen from the time at
    /// which the statistics were set up. A period that the calendar cannot
    /// represent is an `InvalidDate`.
    pub fn period(&self, period: TimePeriod) -> (result: Result<(Moment, Moment), AppError>)
        ensures
            match result {
                Ok(bounds) => bounds_of(self.made_at(), period) == Some(bounds),
                Err(error) => bounds_of(self.made_at(), period) is None
                    && error matches AppError::InvalidDate,
            },
    {
        match period_days(date_of(self.now), period) {
            Some((from, to)) => Ok((day_at(from, 0, 0, 0), day_at(to, 23, 59, 59))),
            None => Err(AppError::InvalidDate),
        }
    }

    /// The report on the entries of `period`. Without such entries there
    /// is no report. A period that the calendar cannot represent is an
    /// `InvalidDate`, and a sum that overflows is an error.
    pub fn report(&self, period: TimePeriod) -> (result: Result<Option<Report<'_>>, AppError>)
        ensures
            match (bounds_of(self.made_at(), period), result) {
                (None, Err(error)) => error matches AppError::InvalidDate,
                (None, Ok(_)) => false,
                (Some((from, till)), Ok(None)) => selected(self.records(), from, till).len() == 0,
                (Some((from, till)), Ok(Some(report))) => reports_on(report, self, from, till),
                (Some((from, till)), Err(error)) => {
                    &&& overflows(self, from, till)
                    &&& error matches AppError::Calculation { reason }
                    &&& reason@ == "Overflow"@
                },
            },
    {
        let (from, till) = match self.period(period) {
            Ok(bounds) => bounds,
            Err(error) => {
                return Err(error);
            },
        };
        self.report_between(from, till)
    }

    /// The report on the entries between `from` and `till`, both included.
    /// Without such entries there is no report. A sum that overflows, that
    /// of all the entries or that of one category, is an error.
    pub fn report_between(&self, from: Moment, till: Moment) -> (result: Result<
        Option<Report<'_>>,
        AppError,
    >)
        ensures
            match result {
                Ok(None) => selected(self.records(), from, till).len() == 0,
                Ok(Some(report)) => reports_on(report, self, from, till),
                Err(error) => {
                    &&& overflows(self, from, till)
                    &&& error matches AppError::Calculation { reason }
                    &&& reason@ == "Overflow"@
                },
            },
    {
        let entries_in_period = entries_in_period(&self.entries, &from, &till);
        proof {
            assert(pointed(entries_in_period@).len() == entries_in_period@.len());
        }
        if entries_in_period.len() == 0 {
            return Ok(None);
        }
        let total_spent = match total_spent(&entries_in_period) {
            Ok(total) => total,
            Err(error) => {
                return Err(error);
            },
        };
        let by_category = match by_category(&self.categories, &entries_in_period) {
            Ok(groups) => groups,
            Err(error) => {
                return Err(error);
            },
        };
        Ok(
            Some(
                Report {
                    period: (from, till),
                    total_spent,
                    total_products: count(&entries_in_period),
                    by_category,
                    stats: self,
                },
            ),
        )
    }
}

/// The periods among `periods` in which `statistics` has entries, each as
/// its first and last moment.
pub open spec fn covered(statistics: &Statistics, periods: Seq<(Date, Date)>) -> Seq<
    (Moment, Moment),
>
    decreases periods.len(),
{
    if periods.len() == 0 {
        Seq::empty()
    } else {
        let before = covered(statistics, periods.drop_last());
        let from = periods.last().0.first_moment();
        let till = periods.last().1.last_moment();
        if selected(statistics.records(), from, till).len() > 0 {
            before.push((from, till))
        } else {
            before
        }
    }
}

/// The periods of `reports`.
pub open spec fn periods_of(reports: Seq<Report>) -> Seq<(Moment, Moment)> {
    reports.map_values(|report: Report| report.period)
}

/// Whether a sum overflows in the report on one of `periods`.
pub open spec fn some_period_overflows(statistics: &Statistics, periods: Seq<(Date, Date)>) -> bool {
    exists|i: int|
        0 <= i < periods.len() && overflows(
            statistics,
            (#[trigger] periods[i]).0.first_moment(),
            periods[i].1.last_moment(),
        )
}

impl<'r> Report<'r> {
    /// The first and the last day of the report, where the calendar can
    /// represent them and the months between them.
    pub open spec fn days(&self) -> Option<(Date, Date)> {
        match (
            day_of(self.period.0.seconds as int, self.period.0.nanoseconds as int),
            day_of(self.period.1.seconds as int, self.period.1.nanoseconds as int),
        ) {
            (Some(from), Some(to)) => if to.year < 262142 {
                Some((from, to))
            } else {
                None
            },
            _ => None,
        }
    }

    /// The reports on the months of the report, one for each month that has
    /// entries, if the report reaches into a later month than that of its
    /// first day. The reports are made from the same statistics.
    pub fn subreports(&self) -> (result: Result<Option<Vec<Report<'r>>>, AppError>)
        ensures
            match self.days() {
                Some((from, to)) => match result {
                    Ok(None) => within_one_month(from, to),
                    Ok(Some(reports)) => {
                        &&& !within_one_month(from, to)
                        &&& periods_of(reports@) == covered(self.stats, months(from, to))
                        &&& forall|i: int|
                            0 <= i < reports@.len() ==> reports_on(
                                #[trigger] reports@[i],
                                self.stats,
                                reports@[i].period.0,
                                reports@[i].period.1,
                            )
                    },
                    Err(error) => {
                        &&& !within_one_month(from, to)
                        &&& some_period_overflows(self.stats, months(from, to))
                        &&& error matches AppError::Calculation { reason }
                        &&& reason@ == "Overflow"@
                    },
                },
                None => result matches Err(AppError::InvalidDate),
            },
    {
        let (from, to) = match (date_of(self.period.0), date_of(self.period.1)) {
            (Some(from), Some(to)) => (from, to),
            _ => {
                return Err(AppError::InvalidDate);
            },
        };
        if to.year >= 262142 {
            return Err(AppError::InvalidDate);
        }
        let periods = match subperiods(from, to) {
            Some(periods) => periods,
            None => {
                return Ok(None);
            },
        };
        let stats: &'r Statistics = self.stats;
        let mut subreports: Vec<Report<'r>> = Vec::new();
        let mut index: usize = 0;
        proof {
            assert(periods@.take(0).len() == 0);
            assert(periods_of(subreports@) == Seq::<(Moment, Moment)>::empty());
        }
        while index < periods.len()
            invariant
                index <= periods.len(),
                stats == self.stats,
                self.days() == Some((from, to)),
                !within_one_month(from, to),
                periods@ == months(from, to),
                forall|i: int|
                    0 <= i < periods@.len() ==> is_date((#[trigger] periods@[i]).0) && is_date(
                        periods@[i].1,
                    ),
                periods_of(subreports@) == covered(stats, periods@.take(index as int)),
                forall|i: int|
                    0 <= i < subreports@.len() ==> reports_on(
                        #[trigger] subreports@[i],
                        stats,
                        subreports@[i].period.0,
                        subreports@[i].period.1,
                    ),
            decreases periods.len() - index,
        {
            let (first, last) = periods[index];
            proof {
                let front = periods@.take(index + 1);
                assert(front.last() == periods@[index as int]);
                assert(front.drop_last() == periods@.take(index as int));
                assert(is_date(periods@[index as int].0));
            }
            let ghost before = subreports@;
            match stats.report_between(day_at(first, 0, 0, 0), day_at(last, 23, 59, 59)) {
                Ok(Some(subreport)) => {
                    subreports.push(subreport);
                    proof {
                        assert(periods_of(subreports@) == periods_of(before).push(
                            subreport.period,
                        ));
                        assert forall|i: int| 0 <= i < subreports@.len() implies reports_on(
                            #[trigger] subreports@[i],
                            stats,
                            subreports@[i].period.0,
                            subreports@[i].period.1,
                        ) by {
                            if i < before.len() {
                                assert(subreports@[i] == before[i]);
                            }
                        }
                    }
                },
                Ok(None) => {},
                Err(error) => {
                    return Err(error);
                },
            }
            index = index + 1;
        }
        proof {
            assert(periods@.take(periods@.len() as int) == periods@);
        }
        Ok(Some(subreports))
    }
}

} // verus!
