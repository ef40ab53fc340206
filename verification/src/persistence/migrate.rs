//! Migrations: changes made to every record of a table.

use vstd::prelude::*;
use vstd::string::StringExecFns;
use super::error::PersistenceError;
use crate::accounting::id::random_uuid;

verus! {

/// One field of a JSON object: its name, and its value as JSON text.
#[derive(Debug, Clone, PartialEq, Eq)]
pub struct Field {
    pub name: String,
    pub value: String,
}

/// A JSON value as a migration sees it: an object with its fields, or
/// anything else.
#[derive(Debug, Clone, PartialEq, Eq)]
pub enum Json {
    Object(Vec<Field>),
    Other,
}

/// A change to make to every record of a table.
#[derive(Debug)]
pub enum Migration {
    /// Takes the field of this name away.
    RemoveField(String),
    /// Adds a field of this name with this value, given as JSON text.
    AddField(String, String),
    /// Adds a field of this name with a fresh identifier as its value.
    GenerateUid(String),
}

/// Whether one of `fields` has the name `name`.
pub open spec fn has_field(fields: Seq<Field>, name: Seq<char>) -> bool {
    exists|i: int| 0 <= i < fields.len() && (#[trigger] fields[i]).name@ == name
}

/// `fields` without those of the name `name`, in their order.
pub open spec fn without(fields: Seq<Field>, name: Seq<char>) -> Seq<Field>
    decreases fields.len(),
{
    if fields.len() == 0 {
        Seq::empty()
    } else {
        let before = without(fields.drop_last(), name);
        if fields.last().name@ == name {
            before
        } else {
            before.push(fields.last())
        }
    }
}

/// Whether one of `fields` has the name `name`.
fn contains_field(fields: &Vec<Field>, name: &String) -> (result: bool)
    ensures
        result == has_field(fields@, name@),
{
    let mut index: usize = 0;
    while index < fields.len()
        invariant
            index <= fields.len(),
            forall|i: int| 0 <= i < index ==> (#[trigger] fields@[i]).name@ != name@,
        decreases fields.len() - index,
    {
        if fields[index].name == *name {
            return true;
        }
        index = index + 1;
    }
    false
}

/// `fields` without those of the name `name`.
fn remove_field(fields: Vec<Field>, name: &String) -> (result: Vec<Field>)
    ensures
        result@ == without(fields@, name@),
{
    let mut fields = fields;
    let ghost all = fields@;
    let mut kept: Vec<Field> = Vec::new();
    let mut tail: Vec<Field> = Vec::new();
    // Fields are taken from the end, so the kept ones come out reversed.
    while fields.len() > 0
        invariant
            fields@ == all.take(fields@.len() as int),
            fields@.len() <= all.len(),
            without(all, name@) == without(fields@, name@) + tail@.reverse(),
        decreases fields.len(),
    {
        let ghost before = fields@;
        let ghost before_tail = tail@;
        let field = fields.pop().unwrap();
        proof {
            assert(fields@ == before.drop_last());
            assert(fields@ == all.take(fields@.len() as int));
        }
        if field.name != *name {
            tail.push(field);
            proof {
                assert(tail@.reverse() == seq![field] + before_tail.reverse());
                assert(without(before, name@) == without(fields@, name@).push(field));
                assert(without(fields@, name@).push(field) + before_tail.reverse() == without(
                    fields@,
                    name@,
                ) + (seq![field] + before_tail.reverse()));
            }
        }
    }
    proof {
        assert(without(fields@, name@) == Seq::<Field>::empty());
        assert(Seq::<Field>::empty() + tail@.reverse() == tail@.reverse());
    }
    while tail.len() > 0
        invariant
            kept@ + tail@.reverse() == without(all, name@),
        decreases tail.len(),
    {
        let ghost before_tail = tail@;
        let ghost before_kept = kept@;
        let field = tail.pop().unwrap();
        kept.push(field);
        proof {
            assert(before_tail.reverse() == seq![field] + tail@.reverse());
            assert(before_kept.push(field) + tail@.reverse() == before_kept + (seq![field]
                + tail@.reverse()));
        }
    }
    proof {
        assert(tail@.reverse() == Seq::<Field>::empty());
        assert(kept@ + Seq::<Field>::empty() == kept@);
    }
    kept
}

impl Migration {
    /// The migration that takes the field `field_name` away.
    pub fn remove(field_name: String) -> (migration: Migration)
        ensures
            migration == Migration::RemoveField(field_name),
    {
        Migration::RemoveField(field_name)
    }

    /// The migration that adds the field `field_name` with the value that
    /// the JSON text `value` spells.
    pub fn add(field_name: String, value: String) -> (migration: Migration)
        ensures
            migration == Migration::AddField(field_name, value),
    {
        Migration::AddField(field_name, value)
    }

    /// The migration that adds the field `field_name` with a fresh
    /// identifier.
    pub fn generate_uid(field_name: String) -> (migration: Migration)
        ensures
            migration == Migration::GenerateUid(field_name),
    {
        Migration::GenerateUid(field_name)
    }

    /// Applies the migration to one record. Only an object can be
    /// migrated; a field can be removed only where it is, and added only
    /// where it is not.
    pub fn apply(&self, value: Json) -> (result: Result<Json, PersistenceError>)
        ensures
            match (value, *self) {
                (Json::Other, _) => result matches Err(PersistenceError::JsonValueIsNotObject),
                (Json::Object(fields), Migration::RemoveField(name)) => if has_field(
                    fields@,
                    name@,
                ) {
                    result matches Ok(Json::Object(left)) && left@ == without(fields@, name@)
                } else {
                    result matches Err(PersistenceError::NoSuchKeyInJsonValue)
                },
                (Json::Object(fields), Migration::AddField(name, text)) => if has_field(
                    fields@,
                    name@,
                ) {
                    result matches Err(PersistenceError::KeyWasAlreadyInObject)
                } else {
                    &&& result matches Ok(Json::Object(more))
                    &&& more@.len() == fields@.len() + 1
                    &&& more@.drop_last() == fields@
                    &&& more@.last().name@ == name@
                    &&& more@.last().value@ == text@
                },
                (Json::Object(fields), Migration::GenerateUid(name)) => if has_field(
                    fields@,
                    name@,
                ) {
                    result matches Err(PersistenceError::KeyWasAlreadyInObject)
                } else {
                    &&& result matches Ok(Json::Object(more))
                    &&& more@.len() == fields@.len() + 1
                    &&& more@.drop_last() == fields@
                    &&& more@.last().name@ == name@
                    &&& more@.last().value@.len() == 38
                    &&& more@.last().value@.first() == '"'
                    &&& more@.last().value@.last() == '"'
                },
            },
    {
        let fields = match value {
            Json::Object(fields) => fields,
            Json::Other => {
                return Err(PersistenceError::JsonValueIsNotObject);
            },
        };
        match self {
            Migration::RemoveField(field_name) => {
                if !contains_field(&fields, field_name) {
                    return Err(PersistenceError::NoSuchKeyInJsonValue);
                }
                Ok(Json::Object(remove_field(fields, field_name)))
            },
            Migration::AddField(field_name, field_value) => {
                if contains_field(&fields, field_name) {
                    return Err(PersistenceError::KeyWasAlreadyInObject);
                }
                let mut fields = fields;
                let ghost before = fields@;
                fields.push(Field { name: field_name.clone(), value: field_value.clone() });
                assert(fields@.drop_last() == before);
                Ok(Json::Object(fields))
            },
            Migration::GenerateUid(field_name) => {
                if contains_field(&fields, field_name) {
                    return Err(PersistenceError::KeyWasAlreadyInObject);
                }
                let mut quoted = "\"".to_owned();
                let uid = random_uuid();
                proof {
                    reveal_strlit("\"");
                }
                quoted.append(uid.as_str());
                quoted.append("\"");
                let mut fields = fields;
                let ghost before = fields@;
                fields.push(Field { name: field_name.clone(), value: quoted });
                assert(fields@.drop_last() == before);
                Ok(Json::Object(fields))
            },
        }
    }
}

} // verus!
