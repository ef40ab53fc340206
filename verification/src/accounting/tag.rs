//! Tags of an entry.

use vstd::prelude::*;

verus! {

/// The tags of an entry.
#[derive(Debug)]
pub struct Tags {
    pub tags: Vec<Tag>,
}

/// One tag.
#[derive(Debug)]
pub struct Tag {
    pub value: String,
}

impl Tags {
    /// No tags.
    pub fn empty() -> (tags: Tags)
        ensures
            tags.tags@.len() == 0,
    {
        Tags { tags: Vec::with_capacity(0) }
    }
}

} // verus!
