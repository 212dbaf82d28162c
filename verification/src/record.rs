//! What a backend's listing yields: object records, and the pages they
//! arrive in.

use vstd::prelude::*;

verus! {

/// One listed object.
#[derive(Clone, Debug, PartialEq, Eq)]
pub struct ObjectRecord {
    /// The object's key within its bucket.
    pub key: String,
    /// The object's size in bytes.
    pub size: u64,
    /// When the object was last modified, as the backend wrote it.
    pub last_modified: String,
}

/// One batch of a listing. The continuation token is present unless the
/// page is the last one.
#[derive(Clone, Debug, PartialEq, Eq)]
pub struct ObjectPage {
    /// The objects of the page, in listing order.
    pub records: Vec<ObjectRecord>,
    /// The token to ask the next page with; none on the last page.
    pub next_token: Option<String>,
}

/// The records of `pages`, in listing order.
pub open spec fn flatten(pages: Seq<ObjectPage>) -> Seq<ObjectRecord>
    decreases pages.len(),
{
    if pages.len() == 0 {
        Seq::<ObjectRecord>::empty()
    } else {
        flatten(pages.drop_last()) + pages.last().records@
    }
}

impl ObjectRecord {
    /// The record of an object as a backend lists it.
    pub fn new(key: String, size: u64, last_modified: String) -> (record: ObjectRecord)
        ensures
            record.key == key,
            record.size == size,
            record.last_modified == last_modified,
    {
        ObjectRecord { key, size, last_modified }
    }
}

impl ObjectPage {
    /// A page that holds `records` and announces the page after it with
    /// `next_token`, if it announces one.
    pub fn new(records: Vec<ObjectRecord>, next_token: Option<String>) -> (page: ObjectPage)
        ensures
            page.records == records,
            page.next_token == next_token,
    {
        ObjectPage { records, next_token }
    }

    /// Tells whether the backend announced a further page.
    pub fn has_more(&self) -> (more: bool)
        ensures
            more == self.next_token.is_some(),
    {
        self.next_token.is_some()
    }
}

} // verus!
