//! A single record of a collection.

use vstd::prelude::*;
use crate::json::JsonValue;
use crate::utils::{new_id, now};

verus! {

/// A record: an identifier, a payload, and the times it was created and
/// last written, in seconds since the Unix epoch.
#[derive(Debug)]
pub struct Document {
    pub id: String,
    pub data: JsonValue,
    pub updated_at: u64,
    pub created_at: u64,
}

impl Document {
    /// The timestamps are in order.
    pub open spec fn wf(&self) -> bool {
        self.created_at <= self.updated_at
    }

    /// A new document holding `data`, with a fresh identifier and both
    /// timestamps set to the current time.
    pub fn new(data: JsonValue) -> (r: Document)
        ensures
            r.data@ == data@,
            r.id@.len() == 36,
            r.created_at == r.updated_at,
            r.wf(),
    {
        let t = now();
        Document { id: new_id(), data, created_at: t, updated_at: t }
    }

    /// Replaces the payload and refreshes the update time, which never goes
    /// below the creation time.
    pub fn set_data(&mut self, data: JsonValue, at: u64)
        ensures
            final(self).data@ == data@,
            final(self).id == old(self).id,
            final(self).created_at == old(self).created_at,
            final(self).updated_at == if at >= old(self).created_at { at } else { old(self).created_at },
            final(self).wf(),
    {
        self.data = data;
        self.touch(at);
    }

    /// Refreshes the update time to `at`, or to the creation time if `at`
    /// is earlier.
    pub fn touch(&mut self, at: u64)
        ensures
            final(self).data == old(self).data,
            final(self).id == old(self).id,
            final(self).created_at == old(self).created_at,
            final(self).updated_at == if at >= old(self).created_at { at } else { old(self).created_at },
            final(self).wf(),
    {
        self.updated_at = if at >= self.created_at { at } else { self.created_at };
    }
}

impl Clone for Document {
    fn clone(&self) -> (r: Self)
        ensures
            r.id == self.id,
            r.data@ == self.data@,
            r.created_at == self.created_at,
            r.updated_at == self.updated_at,
    {
        Document {
            id: self.id.clone(),
            data: self.data.clone(),
            updated_at: self.updated_at,
            created_at: self.created_at,
        }
    }
}

impl Default for Document {
    fn default() -> (r: Self)
        ensures
            r.data@ == crate::json::Json::Null,
            r.id@.len() == 36,
            r.created_at == r.updated_at,
    {
        Document::new(JsonValue::Null)
    }
}

} // verus!
