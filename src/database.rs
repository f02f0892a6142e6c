//! The catalog: the named collections of one store.

use vstd::prelude::*;
use crate::collection::Collection;
use crate::error::{NosqliteError, NosqliteErrorHandler, logged};
use crate::json::{Json, JsonValue, text_eq};

verus! {

/// The collections of a store, in the order they were added; no two share a
/// name.
#[derive(Debug)]
pub struct Database {
    pub collections: Vec<Collection>,
}

/// Whether some collection has the given name.
pub open spec fn has_name(cs: Seq<Collection>, name: Seq<char>) -> bool {
    exists|i: int| 0 <= i < cs.len() && (#[trigger] cs[i]).name@ == name
}

/// What adding a collection named `name` with the schema `structure` does.
pub open spec fn added(before: Database, after: Database, name: Seq<char>, structure: Json, r: Result<(), NosqliteError>) -> bool {
    &&& has_name(before.collections@, name) ==> (r matches Err(NosqliteError::CollectionAlreadyExists(_)))
    &&& !has_name(before.collections@, name) && name.len() == 0
            ==> (r matches Err(NosqliteError::CollectionNameEmpty()))
    &&& !has_name(before.collections@, name) && name.len() > 0 && !(structure is Object)
            ==> (r matches Err(NosqliteError::DocumentInvalid(_)))
    &&& r is Ok <==> !has_name(before.collections@, name) && name.len() > 0 && structure is Object
    &&& r is Err ==> after.collections@ == before.collections@
    &&& r is Ok ==> after.collections@.len() == before.collections@.len() + 1
            && after.collections@.drop_last() == before.collections@
            && after.collections@.last().name@ == name
            && after.collections@.last().structure@ == structure
            && after.collections@.last().documents@.len() == 0
    &&& before.wf() ==> after.wf()
}

/// Once a collection named `name` was added, adding one of that name again
/// fails with `CollectionAlreadyExists`, whatever the schema.
pub proof fn lemma_add_twice_fails(before: Database, after: Database, name: Seq<char>, structure: Json, r: Result<(), NosqliteError>)
    requires
        added(before, after, name, structure, r),
        r is Ok,
    ensures
        has_name(after.collections@, name),
        forall|next: Database, structure2: Json, r2: Result<(), NosqliteError>|
            #[trigger] added(after, next, name, structure2, r2)
                ==> (r2 matches Err(NosqliteError::CollectionAlreadyExists(_))),
{
    let i = after.collections@.len() - 1;
    assert(after.collections@[i] == after.collections@.last());
}

impl Database {
    /// No two collections share a name, and each collection is consistent.
    pub open spec fn wf(&self) -> bool {
        &&& forall|i: int, j: int| 0 <= i < self.collections@.len() && 0 <= j < self.collections@.len() && i != j
            ==> (#[trigger] self.collections@[i]).name@ != (#[trigger] self.collections@[j]).name@
        &&& forall|i: int| 0 <= i < self.collections@.len() ==> (#[trigger] self.collections@[i]).wf()
    }

    /// An empty catalog for the store at `db_path`.
    pub fn new(db_path: &str) -> (r: Database)
        ensures
            r.collections@.len() == 0,
            r.wf(),
    {
        Database { collections: Vec::new() }
    }

    /// The position of the collection named `name`.
    pub fn find_collection(&self, name: &str) -> (r: Option<usize>)
        ensures
            match r {
                Some(i) => i < self.collections@.len() && self.collections@[i as int].name@ == name@
                    && forall|j: int| 0 <= j < i ==> (#[trigger] self.collections@[j]).name@ != name@,
                None => !has_name(self.collections@, name@),
            },
    {
        let mut i: usize = 0;
        while i < self.collections.len()
            invariant
                i <= self.collections@.len(),
                forall|j: int| 0 <= j < i ==> (#[trigger] self.collections@[j]).name@ != name@,
            decreases self.collections@.len() - i,
        {
            if text_eq(self.collections[i].name.as_str(), name) {
                return Some(i);
            }
            i = i + 1;
        }
        None
    }

    /// Adds an empty collection named `name` with the schema `structure`.
    pub fn add_collection(
        &mut self,
        name: &str,
        structure: JsonValue,
        handler: &mut NosqliteErrorHandler,
    ) -> (r: Result<(), NosqliteError>)
        ensures
            logged(*old(handler), *final(handler), r),
            added(*old(self), *final(self), name@, structure@, r),

    {
        if self.find_collection(name).is_some() {
            return handler.raise(NosqliteError::CollectionAlreadyExists(name.to_string()));
        }
        if name.is_empty() {
            return handler.raise(NosqliteError::CollectionNameEmpty());
        }
        if !structure.is_object() {
            return handler.raise(NosqliteError::DocumentInvalid(
                "The structure must be a JSON object".to_string(),
            ));
        }
        let collection = Collection::new(name.to_string(), structure);
        let ghost before = self.collections@;
        self.collections.push(collection);
        proof {
            assert(self.collections@.drop_last() =~= before);
            assert forall|i: int, j: int| 0 <= i < self.collections@.len() && 0 <= j < self.collections@.len() && i != j
                && old(self).wf()
                implies (#[trigger] self.collections@[i]).name@ != (#[trigger] self.collections@[j]).name@ by {
                if i < before.len() && j < before.len() {
                    assert(before[i] == self.collections@[i]);
                    assert(before[j] == self.collections@[j]);
                } else if i < before.len() {
                    assert(before[i] == self.collections@[i]);
                } else {
                    assert(before[j] == self.collections@[j]);
                }
            }
            assert forall|i: int| 0 <= i < self.collections@.len() && old(self).wf()
                implies (#[trigger] self.collections@[i]).wf() by {
                if i < before.len() {
                    assert(before[i] == self.collections@[i]);
                }
            }
        }
        Ok(())
    }

    /// Removes the collection named `name`, with all its documents.
    pub fn remove_collection(&mut self, name: &str, handler: &mut NosqliteErrorHandler) -> (r: Result<(), NosqliteError>)
        ensures
            logged(*old(handler), *final(handler), r),
            r is Ok <==> has_name(old(self).collections@, name@),
            r is Err ==> r matches Err(NosqliteError::CollectionNotFound(_)),
            r is Err ==> final(self).collections@ == old(self).collections@,
            r is Ok ==> exists|i: int| 0 <= i < old(self).collections@.len()
                && old(self).collections@[i].name@ == name@
                && final(self).collections@ == old(self).collections@.remove(i),
            r is Ok && old(self).wf() ==> !has_name(final(self).collections@, name@),
            old(self).wf() ==> final(self).wf(),
    {
        match self.find_collection(name) {
            None => handler.raise(NosqliteError::CollectionNotFound(name.to_string())),
            Some(index) => {
                let ghost before = self.collections@;
                self.collections.remove(index);
                proof {
                    let after = self.collections@;
                    assert forall|i: int| 0 <= i < after.len() implies
                        (#[trigger] after[i]) == before[if i < index { i } else { i + 1 }] by {}
                    if old(self).wf() {
                        assert forall|i: int, j: int| 0 <= i < after.len() && 0 <= j < after.len() && i != j
                            implies (#[trigger] after[i]).name@ != (#[trigger] after[j]).name@ by {
                            let i2 = if i < index { i } else { i + 1 };
                            let j2 = if j < index { j } else { j + 1 };
                            assert(after[i] == before[i2]);
                            assert(after[j] == before[j2]);
                        }
                        assert forall|i: int| 0 <= i < after.len() implies (#[trigger] after[i]).wf() by {
                            let i2 = if i < index { i } else { i + 1 };
                            assert(after[i] == before[i2]);
                        }
                        if has_name(after, name@) {
                            let i = choose|i: int| 0 <= i < after.len() && (#[trigger] after[i]).name@ == name@;
                            let i2 = if i < index { i } else { i + 1 };
                            assert(after[i] == before[i2]);
                            assert(before[index as int].name@ == name@);
                        }
                    }
                }
                Ok(())
            },
        }
    }

    /// The collection named `name`.
    pub fn get_collection(&self, name: &str) -> (r: Option<&Collection>)
        ensures
            match r {
                Some(c) => exists|i: int| 0 <= i < self.collections@.len() && self.collections@[i] == *c
                    && c.name@ == name@,
                None => !has_name(self.collections@, name@),
            },
    {
        match self.find_collection(name) {
            Some(i) => Some(&self.collections[i]),
            None => None,
        }
    }

    /// The collection named `name`, to change it in place.
    pub fn get_collection_mut(&mut self, name: &str) -> (r: Option<&mut Collection>)
        ensures
            match r {
                Some(c) => exists|i: int| 0 <= i < old(self).collections@.len()
                    && old(self).collections@[i] == *c
                    && c.name@ == name@
                    && final(self).collections@ == old(self).collections@.update(i, *final(c)),
                None => !has_name(old(self).collections@, name@) && final(self).collections@ == old(self).collections@,
            },
    {
        match self.find_collection(name) {
            Some(i) => Some(&mut self.collections[i]),
            None => None,
        }
    }
}

impl Default for Database {
    /// An empty catalog.
    fn default() -> (r: Self)
        ensures
            r.collections@.len() == 0,
    {
        Database::new("db.nosqlite")
    }
}

} // verus!
