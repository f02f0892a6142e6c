//! Operations on the collections of a catalog, each failure recorded in the
//! handler.

use vstd::prelude::*;
use crate::collection::Collection;
use crate::database::{Database, added, has_name};
use crate::error::{NosqliteError, NosqliteErrorHandler, logged};
use crate::json::JsonValue;

verus! {

/// Adds an empty collection to the catalog (see `Database::add_collection`).
pub fn create_collection(
    db: &mut Database,
    name: &str,
    structure: JsonValue,
    handler: &mut NosqliteErrorHandler,
) -> (r: Result<(), NosqliteError>)
    ensures
        logged(*old(handler), *final(handler), r),
        added(*old(db), *final(db), name@, structure@, r),

{
    db.add_collection(name, structure, handler)
}

/// Removes a collection from the catalog (see `Database::remove_collection`).
pub fn delete_collection(db: &mut Database, name: &str, handler: &mut NosqliteErrorHandler) -> (r: Result<(), NosqliteError>)
    ensures
        logged(*old(handler), *final(handler), r),
        r is Ok <==> has_name(old(db).collections@, name@),
        r is Err ==> r matches Err(NosqliteError::CollectionNotFound(_)),
        r is Err ==> final(db).collections@ == old(db).collections@,
        r is Ok ==> exists|i: int| 0 <= i < old(db).collections@.len()
            && old(db).collections@[i].name@ == name@
            && final(db).collections@ == old(db).collections@.remove(i),
        r is Ok && old(db).wf() ==> !has_name(final(db).collections@, name@),
        old(db).wf() ==> final(db).wf(),
{
    db.remove_collection(name, handler)
}

/// The collection named `name`, or `CollectionNotFound`.
pub fn get_collection<'a>(db: &'a Database, name: &str, handler: &mut NosqliteErrorHandler) -> (r: Result<&'a Collection, NosqliteError>)
    ensures
        logged(*old(handler), *final(handler), r),
        r is Ok <==> has_name(db.collections@, name@),
        r is Err ==> r matches Err(NosqliteError::CollectionNotFound(_)),
        match r {
            Ok(c) => exists|i: int| 0 <= i < db.collections@.len() && db.collections@[i] == *c && c.name@ == name@,
            Err(_) => true,
        },
{
    match db.get_collection(name) {
        Some(c) => Ok(c),
        None => handler.raise(NosqliteError::CollectionNotFound(name.to_string())),
    }
}

/// The collection named `name`, to change in place, or `CollectionNotFound`.
pub fn get_collection_mut<'a>(
    db: &'a mut Database,
    name: &str,
    handler: &mut NosqliteErrorHandler,
) -> (r: Result<&'a mut Collection, NosqliteError>)
    ensures
        logged(*old(handler), *final(handler), r),
        r is Ok <==> has_name(old(db).collections@, name@),
        r is Err ==> r matches Err(NosqliteError::CollectionNotFound(_)),
        match r {
            Ok(c) => exists|i: int| 0 <= i < old(db).collections@.len()
                && old(db).collections@[i] == *c
                && c.name@ == name@
                && final(db).collections@ == old(db).collections@.update(i, *final(c)),
            Err(_) => final(db).collections@ == old(db).collections@,
        },
{
    match db.get_collection_mut(name) {
        Some(c) => Ok(c),
        None => handler.raise(NosqliteError::CollectionNotFound(name.to_string())),
    }
}

/// The collections of the catalog, in the order they were added.
pub fn list_collections(db: &Database) -> (r: Vec<&Collection>)
    ensures
        r@.len() == db.collections@.len(),
        forall|i: int| 0 <= i < r@.len() ==> *(#[trigger] r@[i]) == db.collections@[i],
{
    let mut out: Vec<&Collection> = Vec::new();
    let mut i: usize = 0;
    while i < db.collections.len()
        invariant
            i <= db.collections@.len(),
            out@.len() == i,
            forall|j: int| 0 <= j < i ==> *(#[trigger] out@[j]) == db.collections@[j],
        decreases db.collections@.len() - i,
    {
        out.push(&db.collections[i]);
        i = i + 1;
    }
    out
}

} // verus!
