//! Operations on the documents of a named collection of a catalog, and the
//! query that filters documents and projects their fields.

use vstd::prelude::*;
use crate::collection::{Collection, any_match, deleted, doc_matches, doc_ok, field_set, inserted, lemma_unmatched, replaced};
use crate::database::{Database, has_name};
use crate::document::Document;
use crate::error::{NosqliteError, NosqliteErrorHandler, logged};
use crate::json::{Json, JsonMap, JsonNumber, JsonValue, json_eq, keys_distinct, entries_view, lemma_entries_view, lemma_resolve_plain};

verus! {

/// The catalog changed in the collection named `name` alone, as `step`
/// relates its state before and after; or there is no such collection, the
/// call failed with `CollectionNotFound` and nothing changed.
pub open spec fn through_collection(
    before: Seq<Collection>,
    after: Seq<Collection>,
    name: Seq<char>,
    r: Result<(), NosqliteError>,
    step: spec_fn(Collection, Collection) -> bool,
) -> bool {
    if has_name(before, name) {
        exists|i: int| 0 <= i < before.len() && (#[trigger] before[i]).name@ == name
            && after == before.update(i, after[i]) && step(before[i], after[i])
    } else {
        (r matches Err(NosqliteError::CollectionNotFound(_))) && after == before
    }
}

/// Changing one collection and keeping its name keeps the names distinct.
proof fn lemma_update_keeps_wf(db: Database, after: Database, i: int)
    requires
        db.wf(),
        0 <= i < db.collections@.len(),
        after.collections@ == db.collections@.update(i, after.collections@[i]),
        after.collections@[i].name == db.collections@[i].name,
        db.collections@[i].wf() ==> after.collections@[i].wf(),
    ensures
        after.wf(),
{
    assert forall|a: int, b: int| 0 <= a < after.collections@.len() && 0 <= b < after.collections@.len() && a != b
        implies (#[trigger] after.collections@[a]).name@ != (#[trigger] after.collections@[b]).name@ by {
        assert(after.collections@[a].name == db.collections@[a].name);
        assert(after.collections@[b].name == db.collections@[b].name);
    }
    assert forall|a: int| 0 <= a < after.collections@.len() implies (#[trigger] after.collections@[a]).wf() by {
        if a != i {
            assert(after.collections@[a] == db.collections@[a]);
        }
    }
}

/// Inserts `data` into the collection named `collection_name` (see
/// `Collection::add_document`).
pub fn insert_document(
    db: &mut Database,
    collection_name: &str,
    data: JsonValue,
    handler: &mut NosqliteErrorHandler,
) -> (r: Result<(), NosqliteError>)
    ensures
        logged(*old(handler), *final(handler), r),
        through_collection(old(db).collections@, final(db).collections@, collection_name@, r,
            |b: Collection, a: Collection| inserted(b, a, data@, r)),
        old(db).wf() ==> final(db).wf(),
{
    let i = match db.find_collection(collection_name) {
        Some(i) => i,
        None => {
            return handler.raise(NosqliteError::CollectionNotFound(collection_name.to_string()));
        },
    };
    let r = db.collections[i].add_document(data, handler);
    proof {
        assert(db.collections@ =~= old(db).collections@.update(i as int, db.collections@[i as int]));
        if old(db).wf() {
            lemma_update_keeps_wf(*old(db), *db, i as int);
        }
    }
    r
}

/// Replaces the payload of the matching documents of the collection named
/// `collection_name` (see `Collection::update_documents`).
pub fn update_documents(
    db: &mut Database,
    collection_name: &str,
    field_name: &str,
    field_value: &JsonValue,
    data: JsonValue,
    handler: &mut NosqliteErrorHandler,
) -> (r: Result<(), NosqliteError>)
    ensures
        logged(*old(handler), *final(handler), r),
        through_collection(old(db).collections@, final(db).collections@, collection_name@, r,
            |b: Collection, a: Collection| replaced(b, a, field_name@, field_value@, data@, r)),
        old(db).wf() ==> final(db).wf(),
{
    let i = match db.find_collection(collection_name) {
        Some(i) => i,
        None => {
            return handler.raise(NosqliteError::CollectionNotFound(collection_name.to_string()));
        },
    };
    let r = db.collections[i].update_documents(field_name, field_value, data, handler);
    proof {
        assert(db.collections@ =~= old(db).collections@.update(i as int, db.collections@[i as int]));
        if old(db).wf() {
            lemma_update_keeps_wf(*old(db), *db, i as int);
        }
    }
    r
}

/// Sets a top-level field in the matching documents of the collection named
/// `collection_name` (see `Collection::update_documents_field`).
pub fn update_documents_field(
    db: &mut Database,
    collection_name: &str,
    field_name: &str,
    field_value: &JsonValue,
    target_field: &str,
    value: JsonValue,
    handler: &mut NosqliteErrorHandler,
) -> (r: Result<(), NosqliteError>)
    ensures
        logged(*old(handler), *final(handler), r),
        through_collection(old(db).collections@, final(db).collections@, collection_name@, r,
            |b: Collection, a: Collection| field_set(b, a, field_name@, field_value@, target_field@, value@, r)),
        old(db).wf() ==> final(db).wf(),
{
    let i = match db.find_collection(collection_name) {
        Some(i) => i,
        None => {
            return handler.raise(NosqliteError::CollectionNotFound(collection_name.to_string()));
        },
    };
    let r = db.collections[i].update_documents_field(field_name, field_value, target_field, value, handler);
    proof {
        assert(db.collections@ =~= old(db).collections@.update(i as int, db.collections@[i as int]));
        if old(db).wf() {
            lemma_update_keeps_wf(*old(db), *db, i as int);
        }
    }
    r
}

/// Removes the matching documents of the collection named `collection_name`
/// (see `Collection::delete_documents`).
pub fn delete_documents(
    db: &mut Database,
    collection_name: &str,
    field_name: &str,
    field_value: &JsonValue,
    handler: &mut NosqliteErrorHandler,
) -> (r: Result<(), NosqliteError>)
    ensures
        logged(*old(handler), *final(handler), r),
        through_collection(old(db).collections@, final(db).collections@, collection_name@, r,
            |b: Collection, a: Collection| deleted(b, a, field_name@, field_value@, r)),
        old(db).wf() ==> final(db).wf(),
{
    let i = match db.find_collection(collection_name) {
        Some(i) => i,
        None => {
            return handler.raise(NosqliteError::CollectionNotFound(collection_name.to_string()));
        },
    };
    let r = db.collections[i].delete_documents(field_name, field_value, handler);
    proof {
        assert(db.collections@ =~= old(db).collections@.update(i as int, db.collections@[i as int]));
        if old(db).wf() {
            lemma_update_keeps_wf(*old(db), *db, i as int);
        }
    }
    r
}

/// The first document of the collection named `collection_name` whose value
/// at the path `field_name` equals `field_value`.
pub fn get_document<'a>(
    db: &'a Database,
    collection_name: &str,
    field_name: &str,
    field_value: &JsonValue,
    handler: &mut NosqliteErrorHandler,
) -> (r: Result<&'a Document, NosqliteError>)
    ensures
        logged(*old(handler), *final(handler), r),
        !has_name(db.collections@, collection_name@) ==> (r matches Err(NosqliteError::CollectionNotFound(_))),
        has_name(db.collections@, collection_name@) ==> exists|i: int| 0 <= i < db.collections@.len()
            && (#[trigger] db.collections@[i]).name@ == collection_name@
            && match r {
                Ok(d) => exists|j: int| 0 <= j < db.collections@[i].documents@.len()
                    && db.collections@[i].documents@[j] == *d
                    && doc_matches(*d, field_name@, field_value@)
                    && forall|k: int| 0 <= k < j ==> !doc_matches(#[trigger] db.collections@[i].documents@[k], field_name@, field_value@),
                Err(e) => (e matches NosqliteError::DocumentNotFound(_))
                    && !any_match(db.collections@[i].documents@, field_name@, field_value@),
            },
{
    let i = match db.find_collection(collection_name) {
        Some(i) => i,
        None => {
            return handler.raise(NosqliteError::CollectionNotFound(collection_name.to_string()));
        },
    };
    match db.collections[i].get_document(field_name, field_value) {
        Some(d) => Ok(d),
        None => handler.raise(NosqliteError::DocumentNotFound(field_name.to_string())),
    }
}

/// All documents of the collection named `collection_name`.
pub fn get_all_documents<'a>(
    db: &'a Database,
    collection_name: &str,
    handler: &mut NosqliteErrorHandler,
) -> (r: Result<&'a Vec<Document>, NosqliteError>)
    ensures
        logged(*old(handler), *final(handler), r),
        r is Ok <==> has_name(db.collections@, collection_name@),
        r is Err ==> (r matches Err(NosqliteError::CollectionNotFound(_))),
        match r {
            Ok(docs) => exists|i: int| 0 <= i < db.collections@.len()
                && (#[trigger] db.collections@[i]).name@ == collection_name@
                && docs@ == db.collections@[i].documents@,
            Err(_) => true,
        },
{
    match db.get_collection(collection_name) {
        Some(c) => Ok(c.all_documents()),
        None => handler.raise(NosqliteError::CollectionNotFound(collection_name.to_string())),
    }
}

/// Whether a payload passes an equality filter: when both are objects, every
/// key of the filter is in the payload with an equal value; otherwise the
/// filter lets everything pass.
pub open spec fn filter_matches(doc: Json, filter: Json) -> bool {
    match (doc, filter) {
        (Json::Object(d), Json::Object(f)) => forall|k: Seq<char>| #[trigger] f.contains_key(k) ==> d.contains_key(k)
            && d[k] == f[k],
        _ => true,
    }
}

/// The mark of a field that a projection keeps: the number 1.
pub open spec fn include_mark() -> Json {
    Json::Number(JsonNumber::PosInt(1))
}

/// A payload cut down by a projection: when both are objects and the
/// projection is not empty, the payload keeps only the fields that the
/// projection marks with 1; otherwise it is kept whole.
pub open spec fn projected(doc: Json, projection: Json) -> Json {
    match (doc, projection) {
        (Json::Object(d), Json::Object(p)) => if p.dom().len() == 0 {
            doc
        } else {
            Json::Object(d.restrict(p.dom().filter(|k: Seq<char>| p[k] == include_mark())))
        },
        _ => doc,
    }
}

/// The projected payloads of the documents that pass the filter, in order.
pub open spec fn query_results(docs: Seq<Document>, filter: Json, projection: Json) -> Seq<Json>
    decreases docs.len(),
{
    if docs.len() == 0 {
        Seq::empty()
    } else {
        let rest = query_results(docs.drop_last(), filter, projection);
        if filter_matches(docs.last().data@, filter) {
            rest.push(projected(docs.last().data@, projection))
        } else {
            rest
        }
    }
}

/// No document passes: nothing is found.
proof fn lemma_query_none(docs: Seq<Document>, filter: Json, projection: Json)
    requires
        forall|i: int| 0 <= i < docs.len() ==> !filter_matches((#[trigger] docs[i]).data@, filter),
    ensures
        query_results(docs, filter, projection) == Seq::<Json>::empty(),
    decreases docs.len(),
{
    if docs.len() > 0 {
        let t = docs.drop_last();
        assert forall|i: int| 0 <= i < t.len() implies !filter_matches((#[trigger] t[i]).data@, filter) by {
            assert(t[i] == docs[i]);
        }
        lemma_query_none(t, filter, projection);
        assert(docs[docs.len() - 1] == docs.last());
    }
}

/// A payload inserted into a collection is found again: a query whose
/// equality filter the payload passes, with no projection, returns what it
/// returned before followed by the payload itself.
pub proof fn lemma_insert_then_find(before: Collection, after: Collection, data: Json, filter: Json, r: Result<(), NosqliteError>)
    requires
        inserted(before, after, data, r),
        r is Ok,
        filter_matches(data, filter),
    ensures
        query_results(after.documents@, filter, Json::Object(Map::empty()))
            == query_results(before.documents@, filter, Json::Object(Map::empty())).push(data),
{
    let p = Json::Object(Map::<Seq<char>, Json>::empty());
    assert(Map::<Seq<char>, Json>::empty().dom() =~= Set::<Seq<char>>::empty());
    assert(projected(data, p) == data);
}

/// After the documents whose top-level field `field` equals `value` are
/// deleted, a query filtering on `field == value` finds nothing.
pub proof fn lemma_delete_then_find(
    before: Collection,
    after: Collection,
    field: Seq<char>,
    value: Json,
    r: Result<(), NosqliteError>,
    projection: Json,
)
    requires
        deleted(before, after, field, value, r),
        r is Ok,
        forall|i: int| 0 <= i < field.len() ==> field[i] != '.',
        before.wf(),
    ensures
        query_results(after.documents@, Json::Object(map![field => value]), projection) == Seq::<Json>::empty(),
{
    let docs = after.documents@;
    let filter = Json::Object(map![field => value]);
    lemma_unmatched(before.documents@, field, value);
    assert forall|i: int| 0 <= i < docs.len() implies !filter_matches((#[trigger] docs[i]).data@, filter) by {
        assert(doc_ok(docs[i]));
        lemma_resolve_plain(docs[i].data@, field);
        assert(!doc_matches(docs[i], field, value));
        let d = docs[i].data@->Object_0;
        assert(filter->Object_0 == map![field => value]);
        assert(map![field => value].contains_key(field));
    }
    lemma_query_none(docs, filter, projection);
}

/// A delete that matches nothing fails with `DocumentNotFound` and leaves
/// the documents as they were.
pub proof fn lemma_failed_delete_unchanged(
    before: Collection,
    after: Collection,
    field: Seq<char>,
    value: Json,
    r: Result<(), NosqliteError>,
)
    requires
        deleted(before, after, field, value, r),
        !any_match(before.documents@, field, value),
    ensures
        r matches Err(NosqliteError::DocumentNotFound(_)),
        after.documents@ == before.documents@,
{
}

/// Whether `doc` passes the equality filter `filter`.
pub fn matches_filter(doc: &JsonValue, filter: &JsonValue) -> (r: bool)
    ensures
        r == filter_matches(doc@, filter@),
{
    match (doc, filter) {
        (JsonValue::Object(d), JsonValue::Object(f)) => {
            let entries = f.entries();
            proof {
                lemma_entries_view(entries@);
            }
            let mut i: usize = 0;
            while i < entries.len()
                invariant
                    i <= entries@.len(),
                    keys_distinct(entries@),
                    entries_view(entries@) == f@,
                    doc@ == Json::Object(d@),
                    filter@ == Json::Object(f@),
                    forall|j: int| #![trigger entries@[j]] 0 <= j < i ==> d@.contains_key(entries@[j].0@)
                        && d@[entries@[j].0@] == entries@[j].1@,
                decreases entries@.len() - i,
            {
                proof {
                    lemma_entries_view(entries@);
                }
                let ok = match d.get(entries[i].0.as_str()) {
                    Some(actual) => json_eq(actual, &entries[i].1),
                    None => false,
                };
                if !ok {
                    proof {
                        assert(entries_view(entries@).contains_key(entries@[i as int].0@));
                        let k = entries@[i as int].0@;
                        assert(f@.contains_key(k) && f@[k] == entries@[i as int].1@);
                        assert(!(d@.contains_key(k) && d@[k] == f@[k]));
                        assert(filter@->Object_0 == f@);
                        assert(doc@->Object_0 == d@);
                        assert(!filter_matches(doc@, filter@));
                    }
                    return false;
                }
                i = i + 1;
            }
            proof {
                lemma_entries_view(entries@);
                assert forall|k: Seq<char>| #[trigger] f@.contains_key(k) implies d@.contains_key(k) && d@[k] == f@[k] by {
                    let j = choose|j: int| 0 <= j < entries@.len() && #[trigger] entries@[j].0@ == k;
                    assert(entries@[j] == entries@[j]);
                }
            }
            true
        },
        _ => true,
    }
}

/// `doc` cut down by the projection `projection`.
pub fn apply_projection(doc: &JsonValue, projection: &JsonValue) -> (r: JsonValue)
    ensures
        r@ == projected(doc@, projection@),
{
    match (doc, projection) {
        (JsonValue::Object(d), JsonValue::Object(p)) => {
            if p.len() == 0 {
                return doc.clone();
            }
            let one = JsonValue::Number(JsonNumber::PosInt(1));
            let entries = p.entries();
            let ghost keep = p@.dom().filter(|k: Seq<char>| p@[k] == include_mark());
            let mut out = JsonMap::new();
            let mut i: usize = 0;
            proof {
                lemma_entries_view(entries@);
            }
            while i < entries.len()
                invariant
                    i <= entries@.len(),
                    keys_distinct(entries@),
                    entries_view(entries@) == p@,
                    one@ == include_mark(),
                    keep == p@.dom().filter(|k: Seq<char>| p@[k] == include_mark()),
                    out@ == d@.restrict(keep.filter(|k: Seq<char>| exists|j: int| 0 <= j < i && #[trigger] entries@[j].0@ == k)),
                decreases entries@.len() - i,
            {
                proof {
                    lemma_entries_view(entries@);
                }
                let key = &entries[i].0;
                let ghost before = out@;
                if json_eq(&entries[i].1, &one) {
                    match d.get(key.as_str()) {
                        Some(v) => {
                            out.insert(key.clone(), v.clone());
                        },
                        None => {},
                    }
                }
                proof {
                    let seen_old = keep.filter(|k: Seq<char>| exists|j: int| 0 <= j < i && #[trigger] entries@[j].0@ == k);
                    let seen_new = keep.filter(|k: Seq<char>| exists|j: int| 0 <= j < i + 1 && #[trigger] entries@[j].0@ == k);
                    assert(entries_view(entries@).contains_key(entries@[i as int].0@));
                    assert(p@.contains_key(key@) && p@[key@] == entries@[i as int].1@);
                    assert forall|k: Seq<char>| seen_new.contains(k) <==> seen_old.contains(k) || (k == key@ && keep.contains(k)) by {
                        if seen_new.contains(k) && k != key@ {
                            let j = choose|j: int| 0 <= j < i + 1 && #[trigger] entries@[j].0@ == k;
                            assert(j < i);
                        }
                        if k == key@ && keep.contains(k) {
                            assert(entries@[i as int].0@ == k);
                        }
                    }
                    assert(out@ =~= d@.restrict(seen_new));
                }
                i = i + 1;
            }
            proof {
                let seen = keep.filter(|k: Seq<char>| exists|j: int| 0 <= j < entries@.len() && #[trigger] entries@[j].0@ == k);
                assert forall|k: Seq<char>| seen.contains(k) <==> keep.contains(k) by {
                    if keep.contains(k) {
                        let j = choose|j: int| 0 <= j < entries@.len() && #[trigger] entries@[j].0@ == k;
                    }
                }
                assert(seen =~= keep);
            }
            JsonValue::Object(out)
        },
        _ => doc.clone(),
    }
}

/// The documents of the collection named `collection_name` that pass the
/// equality filter `filter`, each cut down by `projection`, in insertion
/// order.
pub fn get_documents(
    db: &Database,
    collection_name: &str,
    filter: &JsonValue,
    projection: &JsonValue,
    handler: &mut NosqliteErrorHandler,
) -> (r: Result<Vec<JsonValue>, NosqliteError>)
    ensures
        logged(*old(handler), *final(handler), r),
        r is Ok <==> has_name(db.collections@, collection_name@),
        r is Err ==> (r matches Err(NosqliteError::CollectionNotFound(_))),
        match r {
            Ok(found) => exists|i: int| 0 <= i < db.collections@.len()
                && (#[trigger] db.collections@[i]).name@ == collection_name@
                && found@.map_values(|v: JsonValue| v@) == query_results(db.collections@[i].documents@, filter@, projection@),
            Err(_) => true,
        },
{
    let c = match db.get_collection(collection_name) {
        Some(c) => c,
        None => {
            return handler.raise(NosqliteError::CollectionNotFound(collection_name.to_string()));
        },
    };
    let docs = c.all_documents();
    let mut found: Vec<JsonValue> = Vec::new();
    let mut i: usize = 0;
    while i < docs.len()
        invariant
            i <= docs@.len(),
            found@.map_values(|v: JsonValue| v@) == query_results(docs@.subrange(0, i as int), filter@, projection@),
        decreases docs@.len() - i,
    {
        let ghost before = found@;
        if matches_filter(&docs[i].data, filter) {
            found.push(apply_projection(&docs[i].data, projection));
            proof {
                assert(found@.map_values(|v: JsonValue| v@) =~= before.map_values(|v: JsonValue| v@).push(found@.last()@));
            }
        }
        proof {
            assert(docs@.subrange(0, i + 1).drop_last() =~= docs@.subrange(0, i as int));
        }
        i = i + 1;
    }
    proof {
        assert(docs@.subrange(0, docs@.len() as int) =~= docs@);
    }
    Ok(found)
}

} // verus!
