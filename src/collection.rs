//! A named, schema-bound sequence of documents, and the operations on it.

use vstd::prelude::*;
use crate::document::Document;
use crate::error::{NosqliteError, NosqliteErrorHandler, logged};
use crate::json::{Json, JsonMap, JsonValue, get_nested_value, json_eq, resolve_path, lemma_resolve_from_object};
use crate::schema::{conforms, validate_against_structure};
use crate::utils::now;

verus! {

/// A named set of documents, kept in insertion order, with the schema that
/// documents are checked against when written.
#[derive(Debug)]
pub struct Collection {
    pub name: String,
    pub documents: Vec<Document>,
    pub created_at: u64,
    pub structure: JsonValue,
}

/// Whether the value at the dot-separated path `field` in the document's
/// payload equals `value`.
pub open spec fn doc_matches(d: Document, field: Seq<char>, value: Json) -> bool {
    resolve_path(d.data@, field) == Some(value)
}

/// Whether some document matches.
pub open spec fn any_match(docs: Seq<Document>, field: Seq<char>, value: Json) -> bool {
    exists|i: int| 0 <= i < docs.len() && doc_matches(#[trigger] docs[i], field, value)
}

/// Whether a payload may be inserted into a collection with the given schema:
/// both are objects and the payload meets the schema.
pub open spec fn insertable(structure: Json, data: Json) -> bool {
    &&& data is Object
    &&& structure is Object
    &&& conforms(data->Object_0, structure->Object_0)
}

/// Whether a payload may replace documents of a collection with the given
/// schema: it is an object, and it meets the schema when the schema is an
/// object.
pub open spec fn replaceable(structure: Json, data: Json) -> bool {
    &&& data is Object
    &&& (structure is Object ==> conforms(data->Object_0, structure->Object_0))
}

/// `after` is `before` with its payload replaced by `data`: same identifier
/// and creation time, update time refreshed and not below the creation time.
pub open spec fn rewritten(before: Document, after: Document, data: Json) -> bool {
    &&& after.id == before.id
    &&& after.created_at == before.created_at
    &&& after.data@ == data
    &&& after.wf()
}

/// `after` is `before` with the top-level field `target` of its payload, an
/// object, set to `value`.
pub open spec fn patched(before: Document, after: Document, target: Seq<char>, value: Json) -> bool {
    &&& before.data@ is Object
    &&& rewritten(before, after, Json::Object(before.data@->Object_0.insert(target, value)))
}

/// The documents that do not match `field == value`, in their order.
pub open spec fn unmatched(docs: Seq<Document>, field: Seq<char>, value: Json) -> Seq<Document>
    decreases docs.len(),
{
    if docs.len() == 0 {
        Seq::empty()
    } else {
        let rest = unmatched(docs.drop_last(), field, value);
        if doc_matches(docs.last(), field, value) {
            rest
        } else {
            rest.push(docs.last())
        }
    }
}

/// Dropping the matching documents leaves exactly the documents that do not
/// match, and it shortens the sequence exactly when some document matches.
pub proof fn lemma_unmatched(docs: Seq<Document>, field: Seq<char>, value: Json)
    ensures
        !any_match(unmatched(docs, field, value), field, value),
        unmatched(docs, field, value).len() <= docs.len(),
        unmatched(docs, field, value).len() == docs.len() <==> !any_match(docs, field, value),
        !any_match(docs, field, value) ==> unmatched(docs, field, value) == docs,
        (forall|i: int| 0 <= i < docs.len() ==> doc_ok(#[trigger] docs[i])) ==>
            forall|j: int| 0 <= j < unmatched(docs, field, value).len()
                ==> doc_ok(#[trigger] unmatched(docs, field, value)[j]),
    decreases docs.len(),
{
    if docs.len() > 0 {
        let t = docs.drop_last();
        lemma_unmatched(t, field, value);
        let u = unmatched(docs, field, value);
        let ut = unmatched(t, field, value);
        if forall|i: int| 0 <= i < docs.len() ==> doc_ok(#[trigger] docs[i]) {
            assert forall|i: int| 0 <= i < t.len() implies doc_ok(#[trigger] t[i]) by {
                assert(t[i] == docs[i]);
            }
            assert forall|j: int| 0 <= j < u.len() implies doc_ok(#[trigger] u[j]) by {
                if j < ut.len() {
                    assert(u[j] == ut[j]);
                } else {
                    assert(docs[docs.len() - 1] == docs.last());
                }
            }
        }
        if any_match(u, field, value) {
            let j = choose|j: int| 0 <= j < u.len() && doc_matches(#[trigger] u[j], field, value);
            if j < ut.len() {
                assert(u[j] == ut[j]);
            }
        }
        if any_match(t, field, value) {
            let i = choose|i: int| 0 <= i < t.len() && doc_matches(#[trigger] t[i], field, value);
            assert(docs[i] == t[i]);
        }
        if any_match(docs, field, value) && !doc_matches(docs.last(), field, value) {
            let i = choose|i: int| 0 <= i < docs.len() && doc_matches(#[trigger] docs[i], field, value);
            assert(t[i] == docs[i]);
        }
        if doc_matches(docs.last(), field, value) {
            assert(doc_matches(docs[docs.len() - 1], field, value));
        }
        if !any_match(docs, field, value) {
            assert(docs.drop_last().push(docs.last()) =~= docs);
        }
    }
}

/// What adding a document holding `data` does: the outcome, and the
/// collection after it.
pub open spec fn inserted(before: Collection, after: Collection, data: Json, r: Result<(), NosqliteError>) -> bool {
    &&& after.same_frame(&before)
    &&& !(data is Object) ==> (r matches Err(NosqliteError::DocumentInvalid(_)))
    &&& data is Object && !(before.structure@ is Object) ==> (r matches Err(NosqliteError::InvalidCollectionStructure(_)))
    &&& data is Object && before.structure@ is Object && !insertable(before.structure@, data)
            ==> (r matches Err(NosqliteError::DocumentInvalid(_)))
    &&& r is Ok <==> insertable(before.structure@, data)
    &&& r is Err ==> after.documents@ == before.documents@
    &&& r is Ok ==> after.documents@.len() == before.documents@.len() + 1
            && after.documents@.drop_last() == before.documents@
            && after.documents@.last().data@ == data
            && after.documents@.last().created_at == after.documents@.last().updated_at
            && after.documents@.last().id@.len() == 36
    &&& before.wf() ==> after.wf()
}

/// What replacing the payload of the documents matching `field == value`
/// with `data` does.
pub open spec fn replaced(before: Collection, after: Collection, field: Seq<char>, value: Json, data: Json, r: Result<(), NosqliteError>) -> bool {
    &&& after.same_frame(&before)
    &&& !replaceable(before.structure@, data) ==> (r matches Err(NosqliteError::DocumentInvalid(_)))
    &&& replaceable(before.structure@, data) && !any_match(before.documents@, field, value)
            ==> (r matches Err(NosqliteError::DocumentNotFound(_)))
    &&& r is Ok <==> replaceable(before.structure@, data) && any_match(before.documents@, field, value)
    &&& r is Err ==> after.documents@ == before.documents@
    &&& r is Ok ==> after.documents@.len() == before.documents@.len()
            && forall|i: int| 0 <= i < before.documents@.len() ==>
                if doc_matches(#[trigger] before.documents@[i], field, value) {
                    rewritten(before.documents@[i], after.documents@[i], data)
                } else {
                    after.documents@[i] == before.documents@[i]
                }
    &&& before.wf() ==> after.wf()
}

/// What setting the top-level field `target` to `v` in the documents
/// matching `field == value` does.
pub open spec fn field_set(before: Collection, after: Collection, field: Seq<char>, value: Json, target: Seq<char>, v: Json, r: Result<(), NosqliteError>) -> bool {
    &&& after.same_frame(&before)
    &&& r is Ok <==> any_match(before.documents@, field, value)
    &&& r is Err ==> (r matches Err(NosqliteError::DocumentNotFound(_)))
    &&& r is Err ==> after.documents@ == before.documents@
    &&& r is Ok ==> after.documents@.len() == before.documents@.len()
            && forall|i: int| 0 <= i < before.documents@.len() ==>
                if doc_matches(#[trigger] before.documents@[i], field, value) {
                    patched(before.documents@[i], after.documents@[i], target, v)
                } else {
                    after.documents@[i] == before.documents@[i]
                }
    &&& before.wf() ==> after.wf()
}

/// What removing the documents matching `field == value` does.
pub open spec fn deleted(before: Collection, after: Collection, field: Seq<char>, value: Json, r: Result<(), NosqliteError>) -> bool {
    &&& after.same_frame(&before)
    &&& r is Ok <==> any_match(before.documents@, field, value)
    &&& r is Err ==> (r matches Err(NosqliteError::DocumentNotFound(_)))
    &&& r is Err ==> after.documents@ == before.documents@
    &&& r is Ok ==> after.documents@ == unmatched(before.documents@, field, value)
    &&& before.wf() ==> after.wf()
}

/// A stored document holds an object, and its timestamps are in order.
pub open spec fn doc_ok(d: Document) -> bool {
    d.data@ is Object && d.wf()
}

impl Collection {
    /// Every document holds an object, with its timestamps in order.
    pub open spec fn wf(&self) -> bool {
        forall|i: int| 0 <= i < self.documents@.len() ==> doc_ok(#[trigger] self.documents@[i])
    }

    /// Name, creation time and schema are those of `other`.
    pub open spec fn same_frame(&self, other: &Collection) -> bool {
        &&& self.name == other.name
        &&& self.created_at == other.created_at
        &&& self.structure@ == other.structure@
    }

    /// An empty collection.
    pub fn new(name: String, structure: JsonValue) -> (r: Collection)
        ensures
            r.name@ == name@,
            r.structure@ == structure@,
            r.documents@.len() == 0,
            r.wf(),
    {
        Collection { name, structure, documents: Vec::new(), created_at: now() }
    }

    /// Appends a new document holding `data`, if `data` is an object that
    /// meets the schema.
    pub fn add_document(&mut self, data: JsonValue, handler: &mut NosqliteErrorHandler) -> (r: Result<(), NosqliteError>)
        ensures
            logged(*old(handler), *final(handler), r),
            inserted(*old(self), *final(self), data@, r),

    {
        match &data {
            JsonValue::Object(doc_map) => {
                match &self.structure {
                    JsonValue::Object(expected) => {
                        if !validate_against_structure(doc_map, expected) {
                            return handler.raise(NosqliteError::DocumentInvalid(
                                "Document does not match the collection's structure".to_string(),
                            ));
                        }
                    },
                    _ => {
                        return handler.raise(NosqliteError::InvalidCollectionStructure(
                            "Collection structure is not a valid JSON object".to_string(),
                        ));
                    },
                }
            },
            _ => {
                return handler.raise(NosqliteError::DocumentInvalid(
                    "Document must be a JSON object".to_string(),
                ));
            },
        }
        let document = Document::new(data);
        self.documents.push(document);
        proof {
            assert(self.documents@.drop_last() =~= old(self).documents@);
            assert forall|i: int| 0 <= i < self.documents@.len() && old(self).wf()
                implies doc_ok(#[trigger] self.documents@[i]) by {
                if i < old(self).documents@.len() {
                    assert(self.documents@[i] == old(self).documents@[i]);
                }
            }
        }
        Ok(())
    }

    /// Whether the document at `index` matches `field == value`.
    fn matches_at(&self, index: usize, field_name: &str, field_value: &JsonValue) -> (r: bool)
        requires
            index < self.documents@.len(),
        ensures
            r == doc_matches(self.documents@[index as int], field_name@, field_value@),
    {
        match get_nested_value(&self.documents[index].data, field_name) {
            Some(v) => json_eq(v, field_value),
            None => false,
        }
    }

    /// The position of the first document that matches `field == value`.
    fn first_match(&self, field_name: &str, field_value: &JsonValue) -> (r: Option<usize>)
        ensures
            match r {
                Some(i) => i < self.documents@.len()
                    && doc_matches(self.documents@[i as int], field_name@, field_value@)
                    && forall|j: int| 0 <= j < i ==> !doc_matches(#[trigger] self.documents@[j], field_name@, field_value@),
                None => !any_match(self.documents@, field_name@, field_value@),
            },
    {
        let mut i: usize = 0;
        while i < self.documents.len()
            invariant
                i <= self.documents@.len(),
                forall|j: int| 0 <= j < i ==> !doc_matches(#[trigger] self.documents@[j], field_name@, field_value@),
            decreases self.documents@.len() - i,
        {
            if self.matches_at(i, field_name, field_value) {
                return Some(i);
            }
            i = i + 1;
        }
        None
    }

    /// Replaces the whole payload of every document whose value at the path
    /// `field_name` equals `field_value`.
    pub fn update_documents(
        &mut self,
        field_name: &str,
        field_value: &JsonValue,
        new_data: JsonValue,
        handler: &mut NosqliteErrorHandler,
    ) -> (r: Result<(), NosqliteError>)
        ensures
            logged(*old(handler), *final(handler), r),
            replaced(*old(self), *final(self), field_name@, field_value@, new_data@, r),

    {
        match &new_data {
            JsonValue::Object(doc_map) => {
                if let JsonValue::Object(expected) = &self.structure {
                    if !validate_against_structure(doc_map, expected) {
                        return handler.raise(NosqliteError::DocumentInvalid(
                            "New data does not match the collection's structure".to_string(),
                        ));
                    }
                }
            },
            _ => {
                return handler.raise(NosqliteError::DocumentInvalid(
                    "New data must be a JSON object".to_string(),
                ));
            },
        }
        if self.first_match(field_name, field_value).is_none() {
            return handler.raise(NosqliteError::DocumentNotFound(field_name.to_string()));
        }
        let t = now();
        let ghost before = self.documents@;
        let mut i: usize = 0;
        while i < self.documents.len()
            invariant
                i <= self.documents@.len(),
                self.documents@.len() == before.len(),
                self.same_frame(old(self)),
                before == old(self).documents@,
                new_data@ is Object,
                forall|j: int| i <= j < before.len() ==> self.documents@[j] == before[j],
                forall|j: int| 0 <= j < i ==>
                    if doc_matches(#[trigger] before[j], field_name@, field_value@) {
                        rewritten(before[j], self.documents@[j], new_data@)
                    } else {
                        self.documents@[j] == before[j]
                    },
            decreases self.documents@.len() - i,
        {
            if self.matches_at(i, field_name, field_value) {
                let data = new_data.clone();
                self.documents[i].set_data(data, t);
            }
            i = i + 1;
        }
        proof {
            assert forall|j: int| 0 <= j < self.documents@.len() && old(self).wf()
                implies doc_ok(#[trigger] self.documents@[j]) by {
                if !doc_matches(before[j], field_name@, field_value@) {
                    assert(self.documents@[j] == before[j]);
                }
            }
        }
        Ok(())
    }

    /// Sets the top-level field `target_field` of the payload of every
    /// document whose value at the path `field_name` equals `field_value`.
    /// The schema is not checked again. A path leads somewhere only through
    /// an object, so every matching document holds an object to change.
    pub fn update_documents_field(
        &mut self,
        field_name: &str,
        field_value: &JsonValue,
        target_field: &str,
        value: JsonValue,
        handler: &mut NosqliteErrorHandler,
    ) -> (r: Result<(), NosqliteError>)
        ensures
            logged(*old(handler), *final(handler), r),
            field_set(*old(self), *final(self), field_name@, field_value@, target_field@, value@, r),

    {
        if self.first_match(field_name, field_value).is_none() {
            return handler.raise(NosqliteError::DocumentNotFound(field_name.to_string()));
        }
        let t = now();
        let ghost before = self.documents@;
        let mut i: usize = 0;
        while i < self.documents.len()
            invariant
                i <= self.documents@.len(),
                self.documents@.len() == before.len(),
                self.same_frame(old(self)),
                before == old(self).documents@,
                forall|j: int| i <= j < before.len() ==> self.documents@[j] == before[j],
                forall|j: int| 0 <= j < i ==>
                    if doc_matches(#[trigger] before[j], field_name@, field_value@) {
                        patched(before[j], self.documents@[j], target_field@, value@)
                    } else {
                        self.documents@[j] == before[j]
                    },
            decreases self.documents@.len() - i,
        {
            if self.matches_at(i, field_name, field_value) {
                proof {
                    lemma_resolve_from_object(self.documents@[i as int].data@, field_name@, 0, 0);
                }
                let data = match &self.documents[i].data {
                    JsonValue::Object(m) => {
                        let mut m2: JsonMap = m.clone();
                        m2.insert(target_field.to_string(), value.clone());
                        JsonValue::Object(m2)
                    },
                    _ => {
                        proof {
                            assert(false);
                        }
                        JsonValue::Null
                    },
                };
                self.documents[i].set_data(data, t);
            }
            i = i + 1;
        }
        proof {
            assert forall|j: int| 0 <= j < self.documents@.len() && old(self).wf()
                implies doc_ok(#[trigger] self.documents@[j]) by {
                if !doc_matches(before[j], field_name@, field_value@) {
                    assert(self.documents@[j] == before[j]);
                }
            }
        }
        Ok(())
    }
}

impl Collection {
    /// Removes every document whose value at the path `field_name` equals
    /// `field_value`; fails, changing nothing, if there is none.
    pub fn delete_documents(
        &mut self,
        field_name: &str,
        field_value: &JsonValue,
        handler: &mut NosqliteErrorHandler,
    ) -> (r: Result<(), NosqliteError>)
        ensures
            logged(*old(handler), *final(handler), r),
            deleted(*old(self), *final(self), field_name@, field_value@, r),

    {
        let ghost before = self.documents@;
        let mut rest: Vec<Document> = Vec::new();
        std::mem::swap(&mut rest, &mut self.documents);
        let mut kept: Vec<Document> = Vec::new();
        let mut removed: bool = false;
        let ghost mut i: int = 0;
        while rest.len() > 0
            invariant
                0 <= i <= before.len(),
                rest@ == before.subrange(i, before.len() as int),
                kept@ == unmatched(before.subrange(0, i), field_name@, field_value@),
                removed == any_match(before.subrange(0, i), field_name@, field_value@),
                self.documents@.len() == 0,
                self.same_frame(old(self)),
            decreases rest@.len(),
        {
            let d = rest.remove(0);
            let hit = match get_nested_value(&d.data, field_name) {
                Some(v) => json_eq(v, field_value),
                None => false,
            };
            proof {
                let p_new = before.subrange(0, i + 1);
                let p_old = before.subrange(0, i);
                assert(p_new.drop_last() =~= p_old);
                assert(p_new.last() == d);
                if any_match(p_old, field_name@, field_value@) {
                    let j = choose|j: int| 0 <= j < p_old.len() && doc_matches(#[trigger] p_old[j], field_name@, field_value@);
                    assert(p_new[j] == p_old[j]);
                }
                if any_match(p_new, field_name@, field_value@) && !doc_matches(d, field_name@, field_value@) {
                    let j = choose|j: int| 0 <= j < p_new.len() && doc_matches(#[trigger] p_new[j], field_name@, field_value@);
                    assert(p_old[j] == p_new[j]);
                }
                if doc_matches(d, field_name@, field_value@) {
                    assert(doc_matches(p_new[i], field_name@, field_value@));
                }
                assert(rest@ =~= before.subrange(i + 1, before.len() as int));
                i = i + 1;
            }
            if hit {
                removed = true;
            } else {
                kept.push(d);
            }
        }
        proof {
            assert(before.subrange(0, i) =~= before);
        }
        self.documents = kept;
        proof {
            lemma_unmatched(before, field_name@, field_value@);
        }
        if !removed {
            proof {
                lemma_unmatched(before, field_name@, field_value@);
            }
            return handler.raise(NosqliteError::DocumentNotFound(field_name.to_string()));
        }
        Ok(())
    }
}

impl Collection {
    /// The first document whose value at the path `field_name` equals
    /// `field_value`.
    pub fn get_document(&self, field_name: &str, field_value: &JsonValue) -> (r: Option<&Document>)
        ensures
            match r {
                Some(d) => exists|i: int| 0 <= i < self.documents@.len()
                    && self.documents@[i] == *d
                    && doc_matches(*d, field_name@, field_value@)
                    && forall|j: int| 0 <= j < i ==> !doc_matches(#[trigger] self.documents@[j], field_name@, field_value@),
                None => !any_match(self.documents@, field_name@, field_value@),
            },
    {
        match self.first_match(field_name, field_value) {
            Some(i) => Some(&self.documents[i]),
            None => None,
        }
    }

    /// All documents, in insertion order.
    pub fn all_documents(&self) -> (r: &Vec<Document>)
        ensures
            r@ == self.documents@,
    {
        &self.documents
    }

    /// The number of documents.
    pub fn document_count(&self) -> (r: usize)
        ensures
            r == self.documents@.len(),
    {
        self.documents.len()
    }
}

impl Default for Collection {
    /// An empty collection named `default` whose schema is the empty object.
    fn default() -> (r: Self)
        ensures
            r.name@ == "default"@,
            r.structure@ == Json::Object(Map::empty()),
            r.documents@.len() == 0,
    {
        Collection::new("default".to_string(), JsonValue::Object(JsonMap::new()))
    }
}

} // verus!
