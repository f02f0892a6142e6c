//! Schemas: trees whose leaves name the type a document field must have, and
//! the check of a document against one.

use vstd::prelude::*;
use crate::json::{Json, JsonMap, JsonValue, text_eq, keys_distinct, entries_view, lemma_entries_view};

verus! {

/// The lower-case form of a text, as `str::to_lowercase` gives it.
pub uninterp spec fn lower_of(s: Seq<char>) -> Seq<char>;

/// Relies on `str::to_lowercase`: its result depends on the characters of the
/// text alone.
#[verifier::external_body]
fn lowercase(s: &str) -> (r: String)
    ensures
        r@ == lower_of(s@),
{
    s.to_lowercase()
}

/// Whether `v` has the kind that the (already lower-case) type name `name`
/// stands for; an unknown name matches nothing.
pub open spec fn kind_matches(name: Seq<char>, v: Json) -> bool {
    if name == "string"@ {
        v is Str
    } else if name == "number"@ {
        v is Number
    } else if name == "boolean"@ {
        v is Bool
    } else if name == "array"@ {
        v is Array
    } else if name == "object"@ {
        v is Object
    } else {
        false
    }
}

/// Whether the value `actual` meets what a schema asks of one field:
/// a type name (compared without regard to case), or a nested schema that
/// `actual`, an object, must meet in turn.
pub open spec fn field_conforms(actual: Json, expected: Json) -> bool
    decreases expected,
{
    match expected {
        Json::Str(t) => kind_matches(lower_of(t), actual),
        Json::Object(sub) => match actual {
            Json::Object(d) => forall|k: Seq<char>| #[trigger] sub.contains_key(k) ==> d.contains_key(k)
                && field_conforms(d[k], sub[k]),
            _ => false,
        },
        _ => false,
    }
}

/// Whether a document meets a schema: every key of the schema is in the
/// document, with a value that meets what the schema says under that key.
/// Keys of the document that the schema does not name are not looked at.
pub open spec fn conforms(doc: Map<Seq<char>, Json>, schema: Map<Seq<char>, Json>) -> bool {
    field_conforms(Json::Object(doc), Json::Object(schema))
}

/// A document meets a schema exactly when each key of the schema is in the
/// document with a value that meets what the schema says under it.
pub proof fn lemma_conforms_fields(doc: Map<Seq<char>, Json>, schema: Map<Seq<char>, Json>)
    ensures
        conforms(doc, schema) == (forall|k: Seq<char>| #[trigger] schema.contains_key(k) ==> doc.contains_key(k)
            && field_conforms(doc[k], schema[k])),
{
    let a = Json::Object(doc);
    let e = Json::Object(schema);
    assert(e->Object_0 == schema);
    assert(field_conforms(a, e) == (forall|k: Seq<char>| #[trigger] schema.contains_key(k) ==> doc.contains_key(k)
            && field_conforms(doc[k], schema[k])));
}

/// Validation is exact: a document passes exactly when every key of the
/// schema is in it with a value of the kind asked (recursively for nested
/// schemas). So a missing key or a value of another kind makes it fail, and
/// a key that the schema does not name never changes the outcome.
pub proof fn lemma_schema_validation(
    doc: Map<Seq<char>, Json>,
    schema: Map<Seq<char>, Json>,
    k: Seq<char>,
    v: Json,
)
    ensures
        conforms(doc, schema) == (forall|key: Seq<char>| #[trigger] schema.contains_key(key) ==> doc.contains_key(key)
            && field_conforms(doc[key], schema[key])),
        schema.contains_key(k) && !doc.contains_key(k) ==> !conforms(doc, schema),
        schema.contains_key(k) && doc.contains_key(k) && !field_conforms(doc[k], schema[k]) ==> !conforms(doc, schema),
        !schema.contains_key(k) ==> conforms(doc.insert(k, v), schema) == conforms(doc, schema),
{
    lemma_conforms_fields(doc, schema);
    lemma_conforms_fields(doc.insert(k, v), schema);
    if !schema.contains_key(k) {
        assert forall|key: Seq<char>| #[trigger] schema.contains_key(key) implies
            doc.insert(k, v).contains_key(key) == doc.contains_key(key)
            && doc.insert(k, v)[key] == doc[key] by {
            assert(key != k);
        }
    }
}

/// Whether `val` has the kind named by `lowered`, a type name already in
/// lower case.
pub fn kind_name_matches(lowered: &str, val: &JsonValue) -> (r: bool)
    ensures
        r == kind_matches(lowered@, val@),
{
    if text_eq(lowered, "string") {
        matches!(val, JsonValue::String(_))
    } else if text_eq(lowered, "number") {
        matches!(val, JsonValue::Number(_))
    } else if text_eq(lowered, "boolean") {
        matches!(val, JsonValue::Bool(_))
    } else if text_eq(lowered, "array") {
        matches!(val, JsonValue::Array(_))
    } else if text_eq(lowered, "object") {
        matches!(val, JsonValue::Object(_))
    } else {
        false
    }
}

/// Whether `val` has the kind named by `expected`, compared without regard
/// to case.
pub fn type_matches(expected: &str, val: &JsonValue) -> (r: bool)
    ensures
        r == kind_matches(lower_of(expected@), val@),
{
    let lowered = lowercase(expected);
    kind_name_matches(lowered.as_str(), val)
}

/// Checks a document against a schema.
pub fn validate_against_structure(doc: &JsonMap, schema: &JsonMap) -> (r: bool)
    ensures
        r == conforms(doc@, schema@),
    decreases schema,
{
    let entries = schema.entries();
    proof {
        lemma_entries_view(entries@);
    }
    let mut i: usize = 0;
    while i < entries.len()
        invariant
            i <= entries@.len(),
            entries@ == schema.entry_seq(),
            keys_distinct(entries@),
            entries_view(entries@) == schema@,
            forall|j: int| #![trigger entries@[j]] 0 <= j < i ==> doc@.contains_key(entries@[j].0@)
                && field_conforms(doc@[entries@[j].0@], entries@[j].1@),
        decreases entries@.len() - i,
    {
        proof {
            lemma_entries_view(entries@);
        }
        let key = entries[i].0.as_str();
        let expected = &entries[i].1;
        let ghost k = entries@[i as int].0@;
        let ok = match doc.get(key) {
            None => false,
            Some(actual) => {
                let b = match expected {
                    JsonValue::String(t) => {
                        let b1 = type_matches(t.as_str(), actual);
                        assert(b1 == field_conforms(actual@, expected@));
                        b1
                    },
                    JsonValue::Object(sub_schema) => match actual {
                        JsonValue::Object(sub_doc) => {
                            proof {
                                schema.lemma_value_decreases(i as int);
                                assert(decreases_to!(entries@[i as int].1 => *sub_schema));
                            }
                            let b2 = validate_against_structure(sub_doc, sub_schema);
                            assert(actual@ == Json::Object(sub_doc@));
                            assert(expected@ == Json::Object(sub_schema@));
                            assert(b2 == field_conforms(Json::Object(sub_doc@), Json::Object(sub_schema@)));
                            assert(b2 == field_conforms(actual@, expected@));
                            b2
                        },
                        _ => false,
                    },
                    _ => false,
                };
                proof {
                    assert(actual@ == doc@[k]);
                    assert(b == field_conforms(actual@, expected@));
                }
                b
            },
        };
        assert(ok == (doc@.contains_key(k) && field_conforms(doc@[k], entries@[i as int].1@)));
        if !ok {
            proof {
                lemma_conforms_fields(doc@, schema@);
                assert(schema@.contains_key(entries@[i as int].0@));
                assert(schema@[entries@[i as int].0@] == entries@[i as int].1@);
                assert(!doc@.contains_key(entries@[i as int].0@)
                    || !field_conforms(doc@[entries@[i as int].0@], entries@[i as int].1@));
            }
            return false;
        }
        i = i + 1;
    }
    proof {
        lemma_conforms_fields(doc@, schema@);
        assert forall|k: Seq<char>| #[trigger] schema@.contains_key(k) implies doc@.contains_key(k)
            && field_conforms(doc@[k], schema@[k]) by {
            let j = choose|j: int| 0 <= j < entries@.len() && #[trigger] entries@[j].0@ == k;
            assert(entries@[j] == entries@[j]);
        }
    }
    true
}

} // verus!
