//! JSON-like values: the payload of documents, the schemas of collections and
//! the filters of queries.

use vstd::prelude::*;
use vstd::string::StringSliceAdditionalSpecFns;
use vstd::utf8::encode_utf8_decode_utf8;

verus! {

/// A JSON number, kept the way a JSON parser reads it: a non-negative
/// integer, a negative integer, or a float held as its IEEE 754 bits.
#[derive(Debug, Clone, Copy, PartialEq, Eq, Structural)]
pub enum JsonNumber {
    PosInt(u64),
    NegInt(i64),
    Float(u64),
}

/// The mathematical model of a JSON value. Objects are maps from keys to
/// values, so two objects are equal exactly when they hold the same entries.
pub enum Json {
    Null,
    Bool(bool),
    Number(JsonNumber),
    Str(Seq<char>),
    Array(Seq<Json>),
    Object(Map<Seq<char>, Json>),
}

/// A JSON value.
#[derive(Debug)]
pub enum JsonValue {
    Null,
    Bool(bool),
    Number(JsonNumber),
    String(String),
    Array(Vec<JsonValue>),
    Object(JsonMap),
}

/// A JSON object: entries with pairwise distinct keys.
#[derive(Debug)]
pub struct JsonMap {
    entries: Vec<(String, JsonValue)>,
}

/// The models of a sequence of values.
pub open spec fn seq_view(s: Seq<JsonValue>) -> Seq<Json>
    decreases s,
{
    if s.len() == 0 {
        Seq::empty()
    } else {
        seq_view(s.drop_last()).push(s.last().view())
    }
}

/// The map that a sequence of entries stands for (a later entry wins).
pub open spec fn entries_view(s: Seq<(String, JsonValue)>) -> Map<Seq<char>, Json>
    decreases s,
{
    if s.len() == 0 {
        Map::empty()
    } else {
        entries_view(s.drop_last()).insert(s.last().0@, s.last().1.view())
    }
}

/// No two entries share a key.
pub open spec fn keys_distinct(s: Seq<(String, JsonValue)>) -> bool {
    forall|i: int, j: int| 0 <= i < s.len() && 0 <= j < s.len() && i != j ==> s[i].0@ != s[j].0@
}

impl JsonValue {
    pub open spec fn view(&self) -> Json
        decreases self,
    {
        match self {
            JsonValue::Null => Json::Null,
            JsonValue::Bool(b) => Json::Bool(*b),
            JsonValue::Number(n) => Json::Number(*n),
            JsonValue::String(s) => Json::Str(s@),
            JsonValue::Array(v) => Json::Array(seq_view(v@)),
            JsonValue::Object(m) => Json::Object(m.map_view()),
        }
    }
}

impl JsonMap {
    #[verifier::type_invariant]
    spec fn inv(self) -> bool {
        keys_distinct(self.entries@)
    }

    /// The entries of the object, in order.
    pub closed spec fn entry_seq(self) -> Seq<(String, JsonValue)> {
        self.entries@
    }

    /// The entries of the object, as a map.
    pub closed spec fn map_view(self) -> Map<Seq<char>, Json>
        decreases self,
    {
        entries_view(self.entries@)
    }
}

proof fn lemma_seq_view(s: Seq<JsonValue>)
    ensures
        seq_view(s).len() == s.len(),
        forall|i: int| 0 <= i < s.len() ==> #[trigger] seq_view(s)[i] == s[i].view(),
    decreases s.len(),
{
    if s.len() > 0 {
        lemma_seq_view(s.drop_last());
    }
}

impl Clone for JsonValue {
    fn clone(&self) -> (r: Self)
        ensures
            r@ == self@,
        decreases self,
    {
        match self {
            JsonValue::Null => JsonValue::Null,
            JsonValue::Bool(b) => JsonValue::Bool(*b),
            JsonValue::Number(n) => JsonValue::Number(*n),
            JsonValue::String(s) => JsonValue::String(s.clone()),
            JsonValue::Array(v) => {
                proof {
                    assert(decreases_to!(*self => *v));
                    assert(decreases_to!(*v => v@));
                    assert forall|j: int| 0 <= j < v.len() implies decreases_to!(*self => v@[j]) by {
                        assert(decreases_to!(v@ => v@[j]));
                    }
                }
                let mut out: Vec<JsonValue> = Vec::new();
                let mut i: usize = 0;
                while i < v.len()
                    invariant
                        i <= v.len(),
                        forall|j: int| 0 <= j < v.len() ==> decreases_to!(*self => v@[j]),
                        out@.len() == i,
                        forall|j: int| 0 <= j < i ==> #[trigger] out@[j]@ == v@[j]@,
                    decreases v.len() - i,
                {
                    let x = v[i].clone();
                    out.push(x);
                    i = i + 1;
                }
                proof {
                    lemma_seq_view(v@);
                    lemma_seq_view(out@);
                    assert(seq_view(out@) =~= seq_view(v@));
                }
                JsonValue::Array(out)
            },
            JsonValue::Object(m) => JsonValue::Object(m.clone()),
        }
    }
}

impl Clone for JsonMap {
    fn clone(&self) -> (r: Self)
        ensures
            r.map_view() == self.map_view(),
        decreases self,
    {
        proof {
            use_type_invariant(self);
        }
        let mut out: Vec<(String, JsonValue)> = Vec::new();
        let mut i: usize = 0;
        while i < self.entries.len()
            invariant
                i <= self.entries.len(),
                out@.len() == i,
                forall|j: int| 0 <= j < i ==> #[trigger] out@[j].0@ == self.entries@[j].0@ && out@[j].1@ == self.entries@[j].1@,
            decreases self.entries.len() - i,
        {
            let k = self.entries[i].0.clone();
            let x = self.entries[i].1.clone();
            out.push((k, x));
            i = i + 1;
        }
        proof {
            lemma_entries_view_congruent(out@, self.entries@);
        }
        JsonMap { entries: out }
    }
}

/// Two entry sequences with the same keys and models stand for the same map.
proof fn lemma_entries_view_congruent(a: Seq<(String, JsonValue)>, b: Seq<(String, JsonValue)>)
    requires
        a.len() == b.len(),
        forall|j: int| 0 <= j < a.len() ==> #[trigger] a[j].0@ == b[j].0@ && a[j].1@ == b[j].1@,
    ensures
        entries_view(a) == entries_view(b),
    decreases a.len(),
{
    if a.len() > 0 {
        lemma_entries_view_congruent(a.drop_last(), b.drop_last());
    }
}

/// Whether two texts are equal, compared byte by byte.
pub fn text_eq(a: &str, b: &str) -> (r: bool)
    ensures
        r == (a@ == b@),
{
    let x = a.as_bytes();
    let y = b.as_bytes();
    proof {
        encode_utf8_decode_utf8(a@);
        encode_utf8_decode_utf8(b@);
    }
    if x.len() != y.len() {
        return false;
    }
    let mut i: usize = 0;
    while i < x.len()
        invariant
            i <= x@.len(),
            x@.len() == y@.len(),
            x@ == a.spec_bytes(),
            y@ == b.spec_bytes(),
            forall|j: int| 0 <= j < i ==> x@[j] == y@[j],
        decreases x@.len() - i,
    {
        if x[i] != y[i] {
            return false;
        }
        i = i + 1;
    }
    proof {
        assert(x@ =~= y@);
    }
    true
}

/// The map of a sequence of entries with distinct keys holds exactly those
/// entries.
pub proof fn lemma_entries_view(s: Seq<(String, JsonValue)>)
    requires
        keys_distinct(s),
    ensures
        forall|i: int| 0 <= i < s.len() ==> #[trigger] entries_view(s).contains_key(s[i].0@)
            && entries_view(s)[s[i].0@] == s[i].1@,
        forall|k: Seq<char>| #[trigger] entries_view(s).contains_key(k) ==> exists|i: int|
            0 <= i < s.len() && #[trigger] s[i].0@ == k,
        entries_view(s).dom().finite(),
        entries_view(s).dom().len() == s.len(),
    decreases s.len(),
{
    if s.len() > 0 {
        let t = s.drop_last();
        assert(keys_distinct(t));
        lemma_entries_view(t);
        let k = s.last().0@;
        assert(!entries_view(t).contains_key(k)) by {
            if entries_view(t).contains_key(k) {
                let i = choose|i: int| 0 <= i < t.len() && #[trigger] t[i].0@ == k;
                assert(s[i].0@ == s[s.len() - 1].0@);
            }
        }
        assert forall|k2: Seq<char>| #[trigger] entries_view(s).contains_key(k2) implies exists|i: int|
            0 <= i < s.len() && #[trigger] s[i].0@ == k2 by {
            if k2 != k {
                let i = choose|i: int| 0 <= i < t.len() && #[trigger] t[i].0@ == k2;
                assert(s[i].0@ == k2);
            } else {
                assert(s[s.len() - 1].0@ == k2);
            }
        }
        assert forall|i: int| 0 <= i < s.len() implies #[trigger] entries_view(s).contains_key(s[i].0@)
            && entries_view(s)[s[i].0@] == s[i].1@ by {
            if i < s.len() - 1 {
                assert(t[i] == s[i]);
            }
        }
    }
}

impl JsonMap {
    /// An object with no entries.
    pub fn new() -> (r: JsonMap)
        ensures
            r@ == Map::<Seq<char>, Json>::empty(),
    {
        JsonMap { entries: Vec::new() }
    }

    /// The number of entries.
    pub fn len(&self) -> (r: usize)
        ensures
            r == self@.dom().len(),
            self@.dom().finite(),
    {
        proof {
            use_type_invariant(self);
            lemma_entries_view(self.entries@);
        }
        self.entries.len()
    }

    /// The value under `key`, if the object has that key.
    pub fn get(&self, key: &str) -> (r: Option<&JsonValue>)
        ensures
            match r {
                Some(v) => self@.contains_key(key@) && v@ == self@[key@],
                None => !self@.contains_key(key@),
            },
    {
        proof {
            use_type_invariant(self);
            lemma_entries_view(self.entries@);
        }
        match JsonMap::position_in(&self.entries, key) {
            Some(i) => {
                proof {
                    assert(entries_view(self.entries@).contains_key(self.entries@[i as int].0@));
                }
                Some(&self.entries[i].1)
            },
            None => None,
        }
    }

    /// Whether the object has the key.
    pub fn contains_key(&self, key: &str) -> (r: bool)
        ensures
            r == self@.contains_key(key@),
    {
        self.get(key).is_some()
    }

    /// Sets the value under `key`, replacing any value it had.
    pub fn insert(&mut self, key: String, value: JsonValue)
        ensures
            final(self)@ == old(self)@.insert(key@, value@),
    {
        proof {
            use_type_invariant(&*self);
            lemma_entries_view(self.entries@);
        }
        let ghost old_entries = self.entries@;
        let mut entries: Vec<(String, JsonValue)> = Vec::new();
        std::mem::swap(&mut entries, &mut self.entries);
        let pos = JsonMap::position_in(&entries, key.as_str());
        match pos {
            Some(i) => {
                let ghost k = key@;
                let ghost vv = value@;
                entries.set(i, (key, value));
                proof {
                    assert(keys_distinct(entries@)) by {
                        assert forall|a: int, b: int| 0 <= a < entries@.len() && 0 <= b < entries@.len() && a != b
                            implies entries@[a].0@ != entries@[b].0@ by {
                            if a != i && b != i {
                                assert(old_entries[a] == entries@[a]);
                                assert(old_entries[b] == entries@[b]);
                            } else if a == i {
                                assert(old_entries[b] == entries@[b]);
                            } else {
                                assert(old_entries[a] == entries@[a]);
                            }
                        }
                    }
                    lemma_entries_view(entries@);
                    assert(entries_view(entries@) =~= entries_view(old_entries).insert(k, vv)) by {
                        assert forall|kk: Seq<char>| #[trigger] entries_view(entries@).contains_key(kk)
                            implies entries_view(old_entries).insert(k, vv).contains_key(kk) by {
                            let j = choose|j: int| 0 <= j < entries@.len() && #[trigger] entries@[j].0@ == kk;
                            if j != i {
                                assert(old_entries[j] == entries@[j]);
                            }
                        }
                        assert forall|kk: Seq<char>| #[trigger] entries_view(old_entries).insert(k, vv).contains_key(kk)
                            implies entries_view(entries@).contains_key(kk)
                                && entries_view(entries@)[kk] == entries_view(old_entries).insert(k, vv)[kk] by {
                            if kk != k {
                                let j = choose|j: int| 0 <= j < old_entries.len() && #[trigger] old_entries[j].0@ == kk;
                                assert(old_entries[j] == entries@[j]);
                            } else {
                                assert(entries@[i as int].0@ == k);
                            }
                        }
                    }
                }
            },
            None => {
                entries.push((key, value));
                proof {
                    assert(entries@.drop_last() =~= old_entries);
                }
            },
        }
        self.entries = entries;
    }

    /// The position of the entry with the given key, if any.
    fn position_in(entries: &Vec<(String, JsonValue)>, key: &str) -> (r: Option<usize>)
        ensures
            match r {
                Some(i) => i < entries@.len() && entries@[i as int].0@ == key@,
                None => forall|i: int| 0 <= i < entries@.len() ==> entries@[i].0@ != key@,
            },
    {
        let mut i: usize = 0;
        while i < entries.len()
            invariant
                i <= entries@.len(),
                forall|j: int| 0 <= j < i ==> entries@[j].0@ != key@,
            decreases entries@.len() - i,
        {
            if text_eq(entries[i].0.as_str(), key) {
                return Some(i);
            }
            i = i + 1;
        }
        None
    }
}

impl JsonMap {
    /// The entries of the object, in the order they were first inserted.
    pub fn entries(&self) -> (r: &Vec<(String, JsonValue)>)
        ensures
            r@ == self.entry_seq(),
            keys_distinct(r@),
            entries_view(r@) == self@,
    {
        proof {
            use_type_invariant(self);
        }
        &self.entries
    }
}

/// Whether two values are structurally equal: same kind, equal scalars,
/// arrays equal element by element, objects with the same keys and equal
/// values under each key.
pub fn json_eq(a: &JsonValue, b: &JsonValue) -> (r: bool)
    ensures
        r == (a@ == b@),
    decreases a,
{
    match (a, b) {
        (JsonValue::Null, JsonValue::Null) => true,
        (JsonValue::Bool(x), JsonValue::Bool(y)) => *x == *y,
        (JsonValue::Number(x), JsonValue::Number(y)) => *x == *y,
        (JsonValue::String(x), JsonValue::String(y)) => *x == *y,
        (JsonValue::Array(x), JsonValue::Array(y)) => {
            proof {
                lemma_seq_view(x@);
                lemma_seq_view(y@);
                assert(decreases_to!(*a => *x));
                assert(decreases_to!(*x => x@));
                assert forall|j: int| 0 <= j < x.len() implies decreases_to!(*a => x@[j]) by {
                    assert(decreases_to!(x@ => x@[j]));
                }
            }
            if x.len() != y.len() {
                return false;
            }
            let mut i: usize = 0;
            while i < x.len()
                invariant
                    i <= x.len(),
                    x.len() == y.len(),
                    a@ == Json::Array(seq_view(x@)),
                    b@ == Json::Array(seq_view(y@)),
                    seq_view(x@).len() == x.len(),
                    seq_view(y@).len() == y.len(),
                    forall|j: int| 0 <= j < x.len() ==> #[trigger] seq_view(x@)[j] == x@[j]@,
                    forall|j: int| 0 <= j < y.len() ==> #[trigger] seq_view(y@)[j] == y@[j]@,
                    forall|j: int| 0 <= j < x.len() ==> decreases_to!(*a => x@[j]),
                    forall|j: int| 0 <= j < i ==> x@[j]@ == y@[j]@,
                decreases x.len() - i,
            {
                if !json_eq(&x[i], &y[i]) {
                    proof {
                        assert(seq_view(x@)[i as int] != seq_view(y@)[i as int]);
                    }
                    return false;
                }
                i = i + 1;
            }
            proof {
                assert(seq_view(x@) =~= seq_view(y@));
            }
            true
        },
        (JsonValue::Object(x), JsonValue::Object(y)) => {
            let ex = x.entries();
            proof {
                lemma_entries_view(ex@);
                assert(decreases_to!(*a => *x));
                assert(decreases_to!(*x => x.entries));
                assert(decreases_to!(x.entries => x.entries@));
                assert forall|j: int| 0 <= j < ex.len() implies decreases_to!(*a => ex@[j].1) by {
                    assert(decreases_to!(x.entries@ => x.entries@[j]));
                    assert(decreases_to!(x.entries@[j] => x.entries@[j].1));
                }
            }
            if x.len() != y.len() {
                return false;
            }
            let mut i: usize = 0;
            while i < ex.len()
                invariant
                    i <= ex@.len(),
                    keys_distinct(ex@),
                    a@ == Json::Object(x@),
                    b@ == Json::Object(y@),
                    entries_view(ex@) == x@,
                    x@.dom().len() == y@.dom().len(),
                    forall|j: int| 0 <= j < ex@.len() ==> decreases_to!(*a => ex@[j].1),
                    forall|j: int| #![trigger ex@[j]] 0 <= j < i ==> y@.contains_key(ex@[j].0@) && y@[ex@[j].0@] == ex@[j].1@,
                decreases ex@.len() - i,
            {
                match y.get(ex[i].0.as_str()) {
                    Some(w) => {
                        if !json_eq(&ex[i].1, w) {
                            proof {
                                lemma_entries_view(ex@);
                                assert(entries_view(ex@).contains_key(ex@[i as int].0@));
                            }
                            return false;
                        }
                        assert(y@.contains_key(ex@[i as int].0@) && y@[ex@[i as int].0@] == ex@[i as int].1@);
                    },
                    None => {
                        proof {
                            lemma_entries_view(ex@);
                            assert(entries_view(ex@).contains_key(ex@[i as int].0@));
                        }
                        return false;
                    },
                }
                i = i + 1;
            }
            proof {
                lemma_entries_view(ex@);
                assert(x@.dom().subset_of(y@.dom())) by {
                    assert forall|k: Seq<char>| x@.dom().contains(k) implies y@.dom().contains(k) by {
                        let j = choose|j: int| 0 <= j < ex@.len() && #[trigger] ex@[j].0@ == k;
                        assert(y@.contains_key(ex@[j].0@));
                    }
                }
                vstd::set_lib::lemma_subset_equality(x@.dom(), y@.dom());
                assert forall|k: Seq<char>| x@.contains_key(k) implies x@[k] == y@[k] by {
                    let j = choose|j: int| 0 <= j < ex@.len() && #[trigger] ex@[j].0@ == k;
                    assert(y@.contains_key(ex@[j].0@));
                }
                assert(x@ =~= y@);
            }
            true
        },
        _ => false,
    }
}

impl PartialEq for JsonValue {
    fn eq(&self, other: &JsonValue) -> (r: bool) {
        json_eq(self, other)
    }
}

impl vstd::std_specs::cmp::PartialEqSpecImpl for JsonValue {
    open spec fn obeys_eq_spec() -> bool {
        true
    }

    open spec fn eq_spec(&self, other: &JsonValue) -> bool {
        self@ == other@
    }
}

impl JsonNumber {
    /// The number for a signed integer: non-negative integers are kept as
    /// `PosInt`, negative ones as `NegInt`.
    pub fn from_i64(i: i64) -> (r: JsonNumber)
        ensures
            i >= 0 ==> r == JsonNumber::PosInt(i as u64),
            i < 0 ==> r == JsonNumber::NegInt(i),
    {
        if i >= 0 {
            JsonNumber::PosInt(i as u64)
        } else {
            JsonNumber::NegInt(i)
        }
    }
}

impl JsonValue {
    /// The object inside the value, if it is an object.
    pub fn as_object(&self) -> (r: Option<&JsonMap>)
        ensures
            match r {
                Some(m) => self@ == Json::Object(m@),
                None => !(self@ is Object),
            },
    {
        match self {
            JsonValue::Object(m) => Some(m),
            _ => None,
        }
    }

    /// Whether the value is an object.
    pub fn is_object(&self) -> (r: bool)
        ensures
            r == (self@ is Object),
    {
        match self {
            JsonValue::Object(_) => true,
            _ => false,
        }
    }

    /// The value under `key`, when this value is an object with that key.
    pub fn get(&self, key: &str) -> (r: Option<&JsonValue>)
        ensures
            match r {
                Some(v) => field_of(self@, key@) == Some(v@),
                None => field_of(self@, key@) is None,
            },
    {
        match self {
            JsonValue::Object(m) => m.get(key),
            _ => None,
        }
    }
}

/// The value under `key` in `v`, when `v` is an object with that key.
pub open spec fn field_of(v: Json, key: Seq<char>) -> Option<Json> {
    match v {
        Json::Object(m) => if m.contains_key(key) {
            Some(m[key])
        } else {
            None
        },
        _ => None,
    }
}

/// The value that a dot-separated path leads to, reading the path from
/// position `i` on, where the key being read began at `start`.
pub open spec fn resolve_from(v: Json, path: Seq<char>, start: int, i: int) -> Option<Json>
    decreases path.len() - i,
{
    if i >= path.len() {
        field_of(v, path.subrange(start, path.len() as int))
    } else if path[i] == '.' {
        match field_of(v, path.subrange(start, i)) {
            Some(w) => resolve_from(w, path, i + 1, i + 1),
            None => None,
        }
    } else {
        resolve_from(v, path, start, i + 1)
    }
}

/// The value that the dot-separated path `path` leads to in `v`: `"a.b"`
/// is the value under `b` in the object under `a`.
pub open spec fn resolve_path(v: Json, path: Seq<char>) -> Option<Json> {
    resolve_from(v, path, 0, 0)
}

/// A path leads somewhere only from an object.
pub proof fn lemma_resolve_from_object(v: Json, path: Seq<char>, start: int, i: int)
    requires
        resolve_from(v, path, start, i) is Some,
    ensures
        v is Object,
    decreases path.len() - i,
{
    if i < path.len() && path[i] != '.' {
        lemma_resolve_from_object(v, path, start, i + 1);
    }
}

/// A path without dots names a single key.
pub proof fn lemma_resolve_plain(v: Json, path: Seq<char>)
    requires
        forall|i: int| 0 <= i < path.len() ==> path[i] != '.',
    ensures
        resolve_path(v, path) == field_of(v, path),
{
    lemma_resolve_plain_from(v, path, 0);
    assert(path.subrange(0, path.len() as int) =~= path);
}

proof fn lemma_resolve_plain_from(v: Json, path: Seq<char>, i: int)
    requires
        0 <= i <= path.len(),
        forall|j: int| 0 <= j < path.len() ==> path[j] != '.',
    ensures
        resolve_from(v, path, 0, i) == field_of(v, path.subrange(0, path.len() as int)),
    decreases path.len() - i,
{
    if i < path.len() {
        lemma_resolve_plain_from(v, path, i + 1);
    }
}

/// Follows a dot-separated path of keys through nested objects.
pub fn get_nested_value<'a>(value: &'a JsonValue, path: &str) -> (r: Option<&'a JsonValue>)
    ensures
        match r {
            Some(v) => resolve_path(value@, path@) == Some(v@),
            None => resolve_path(value@, path@) is None,
        },
{
    let n = path.unicode_len();
    let mut cur: &JsonValue = value;
    let mut start: usize = 0;
    let mut i: usize = 0;
    while i < n
        invariant
            n == path@.len(),
            start <= i <= n,
            resolve_path(value@, path@) == resolve_from(cur@, path@, start as int, i as int),
        decreases n - i,
    {
        if path.get_char(i) == '.' {
            let key = path.substring_char(start, i);
            match cur.get(key) {
                Some(w) => {
                    cur = w;
                    start = i + 1;
                },
                None => {
                    return None;
                },
            }
        }
        i = i + 1;
    }
    let key = path.substring_char(start, n);
    cur.get(key)
}

impl JsonMap {
    /// Each value of an object is smaller than the object.
    pub proof fn lemma_value_decreases(self, i: int)
        requires
            0 <= i < self.entry_seq().len(),
        ensures
            decreases_to!(self => self.entry_seq()[i].1),
    {
        assert(decreases_to!(self => self.entries));
        assert(decreases_to!(self.entries => self.entries@));
        assert(decreases_to!(self.entries@ => self.entries@[i]));
        assert(decreases_to!(self.entries@[i] => self.entries@[i].1));
    }
}

impl View for JsonMap {
    type V = Map<Seq<char>, Json>;

    open spec fn view(&self) -> Map<Seq<char>, Json> {
        self.map_view()
    }
}

} // verus!
