//! JSON values as the interactive-title metadata carries them, their
//! mathematical view, and string-keyed state maps over them.
//!
//! Numbers are held as integers: `Int` for integer literals and `Float` for
//! floating-point numbers, by their integral value. The two never compare
//! equal, as in JSON libraries that keep the distinction.

use vstd::prelude::*;
use crate::text::{chars_eq, chars_of, str_eq};

verus! {

/// A JSON value.
pub enum JsonValue {
    Null,
    Bool(bool),
    Int(i64),
    Float(i64),
    Str(String),
    Array(Vec<JsonValue>),
    /// Members in document order (for parsed input: sorted by key, no key twice).
    Object(Vec<(String, JsonValue)>),
}

/// The mathematical view of a `JsonValue`.
pub enum Json {
    Null,
    Bool(bool),
    Int(int),
    Float(int),
    Str(Seq<char>),
    Array(Seq<Json>),
    Object(Seq<(Seq<char>, Json)>),
}

pub open spec fn json_view(v: JsonValue) -> Json
    decreases v,
{
    match v {
        JsonValue::Null => Json::Null,
        JsonValue::Bool(b) => Json::Bool(b),
        JsonValue::Int(n) => Json::Int(n as int),
        JsonValue::Float(n) => Json::Float(n as int),
        JsonValue::Str(s) => Json::Str(s@),
        JsonValue::Array(items) => Json::Array(json_views(items@)),
        JsonValue::Object(entries) => Json::Object(entry_views(entries@)),
    }
}

pub open spec fn json_views(s: Seq<JsonValue>) -> Seq<Json>
    decreases s,
{
    if s.len() == 0 {
        Seq::empty()
    } else {
        json_views(s.drop_last()).push(json_view(s.last()))
    }
}

pub open spec fn entry_views(s: Seq<(String, JsonValue)>) -> Seq<(Seq<char>, Json)>
    decreases s,
{
    if s.len() == 0 {
        Seq::empty()
    } else {
        entry_views(s.drop_last()).push((s.last().0@, json_view(s.last().1)))
    }
}

impl View for JsonValue {
    type V = Json;

    open spec fn view(&self) -> Json {
        json_view(*self)
    }
}

pub proof fn lemma_json_views(s: Seq<JsonValue>)
    ensures
        json_views(s).len() == s.len(),
        forall|i: int| 0 <= i < s.len() ==> #[trigger] json_views(s)[i] == json_view(s[i]),
    decreases s.len(),
{
    if s.len() > 0 {
        lemma_json_views(s.drop_last());
    }
}

pub proof fn lemma_entry_views(s: Seq<(String, JsonValue)>)
    ensures
        entry_views(s).len() == s.len(),
        forall|i: int|
            0 <= i < s.len() ==> #[trigger] entry_views(s)[i] == (s[i].0@, json_view(s[i].1)),
    decreases s.len(),
{
    if s.len() > 0 {
        lemma_entry_views(s.drop_last());
    }
}

/// JavaScript-style truthiness: `false`, `null`, zero and `""` are false.
pub open spec fn truthy_spec(v: Json) -> bool {
    match v {
        Json::Bool(b) => b,
        Json::Null => false,
        Json::Int(n) => n != 0,
        Json::Float(n) => n != 0,
        Json::Str(s) => s.len() > 0,
        _ => true,
    }
}

/// A value read as a number: numbers as themselves, anything else as 0.
pub open spec fn num_spec(v: Json) -> int {
    match v {
        Json::Int(n) => n,
        Json::Float(n) => n,
        _ => 0,
    }
}

/// The member `key` of an object (its first occurrence); `None` for other
/// values.
pub open spec fn member_spec(v: Json, key: Seq<char>) -> Option<Json> {
    match v {
        Json::Object(entries) => first_member(entries, key, 0),
        _ => None,
    }
}

pub open spec fn first_member(entries: Seq<(Seq<char>, Json)>, key: Seq<char>, i: int) -> Option<
    Json,
>
    decreases entries.len() - i,
{
    if i < 0 || i >= entries.len() {
        None
    } else if entries[i].0 == key {
        Some(entries[i].1)
    } else {
        first_member(entries, key, i + 1)
    }
}

impl JsonValue {
    /// A copy with the same view.
    pub fn deep_copy(&self) -> (r: JsonValue)
        ensures
            r@ == self@,
        decreases self,
    {
        match self {
            JsonValue::Null => JsonValue::Null,
            JsonValue::Bool(b) => JsonValue::Bool(*b),
            JsonValue::Int(n) => JsonValue::Int(*n),
            JsonValue::Float(n) => JsonValue::Float(*n),
            JsonValue::Str(s) => JsonValue::Str(s.clone()),
            JsonValue::Array(items) => {
                let mut out: Vec<JsonValue> = Vec::new();
                let mut i: usize = 0;
                proof {
                    lemma_json_views(items@);
                    assert forall|k: int| 0 <= k < items@.len() implies decreases_to!(*self => items@[k]) by {
                        assert(decreases_to!(*self => (*self)->Array_0));
                        assert(decreases_to!(items => items@));
                        assert(decreases_to!(items@ => items@[k]));
                    }
                }
                while i < items.len()
                    invariant
                        forall|k: int| 0 <= k < items@.len() ==> decreases_to!(*self => items@[k]),
                        i <= items@.len(),
                        json_views(out@) == json_views(items@.take(i as int)),
                    decreases items.len() - i,
                {
                    let c = items[i].deep_copy();
                    proof {
                        assert(items@.take(i + 1).drop_last() =~= items@.take(i as int));
                    }
                    let ghost prev = out@;
                    out.push(c);
                    proof {
                        assert(out@.drop_last() =~= prev);
                    }
                    i += 1;
                }
                proof {
                    assert(items@.take(items@.len() as int) =~= items@);
                }
                JsonValue::Array(out)
            },
            JsonValue::Object(entries) => {
                let mut out: Vec<(String, JsonValue)> = Vec::new();
                let mut i: usize = 0;
                proof {
                    assert forall|k: int| 0 <= k < entries@.len() implies decreases_to!(*self => entries@[k].1) by {
                        assert(decreases_to!(*self => (*self)->Object_0));
                        assert(decreases_to!(entries => entries@));
                        assert(decreases_to!(entries@ => entries@[k]));
                        assert(decreases_to!(entries@[k] => entries@[k].1));
                    }
                }
                while i < entries.len()
                    invariant
                        forall|k: int| 0 <= k < entries@.len() ==> decreases_to!(*self => entries@[k].1),
                        i <= entries@.len(),
                        entry_views(out@) == entry_views(entries@.take(i as int)),
                    decreases entries.len() - i,
                {
                    let k = entries[i].0.clone();
                    let v = entries[i].1.deep_copy();
                    proof {
                        assert(entries@.take(i + 1).drop_last() =~= entries@.take(i as int));
                    }
                    let ghost prev = out@;
                    out.push((k, v));
                    proof {
                        assert(out@.drop_last() =~= prev);
                    }
                    i += 1;
                }
                proof {
                    assert(entries@.take(entries@.len() as int) =~= entries@);
                }
                JsonValue::Object(out)
            },
        }
    }

    /// The value as a string slice, for `Str`.
    pub fn as_str(&self) -> (r: Option<&str>)
        ensures
            match self@ {
                Json::Str(s) => r matches Some(x) && x@ == s,
                _ => r is None,
            },
    {
        match self {
            JsonValue::Str(s) => Some(s.as_str()),
            _ => None,
        }
    }

    /// The items, for an array.
    pub fn as_array(&self) -> (r: Option<&Vec<JsonValue>>)
        ensures
            match self@ {
                Json::Array(items) => r matches Some(v) && json_views(v@) == items,
                _ => r is None,
            },
    {
        match self {
            JsonValue::Array(items) => Some(items),
            _ => None,
        }
    }

    /// The members, for an object.
    pub fn as_object(&self) -> (r: Option<&Vec<(String, JsonValue)>>)
        ensures
            match self@ {
                Json::Object(es) => r matches Some(v) && entry_views(v@) == es,
                _ => r is None,
            },
    {
        match self {
            JsonValue::Object(es) => Some(es),
            _ => None,
        }
    }

    /// The value is a string.
    pub fn is_string(&self) -> (b: bool)
        ensures
            b == (self@ is Str),
    {
        match self {
            JsonValue::Str(_) => true,
            _ => false,
        }
    }

    /// `serde_json::Value::get(key)`: the member of an object, `None` for
    /// everything else.
    pub fn get(&self, key: &str) -> (r: Option<&JsonValue>)
        ensures
            match r {
                Some(v) => member_spec(self@, key@) == Some(v@),
                None => member_spec(self@, key@) is None,
            },
    {
        match self {
            JsonValue::Object(entries) => {
                let k = chars_of(key);
                let mut i: usize = 0;
                proof {
                    lemma_entry_views(entries@);
                }
                while i < entries.len()
                    invariant
                        i <= entries@.len(),
                        k@ == key@,
                        self@ == Json::Object(entry_views(entries@)),
                        entry_views(entries@).len() == entries@.len(),
                        forall|j: int|
                            0 <= j < entries@.len() ==> #[trigger] entry_views(entries@)[j] == (
                            entries@[j].0@, json_view(entries@[j].1)),
                        first_member(entry_views(entries@), key@, 0) == first_member(
                            entry_views(entries@),
                            key@,
                            i as int,
                        ),
                    decreases entries.len() - i,
                {
                    let name = chars_of(entries[i].0.as_str());
                    if chars_eq(&name, &k) {
                        return Some(&entries[i].1);
                    }
                    i += 1;
                }
                None
            },
            _ => None,
        }
    }

    /// Structural equality: same variant and same contents (an `Int` never
    /// equals a `Float`; objects compare member by member, in order).
    pub fn json_eq(&self, other: &JsonValue) -> (r: bool)
        ensures
            r == (self@ == other@),
        decreases self,
    {
        match (self, other) {
            (JsonValue::Null, JsonValue::Null) => true,
            (JsonValue::Bool(a), JsonValue::Bool(b)) => *a == *b,
            (JsonValue::Int(a), JsonValue::Int(b)) => *a == *b,
            (JsonValue::Float(a), JsonValue::Float(b)) => *a == *b,
            (JsonValue::Str(a), JsonValue::Str(b)) => str_eq(a.as_str(), b.as_str()),
            (JsonValue::Array(xs), JsonValue::Array(ys)) => {
                proof {
                    lemma_json_views(xs@);
                    lemma_json_views(ys@);
                    assert forall|k: int| 0 <= k < xs@.len() implies decreases_to!(*self => xs@[k]) by {
                        assert(decreases_to!(*self => (*self)->Array_0));
                        assert(decreases_to!(xs => xs@));
                        assert(decreases_to!(xs@ => xs@[k]));
                    }
                }
                if xs.len() != ys.len() {
                    proof {
                        if self@ == other@ {
                            assert(json_views(xs@).len() == json_views(ys@).len());
                        }
                    }
                    return false;
                }
                let mut i: usize = 0;
                while i < xs.len()
                    invariant
                        forall|k: int| 0 <= k < xs@.len() ==> decreases_to!(*self => xs@[k]),
                        i <= xs@.len(),
                        xs@.len() == ys@.len(),
                        self@ == Json::Array(json_views(xs@)),
                        other@ == Json::Array(json_views(ys@)),
                        json_views(xs@).len() == xs@.len(),
                        json_views(ys@).len() == ys@.len(),
                        forall|k: int| 0 <= k < xs@.len() ==> #[trigger] json_views(xs@)[k] == json_view(xs@[k]),
                        forall|k: int| 0 <= k < ys@.len() ==> #[trigger] json_views(ys@)[k] == json_view(ys@[k]),
                        forall|k: int| 0 <= k < i ==> json_view(xs@[k]) == json_view(ys@[k]),
                    decreases xs.len() - i,
                {
                    if !xs[i].json_eq(&ys[i]) {
                        proof {
                            assert(json_views(xs@)[i as int] != json_views(ys@)[i as int]);
                        }
                        return false;
                    }
                    i += 1;
                }
                proof {
                    assert(json_views(xs@) =~= json_views(ys@));
                }
                true
            },
            (JsonValue::Object(xs), JsonValue::Object(ys)) => {
                proof {
                    lemma_entry_views(xs@);
                    lemma_entry_views(ys@);
                    assert forall|k: int| 0 <= k < xs@.len() implies decreases_to!(*self => xs@[k].1) by {
                        assert(decreases_to!(*self => (*self)->Object_0));
                        assert(decreases_to!(xs => xs@));
                        assert(decreases_to!(xs@ => xs@[k]));
                        assert(decreases_to!(xs@[k] => xs@[k].1));
                    }
                }
                if xs.len() != ys.len() {
                    proof {
                        if self@ == other@ {
                            assert(entry_views(xs@).len() == entry_views(ys@).len());
                        }
                    }
                    return false;
                }
                let mut i: usize = 0;
                while i < xs.len()
                    invariant
                        forall|k: int| 0 <= k < xs@.len() ==> decreases_to!(*self => xs@[k].1),
                        i <= xs@.len(),
                        xs@.len() == ys@.len(),
                        self@ == Json::Object(entry_views(xs@)),
                        other@ == Json::Object(entry_views(ys@)),
                        entry_views(xs@).len() == xs@.len(),
                        entry_views(ys@).len() == ys@.len(),
                        forall|k: int| 0 <= k < xs@.len() ==> #[trigger] entry_views(xs@)[k] == (xs@[k].0@, json_view(xs@[k].1)),
                        forall|k: int| 0 <= k < ys@.len() ==> #[trigger] entry_views(ys@)[k] == (ys@[k].0@, json_view(ys@[k].1)),
                        forall|k: int| 0 <= k < i ==> entry_views(xs@)[k] == entry_views(ys@)[k],
                    decreases xs.len() - i,
                {
                    let same_key = str_eq(xs[i].0.as_str(), ys[i].0.as_str());
                    if !same_key || !xs[i].1.json_eq(&ys[i].1) {
                        proof {
                            assert(entry_views(xs@)[i as int] != entry_views(ys@)[i as int]);
                        }
                        return false;
                    }
                    i += 1;
                }
                proof {
                    assert(entry_views(xs@) =~= entry_views(ys@));
                }
                true
            },
            _ => false,
        }
    }

    /// Truthiness (see `truthy_spec`).
    pub fn truthy(&self) -> (b: bool)
        ensures
            b == truthy_spec(self@),
    {
        match self {
            JsonValue::Bool(b) => *b,
            JsonValue::Null => false,
            JsonValue::Int(n) => *n != 0,
            JsonValue::Float(n) => *n != 0,
            JsonValue::Str(s) => s.unicode_len() > 0,
            _ => true,
        }
    }

    /// The value read as a number (see `num_spec`).
    pub fn num(&self) -> (n: i64)
        ensures
            n == num_spec(self@),
    {
        match self {
            JsonValue::Int(n) => *n,
            JsonValue::Float(n) => *n,
            _ => 0,
        }
    }
}

} // verus!
