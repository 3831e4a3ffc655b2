//! JSON values, as the crate `serde_json` reads them.

use vstd::prelude::*;

use crate::text::same;

verus! {

/// A JSON value. A number is what it is as a signed and as an unsigned integer
/// of 64 bits; the entries of an object stand in the order of the map that held
/// them.
#[derive(Debug)]
pub enum Json {
    Null,
    Bool(bool),
    Number { signed: Option<i64>, unsigned: Option<u64> },
    Text(String),
    Array(Vec<Json>),
    Object(Vec<(String, Json)>),
}

/// What a JSON value holds.
pub enum JsonView {
    Null,
    Bool(bool),
    Number(Option<i64>, Option<u64>),
    Text(Seq<char>),
    Array(Seq<JsonView>),
    Object(Seq<(Seq<char>, JsonView)>),
}

impl JsonView {
    /// The value of the first entry of an object with a key.
    pub open spec fn get(self, key: Seq<char>) -> Option<JsonView> {
        match self {
            JsonView::Object(entries) => entry(entries, key),
            _ => None,
        }
    }

    pub open spec fn as_i64(self) -> Option<i64> {
        match self {
            JsonView::Number(signed, _) => signed,
            _ => None,
        }
    }

    pub open spec fn as_u64(self) -> Option<u64> {
        match self {
            JsonView::Number(_, unsigned) => unsigned,
            _ => None,
        }
    }

    pub open spec fn as_str(self) -> Option<Seq<char>> {
        match self {
            JsonView::Text(s) => Some(s),
            _ => None,
        }
    }

    pub open spec fn as_array(self) -> Option<Seq<JsonView>> {
        match self {
            JsonView::Array(items) => Some(items),
            _ => None,
        }
    }
}

/// The value of the first entry with a key.
pub open spec fn entry(entries: Seq<(Seq<char>, JsonView)>, key: Seq<char>) -> Option<JsonView>
    decreases entries.len(),
{
    if entries.len() == 0 {
        None
    } else if entries[0].0 == key {
        Some(entries[0].1)
    } else {
        entry(entries.skip(1), key)
    }
}

impl View for Json {
    type V = JsonView;

    open spec fn view(&self) -> JsonView {
        self.contents()
    }
}

impl Json {
    /// What this value holds.
    pub open spec fn contents(self) -> JsonView
        decreases self,
    {
        match self {
            Json::Null => JsonView::Null,
            Json::Bool(b) => JsonView::Bool(b),
            Json::Number { signed, unsigned } => JsonView::Number(signed, unsigned),
            Json::Text(s) => JsonView::Text(s@),
            Json::Array(items) => JsonView::Array(
                Seq::new(
                    items@.len(),
                    |i: int|
                        if 0 <= i < items@.len() {
                            items@[i].contents()
                        } else {
                            JsonView::Null
                        },
                ),
            ),
            Json::Object(entries) => JsonView::Object(
                Seq::new(
                    entries@.len(),
                    |i: int|
                        if 0 <= i < entries@.len() {
                            (entries@[i].0@, entries@[i].1.contents())
                        } else {
                            (Seq::empty(), JsonView::Null)
                        },
                ),
            ),
        }
    }

    /// The value of the first entry of an object with a key; none where this is
    /// no object.
    pub fn get(&self, key: &str) -> (r: Option<&Json>)
        ensures
            self@.get(key@) == (match r {
                Some(v) => Some(v@),
                None => None::<JsonView>,
            }),
    {
        match self {
            Json::Object(entries) => {
                let ghost all = self@->Object_0;
                assert(all.skip(0) =~= all);
                for i in 0..entries.len()
                    invariant
                        all == self@->Object_0,
                        self@ is Object,
                        *self == Json::Object(*entries),
                        all.len() == entries@.len(),
                        entry(all.skip(i as int), key@) == entry(all, key@),
                {
                    assert(all.skip(i as int)[0] == all[i as int]);
                    assert(all[i as int] == (entries@[i as int].0@, entries@[i as int].1@));
                    if same(entries[i].0.as_str(), key) {
                        return Some(&entries[i].1);
                    }
                    assert(all.skip(i as int).skip(1) =~= all.skip(i + 1));
                }
                None
            },
            _ => None,
        }
    }

    /// This number as a signed integer, where it is one.
    pub fn as_i64(&self) -> (r: Option<i64>)
        ensures
            r == self@.as_i64(),
    {
        match self {
            Json::Number { signed, unsigned: _ } => *signed,
            _ => None,
        }
    }

    /// This number as an unsigned integer, where it is one.
    pub fn as_u64(&self) -> (r: Option<u64>)
        ensures
            r == self@.as_u64(),
    {
        match self {
            Json::Number { signed: _, unsigned } => *unsigned,
            _ => None,
        }
    }

    /// The text of this value, where it is one.
    pub fn as_str(&self) -> (r: Option<&str>)
        ensures
            self@.as_str() == (match r {
                Some(s) => Some(s@),
                None => None::<Seq<char>>,
            }),
    {
        match self {
            Json::Text(s) => Some(s.as_str()),
            _ => None,
        }
    }

    /// The items of this value, where it is an array.
    pub fn as_array(&self) -> (r: Option<&Vec<Json>>)
        ensures
            self@.as_array() is Some <==> r is Some,
            r matches Some(items) ==> {
                &&& self@.as_array()->0.len() == items@.len()
                &&& forall|i: int|
                    0 <= i < items@.len() ==> self@.as_array()->0[i] == (#[trigger] items@[i])@
            },
    {
        match self {
            Json::Array(items) => Some(items),
            _ => None,
        }
    }
}

/// The contents of values, one by one.
pub open spec fn contents_of(items: Seq<Json>) -> Seq<JsonView> {
    items.map_values(|v: Json| v@)
}

/// The keys and the contents of entries, one by one.
pub open spec fn entries_of(entries: Seq<(String, Json)>) -> Seq<(Seq<char>, JsonView)> {
    entries.map_values(|e: (String, Json)| (e.0@, e.1@))
}

/// The array of some values.
pub fn array_of(items: Vec<Json>) -> (r: Json)
    ensures
        r@ == JsonView::Array(contents_of(items@)),
{
    let r = Json::Array(items);
    assert(r@->Array_0 =~= contents_of(items@));
    r
}

/// The object of some entries.
pub fn object_of(entries: Vec<(String, Json)>) -> (r: Json)
    ensures
        r@ == JsonView::Object(entries_of(entries@)),
{
    let r = Json::Object(entries);
    assert(r@->Object_0 =~= entries_of(entries@));
    r
}

/// The error of the JSON reader; it is only carried.
#[verifier::external_type_specification]
#[verifier::external_body]
pub struct ExJsonError(serde_json::Error);

/// A value of the JSON reader; it is only converted.
#[verifier::external_type_specification]
#[verifier::external_body]
pub struct ExJsonValue(serde_json::Value);

/// The value that a JSON text writes; none where it is no JSON text.
pub uninterp spec fn json_value(text: Seq<char>) -> Option<JsonView>;

/// Trusted: the `Json` that stands for a `serde_json::Value`: the same kind of
/// value with the same contents, a number as `as_i64` and `as_u64` give it.
/// Nothing is promised of it alone; `parse_json` tells what it gives for a text.
#[verifier::external_body]
fn from_value(v: serde_json::Value) -> (r: Json) {
    match v {
        serde_json::Value::Null => Json::Null,
        serde_json::Value::Bool(b) => Json::Bool(b),
        serde_json::Value::Number(n) => Json::Number { signed: n.as_i64(), unsigned: n.as_u64() },
        serde_json::Value::String(s) => Json::Text(s),
        serde_json::Value::Array(a) => Json::Array(a.into_iter().map(from_value).collect()),
        serde_json::Value::Object(o) => Json::Object(
            o.into_iter().map(|e| (e.0, from_value(e.1))).collect(),
        ),
    }
}

/// Trusted: `serde_json::from_str` into a `serde_json::Value`. Whether a text is
/// JSON, and which value it writes, depends on the text alone, and is named.
#[verifier::external_body]
pub(crate) fn parse_json(text: &str) -> (r: Result<Json, serde_json::Error>)
    ensures
        json_value(text@) == (match r {
            Ok(v) => Some(v@),
            Err(_) => None::<JsonView>,
        }),
{
    serde_json::from_str::<serde_json::Value>(text).map(from_value)
}

/// The value under a key is that of the first entry with the key; there is none
/// exactly where no entry has it.
pub proof fn law_entry_is_the_first(entries: Seq<(Seq<char>, JsonView)>, key: Seq<char>, k: int)
    requires
        0 <= k <= entries.len(),
        forall|j: int| 0 <= j < k ==> (#[trigger] entries[j]).0 != key,
        k < entries.len() ==> entries[k].0 == key,
    ensures
        JsonView::Object(entries).get(key) == (if k < entries.len() {
            Some(entries[k].1)
        } else {
            None
        }),
    decreases entries.len(),
{
    if entries.len() > 0 && entries[0].0 != key {
        let rest = entries.skip(1);
        assert forall|j: int| 0 <= j < k - 1 implies (#[trigger] rest[j]).0 != key by {
            assert(rest[j] == entries[j + 1]);
        }
        law_entry_is_the_first(rest, key, k - 1);
        assert(JsonView::Object(rest).get(key) == entry(rest, key));
    }
}

} // verus!
