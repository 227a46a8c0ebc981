//! JSON documents as plain values.
use vstd::prelude::*;

use crate::error;
use crate::error::{ErrorModel, RdtError};
use crate::text;

verus! {

/// A number with a fraction, carried by its IEEE 754 bit pattern. The library
/// stores such numbers and hands them on; it never computes with them.
#[derive(Debug, Clone, Copy, PartialEq, Eq, Structural)]
pub struct Real {
    pub bits: u64,
}

/// A JSON number: its value where it is an integer of 64 bits, its value as a
/// double, and its text.
#[derive(Debug)]
pub struct JsonNumber {
    pub integer: Option<i64>,
    pub real: Option<Real>,
    pub text: String,
}

/// A JSON document.
#[derive(Debug)]
pub enum Json {
    Null,
    Bool(bool),
    Number(JsonNumber),
    Text(String),
    List(Vec<Json>),
    Object(Vec<(String, Json)>),
}

/// What a [`JsonNumber`] holds.
pub struct NumberModel {
    pub integer: Option<i64>,
    pub real: Option<Real>,
    pub text: Seq<char>,
}

/// What a [`Json`] document holds.
pub enum JsonModel {
    Null,
    Bool(bool),
    Number(NumberModel),
    Text(Seq<char>),
    List(Seq<JsonModel>),
    Object(Seq<(Seq<char>, JsonModel)>),
}

impl View for JsonNumber {
    type V = NumberModel;

    open spec fn view(&self) -> NumberModel {
        NumberModel { integer: self.integer, real: self.real, text: self.text@ }
    }
}

impl Json {
    /// What the document holds.
    pub open spec fn model(&self) -> JsonModel
        decreases self,
    {
        match *self {
            Json::Null => JsonModel::Null,
            Json::Bool(flag) => JsonModel::Bool(flag),
            Json::Number(number) => JsonModel::Number(number@),
            Json::Text(s) => JsonModel::Text(s@),
            Json::List(items) => JsonModel::List(
                Seq::new(
                    items@.len(),
                    |i: int|
                        if 0 <= i < items@.len() {
                            items@[i].model()
                        } else {
                            JsonModel::Null
                        },
                ),
            ),
            Json::Object(entries) => JsonModel::Object(
                Seq::new(
                    entries@.len(),
                    |i: int|
                        if 0 <= i < entries@.len() {
                            (entries@[i].0@, entries@[i].1.model())
                        } else {
                            (Seq::empty(), JsonModel::Null)
                        },
                ),
            ),
        }
    }
}

impl View for Json {
    type V = JsonModel;

    open spec fn view(&self) -> JsonModel {
        self.model()
    }
}

impl JsonModel {
    /// The entry of an object under a key; the first one where there are several.
    pub open spec fn get(self, key: Seq<char>) -> Option<JsonModel> {
        match self {
            JsonModel::Object(entries) => lookup(entries, key),
            _ => None,
        }
    }

    /// The entry under `outer`, and in it the entry under `inner`.
    pub open spec fn get2(self, outer: Seq<char>, inner: Seq<char>) -> Option<JsonModel> {
        match self.get(outer) {
            Some(v) => v.get(inner),
            None => None,
        }
    }

    /// The text of a string document.
    pub open spec fn as_text(self) -> Option<Seq<char>> {
        match self {
            JsonModel::Text(s) => Some(s),
            _ => None,
        }
    }

    /// The items of a list document.
    pub open spec fn as_list(self) -> Option<Seq<JsonModel>> {
        match self {
            JsonModel::List(items) => Some(items),
            _ => None,
        }
    }

    /// The list under `outer` and then `inner`.
    pub open spec fn list_at(self, outer: Seq<char>, inner: Seq<char>) -> Option<Seq<JsonModel>> {
        match self.get2(outer, inner) {
            Some(v) => v.as_list(),
            None => None,
        }
    }

    /// The text under a key.
    pub open spec fn text_at(self, key: Seq<char>) -> Option<Seq<char>> {
        match self.get(key) {
            Some(v) => v.as_text(),
            None => None,
        }
    }
}

/// The first value that stands under `key`.
pub open spec fn lookup(entries: Seq<(Seq<char>, JsonModel)>, key: Seq<char>) -> Option<JsonModel>
    decreases entries.len(),
{
    if entries.len() == 0 {
        None
    } else if entries[0].0 == key {
        Some(entries[0].1)
    } else {
        lookup(entries.skip(1), key)
    }
}

/// What an optional document holds.
pub open spec fn opt_json(v: Option<&Json>) -> Option<JsonModel> {
    match v {
        Some(j) => Some(j@),
        None => None,
    }
}

/// What a slice of documents holds.
pub open spec fn list_model(items: Seq<Json>) -> Seq<JsonModel> {
    Seq::new(items.len(), |i: int| items[i]@)
}

impl Json {
    /// The entry of an object under a key.
    pub fn get(&self, key: &str) -> (r: Option<&Json>)
        ensures
            opt_json(r) == self@.get(key@),
    {
        match self {
            Json::Object(entries) => {
                let ghost all = self@->Object_0;
                let mut i: usize = 0;
                assert(all.skip(0) =~= all);
                while i < entries.len()
                    invariant
                        i <= entries@.len(),
                        all == self@->Object_0,
                        *self == Json::Object(*entries),
                        lookup(all, key@) == lookup(all.skip(i as int), key@),
                    decreases entries@.len() - i,
                {
                    assert(all.skip(i as int).skip(1) =~= all.skip(i + 1));
                    assert(all.skip(i as int)[0] == all[i as int]);
                    if text::same_text(entries[i].0.as_str(), key) {
                        return Some(&entries[i].1);
                    }
                    i = i + 1;
                }
                None
            },
            _ => None,
        }
    }

    /// The entry under `outer`, and in it the entry under `inner`.
    pub fn get2(&self, outer: &str, inner: &str) -> (r: Option<&Json>)
        ensures
            opt_json(r) == self@.get2(outer@, inner@),
    {
        match self.get(outer) {
            Some(v) => v.get(inner),
            None => None,
        }
    }

    /// The text of a string document.
    pub fn as_text(&self) -> (r: Option<&str>)
        ensures
            text::opt_str(r) == self@.as_text(),
    {
        match self {
            Json::Text(s) => Some(s.as_str()),
            _ => None,
        }
    }

    /// The items of a list document.
    pub fn as_list(&self) -> (r: Option<&Vec<Json>>)
        ensures
            match r {
                Some(items) => self@.as_list() == Some(list_model(items@)),
                None => self@.as_list() is None,
            },
    {
        match self {
            Json::List(items) => {
                assert(self@->List_0 =~= list_model(items@));
                Some(items)
            },
            _ => None,
        }
    }

    /// The list under `outer` and then `inner`.
    pub fn list_at(&self, outer: &str, inner: &str) -> (r: Option<&Vec<Json>>)
        ensures
            match r {
                Some(items) => self@.list_at(outer@, inner@) == Some(list_model(items@)),
                None => self@.list_at(outer@, inner@) is None,
            },
    {
        match self.get2(outer, inner) {
            Some(v) => v.as_list(),
            None => None,
        }
    }

    /// The text under a key.
    pub fn text_at(&self, key: &str) -> (r: Option<&str>)
        ensures
            text::opt_str(r) == self@.text_at(key@),
    {
        match self.get(key) {
            Some(v) => v.as_text(),
            None => None,
        }
    }
}

proof fn lemma_lookup_first(entries: Seq<(Seq<char>, JsonModel)>, key: Seq<char>, i: int)
    requires
        0 <= i < entries.len(),
        entries[i].0 == key,
        forall|j: int| 0 <= j < i ==> (#[trigger] entries[j]).0 != key,
    ensures
        lookup(entries, key) == Some(entries[i].1),
    decreases entries.len(),
{
    if i > 0 {
        let rest = entries.skip(1);
        assert forall|j: int| 0 <= j < i - 1 implies (#[trigger] rest[j]).0 != key by {
            assert(rest[j] == entries[j + 1]);
        }
        lemma_lookup_first(rest, key, i - 1);
    }
}

proof fn lemma_lookup_none(entries: Seq<(Seq<char>, JsonModel)>, key: Seq<char>)
    requires
        forall|j: int| 0 <= j < entries.len() ==> (#[trigger] entries[j]).0 != key,
    ensures
        lookup(entries, key) is None,
    decreases entries.len(),
{
    if entries.len() > 0 {
        let rest = entries.skip(1);
        assert forall|j: int| 0 <= j < rest.len() implies (#[trigger] rest[j]).0 != key by {
            assert(rest[j] == entries[j + 1]);
        }
        lemma_lookup_none(rest, key);
    }
}

/// Under a key of an object stands the value of the first entry with that key,
/// and nothing where no entry has it.
pub proof fn law_objects_hold_their_entries(
    entries: Seq<(Seq<char>, JsonModel)>,
    key: Seq<char>,
    i: int,
)
    ensures
        0 <= i < entries.len() && entries[i].0 == key && (forall|j: int|
            0 <= j < i ==> (#[trigger] entries[j]).0 != key) ==> JsonModel::Object(entries).get(
            key,
        ) == Some(entries[i].1),
        (forall|j: int| 0 <= j < entries.len() ==> (#[trigger] entries[j]).0 != key)
            ==> JsonModel::Object(entries).get(key) is None,
{
    if 0 <= i < entries.len() && entries[i].0 == key && (forall|j: int|
        0 <= j < i ==> (#[trigger] entries[j]).0 != key) {
        lemma_lookup_first(entries, key, i);
    }
    if forall|j: int| 0 <= j < entries.len() ==> (#[trigger] entries[j]).0 != key {
        lemma_lookup_none(entries, key);
    }
}

// ---------------------------------------------------------------------------
// Decoding
// ---------------------------------------------------------------------------

/// A document of the `serde_json` crate.
#[verifier::external_type_specification]
#[verifier::external_body]
pub struct ExValue(serde_json::Value);

/// What a `serde_json::Value` holds.
pub uninterp spec fn value_model(value: serde_json::Value) -> JsonModel;

/// The document that a text denotes to `serde_json`, or the words in which it
/// is refused.
pub uninterp spec fn decoded(json: Seq<char>) -> Result<JsonModel, Seq<char>>;

/// The outermost layer of a document.
enum Layer {
    Null,
    Bool(bool),
    Number(JsonNumber),
    Text(String),
    List(Vec<serde_json::Value>),
    Object(Vec<(String, serde_json::Value)>),
}

impl Layer {
    /// What the document holds that has this layer outermost.
    spec fn model(self) -> JsonModel {
        match self {
            Layer::Null => JsonModel::Null,
            Layer::Bool(flag) => JsonModel::Bool(flag),
            Layer::Number(number) => JsonModel::Number(number@),
            Layer::Text(s) => JsonModel::Text(s@),
            Layer::List(items) => JsonModel::List(
                Seq::new(items@.len(), |i: int| value_model(items@[i])),
            ),
            Layer::Object(entries) => JsonModel::Object(
                Seq::new(
                    entries@.len(),
                    |i: int| (entries@[i].0@, value_model(entries@[i].1)),
                ),
            ),
        }
    }
}

/// Calls `serde_json::from_str` and writes its error with `to_string`. A text
/// either denotes a document, the same one each time, or is refused in the same
/// words.
#[verifier::external_body]
fn read_value(json: &str) -> (r: Result<serde_json::Value, String>)
    ensures
        match r {
            Ok(value) => decoded(json@) == Ok::<_, Seq<char>>(value_model(value)),
            Err(words) => decoded(json@) == Err::<JsonModel, _>(words@),
        },
{
    serde_json::from_str(json).map_err(|e| e.to_string())
}

/// The outcome of reading a document: what is refused is told with the words
/// of the refusal.
pub open spec fn document(found: Result<JsonModel, Seq<char>>) -> Result<JsonModel, ErrorModel> {
    match found {
        Ok(value) => Ok(value),
        Err(words) => Err(
            ErrorModel::Caused { doing: "parsing reddit JSON"@, cause: words },
        ),
    }
}

/// Reads a document as `serde_json` holds it.
pub fn parse_value(json: &str) -> (r: Result<serde_json::Value, RdtError>)
    ensures
        match r {
            Ok(value) => decoded(json@) == Ok::<_, Seq<char>>(value_model(value)),
            Err(e) => document(decoded(json@)) == Err::<JsonModel, _>(e@),
        },
{
    match read_value(json) {
        Ok(value) => Ok(value),
        Err(cause) => Err(RdtError::Caused { doing: "parsing reddit JSON".to_owned(), cause }),
    }
}

/// Takes the variants of `serde_json::Value` apart, one layer deep. Numbers
/// are read with `as_i64` and `as_f64` and written with `to_string`.
#[verifier::external_body]
fn open_value(value: serde_json::Value) -> (layer: Layer)
    ensures
        layer.model() == value_model(value),
{
    match value {
        serde_json::Value::Null => Layer::Null,
        serde_json::Value::Bool(flag) => Layer::Bool(flag),
        serde_json::Value::Number(n) => Layer::Number(JsonNumber {
            integer: n.as_i64(),
            real: n.as_f64().map(|x| Real { bits: x.to_bits() }),
            text: n.to_string(),
        }),
        serde_json::Value::String(s) => Layer::Text(s),
        serde_json::Value::Array(items) => Layer::List(items),
        serde_json::Value::Object(entries) => Layer::Object(entries.into_iter().collect()),
    }
}

/// Copies a document of `serde_json` into plain values.
pub fn convert(value: serde_json::Value) -> (r: Json)
    ensures
        r@ == value_model(value),
    decreases value_model(value),
{
    let ghost whole = value_model(value);
    match open_value(value) {
        Layer::Null => Json::Null,
        Layer::Bool(flag) => Json::Bool(flag),
        Layer::Number(number) => Json::Number(number),
        Layer::Text(s) => Json::Text(s),
        Layer::List(items) => {
            let mut out: Vec<Json> = Vec::new();
            for item in it: items
                invariant
                    it.seq() == items@,
                    whole == value_model(value),
                    whole is List,
                    whole->List_0.len() == items@.len(),
                    forall|i: int| 0 <= i < items@.len() ==> whole->List_0[i] == value_model(#[trigger] items@[i]),
                    out@.len() == it.index(),
                    forall|i: int| 0 <= i < out@.len() ==> (#[trigger] out@[i])@ == whole->List_0[i],
            {
                assert(decreases_to!(whole => whole->List_0[it.index()]));
                out.push(convert(item));
            }
            let r = Json::List(out);
            assert(r@->List_0 =~= whole->List_0);
            r
        },
        Layer::Object(entries) => {
            let mut out: Vec<(String, Json)> = Vec::new();
            for entry in it: entries
                invariant
                    it.seq() == entries@,
                    whole == value_model(value),
                    whole is Object,
                    whole->Object_0.len() == entries@.len(),
                    forall|i: int| 0 <= i < entries@.len() ==> whole->Object_0[i] == ((#[trigger] entries@[i]).0@, value_model(entries@[i].1)),
                    out@.len() == it.index(),
                    forall|i: int| 0 <= i < out@.len() ==> ((#[trigger] out@[i]).0@, out@[i].1@) == whole->Object_0[i],
            {
                assert(decreases_to!(whole => whole->Object_0[it.index()].1));
                let (key, inner) = entry;
                out.push((key, convert(inner)));
            }
            let r = Json::Object(out);
            assert(r@->Object_0 =~= whole->Object_0);
            r
        },
    }
}

/// Decodes the text of a JSON document.
pub fn decode_json(json: &str) -> (r: Result<Json, RdtError>)
    ensures
        error::outcome(r) == document(decoded(json@)),
{
    match parse_value(json) {
        Ok(value) => Ok(convert(value)),
        Err(e) => Err(e),
    }
}

} // verus!
