//! Reading and writing JSON documents with `serde_json`.
use vstd::prelude::*;
use vstd::utf8::*;

use crate::json::{Json, JsonView};

verus! {

/// A parsed JSON value.
#[verifier::external_type_specification]
#[verifier::external_body]
pub struct ExValue(serde_json::Value);

/// The member table of a parsed JSON object.
#[verifier::external_type_specification]
#[verifier::external_body]
#[verifier::reject_recursive_types(K)]
#[verifier::reject_recursive_types(V)]
pub struct ExObject<K, V>(serde_json::Map<K, V>);

/// What a `serde_json` value holds.
pub uninterp spec fn held(value: serde_json::Value) -> JsonView;

/// The members of a `serde_json` object.
pub uninterp spec fn members(object: serde_json::Map<String, serde_json::Value>) -> Map<
    Seq<char>,
    JsonView,
>;

/// What a list of members holds: each key with the last value listed under it.
spec fn members_held(entries: Seq<(String, serde_json::Value)>) -> Map<Seq<char>, JsonView>
    decreases entries.len(),
{
    if entries.len() == 0 {
        Map::empty()
    } else {
        members_held(entries.drop_last()).insert(entries.last().0@, held(entries.last().1))
    }
}

/// No key is listed twice.
spec fn distinct_keys(entries: Seq<(String, serde_json::Value)>) -> bool {
    forall|i: int, j: int|
        0 <= i < j < entries.len() ==> (#[trigger] entries[i]).0@ != (#[trigger] entries[j]).0@
}

/// The outermost layer of a `serde_json` value.
enum Layer {
    Null,
    Bool(bool),
    Number(serde_json::Number),
    String(String),
    Array(Vec<serde_json::Value>),
    Object(serde_json::Map<String, serde_json::Value>),
}

impl Layer {
    spec fn holds(self) -> JsonView {
        match self {
            Layer::Null => JsonView::Null,
            Layer::Bool(b) => JsonView::Bool(b),
            Layer::Number(n) => JsonView::Number(n),
            Layer::String(s) => JsonView::Text(s@),
            Layer::Array(items) => JsonView::Array(items@.map_values(|v| held(v))),
            Layer::Object(object) => JsonView::Object(members(object)),
        }
    }
}

/// Takes a `serde_json::Value` apart: the layer is the variant of the value
/// with its field.
#[verifier::external_body]
fn peel(value: serde_json::Value) -> (layer: Layer)
    ensures
        layer.holds() == held(value),
{
    match value {
        serde_json::Value::Null => Layer::Null,
        serde_json::Value::Bool(b) => Layer::Bool(b),
        serde_json::Value::Number(n) => Layer::Number(n),
        serde_json::Value::String(s) => Layer::String(s),
        serde_json::Value::Array(items) => Layer::Array(items),
        serde_json::Value::Object(object) => Layer::Object(object),
    }
}

/// Puts a `serde_json::Value` together: the value is the variant that the
/// layer names, with the layer's field.
#[verifier::external_body]
fn wrap(layer: Layer) -> (value: serde_json::Value)
    ensures
        held(value) == layer.holds(),
{
    match layer {
        Layer::Null => serde_json::Value::Null,
        Layer::Bool(b) => serde_json::Value::Bool(b),
        Layer::Number(n) => serde_json::Value::Number(n),
        Layer::String(s) => serde_json::Value::String(s),
        Layer::Array(items) => serde_json::Value::Array(items),
        Layer::Object(object) => serde_json::Value::Object(object),
    }
}

/// Lists the members of a `serde_json::Map` through its `into_iter`: the list
/// holds what the map holds, each key once.
#[verifier::external_body]
fn object_entries(object: serde_json::Map<String, serde_json::Value>) -> (entries: Vec<
    (String, serde_json::Value),
>)
    ensures
        distinct_keys(entries@),
        members_held(entries@) == members(object),
{
    object.into_iter().collect()
}

/// `serde_json::Map::new`: a map without members.
#[verifier::external_body]
fn object_new() -> (object: serde_json::Map<String, serde_json::Value>)
    ensures
        (members(object) == Map::<Seq<char>, JsonView>::empty()),
{
    serde_json::Map::new()
}

/// `serde_json::Map::insert`: the key now has the given value, whether or not
/// it had one before, and the other members stay.
#[verifier::external_body]
fn object_insert(
    object: &mut serde_json::Map<String, serde_json::Value>,
    key: String,
    value: serde_json::Value,
)
    ensures
        members(*final(object)) == members(*old(object)).insert(key@, held(value)),
{
    object.insert(key, value);
}

proof fn lemma_members_held(entries: Seq<(String, serde_json::Value)>, i: int)
    requires
        distinct_keys(entries),
        0 <= i < entries.len(),
    ensures
        members_held(entries).dom().finite(),
        members_held(entries).dom().contains(entries[i].0@),
        members_held(entries)[entries[i].0@] == held(entries[i].1),
    decreases entries.len(),
{
    let rest = entries.drop_last();
    lemma_members_held_finite(rest);
    if i < rest.len() {
        assert(rest[i] == entries[i]);
        lemma_members_held(rest, i);
        assert(entries[i].0@ != entries.last().0@);
    }
}

proof fn lemma_members_held_finite(entries: Seq<(String, serde_json::Value)>)
    ensures
        members_held(entries).dom().finite(),
    decreases entries.len(),
{
    if entries.len() > 0 {
        lemma_members_held_finite(entries.drop_last());
    }
}

impl Json {
    /// The document that a `serde_json` value holds.
    pub fn from_value(value: serde_json::Value) -> (json: Json)
        ensures
            json@ == held(value),
        decreases held(value),
    {
        match peel(value) {
            Layer::Null => Json::Null,
            Layer::Bool(b) => Json::Bool(b),
            Layer::Number(n) => Json::Number(n),
            Layer::String(s) => Json::String(s),
            Layer::Array(values) => {
                let ghost all = values@;
                let ghost inside = all.map_values(|v| held(v));
                let mut items: Vec<Json> = Vec::new();
                for inner in it: values
                    invariant
                        it.seq() == all,
                        inside == all.map_values(|v| held(v)),
                        held(value) == JsonView::Array(inside),
                        items@.len() == it.index(),
                        crate::json::items_model(items@) == inside.take(it.index() as int),
                {
                    proof {
                        assert(held(inner) == inside[it.index() as int]);
                        assert(decreases_to!(held(value) => held(value)->Array_0));
                        assert(decreases_to!(inside => inside[it.index() as int]));
                    }
                    items.push(Json::from_value(inner));
                    assert(crate::json::items_model(items@) =~= inside.take(it.index() + 1));
                }
                assert(inside.take(inside.len() as int) =~= inside);
                Json::Array(items)
            },
            Layer::Object(object) => {
                let values = object_entries(object);
                let ghost all = values@;
                let mut entries: Vec<(String, Json)> = Vec::new();
                for inner in it: values
                    invariant
                        it.seq() == all,
                        distinct_keys(all),
                        held(value) == JsonView::Object(members_held(all)),
                        entries@.len() == it.index(),
                        crate::json::entries_model(entries@) == members_held(
                            all.take(it.index() as int),
                        ),
                {
                    let (key, inner_value) = inner;
                    proof {
                        lemma_members_held(all, it.index() as int);
                        assert(decreases_to!(held(value) => held(value)->Object_0));
                        assert(decreases_to!(members_held(all) => members_held(all)[key@]));
                    }
                    let ghost before = entries@;
                    entries.push((key, Json::from_value(inner_value)));
                    assert(entries@.drop_last() =~= before);
                    assert(all.take(it.index() + 1).drop_last() =~= all.take(it.index() as int));
                }
                assert(all.take(all.len() as int) =~= all);
                Json::Object(entries)
            },
        }
    }

    /// The `serde_json` value that holds this document.
    pub fn into_value(self) -> (value: serde_json::Value)
        ensures
            held(value) == self@,
        decreases self,
    {
        match self {
            Json::Null => wrap(Layer::Null),
            Json::Bool(b) => wrap(Layer::Bool(b)),
            Json::Number(n) => wrap(Layer::Number(n)),
            Json::String(s) => wrap(Layer::String(s)),
            Json::Array(items) => {
                let ghost all = items@;
                let mut values: Vec<serde_json::Value> = Vec::new();
                for inner in it: items
                    invariant
                        it.seq() == all,
                        self == Json::Array(items),
                        all == items@,
                        values@.len() == it.index(),
                        forall|i: int|
                            0 <= i < values@.len() ==> held(#[trigger] values@[i]) == all[i]@,
                {
                    proof {
                        assert(decreases_to!(self => self->Array_0));
                        assert(decreases_to!(items => items@[it.index() as int]));
                    }
                    values.push(inner.into_value());
                }
                assert(values@.map_values(|v| held(v)) =~= crate::json::items_model(all));
                wrap(Layer::Array(values))
            },
            Json::Object(entries) => {
                let ghost all = entries@;
                let mut object = object_new();
                assert(all.take(0) =~= Seq::empty());
                for inner in it: entries
                    invariant
                        it.seq() == all,
                        self == Json::Object(entries),
                        all == entries@,
                        members(object) == crate::json::entries_model(all.take(it.index() as int)),
                {
                    let (key, item) = inner;
                    proof {
                        assert(decreases_to!(self => self->Object_0));
                        assert(decreases_to!(entries => entries@[it.index() as int]));
                        assert(decreases_to!(inner => inner.1));
                    }
                    object_insert(&mut object, key, item.into_value());
                    assert(all.take(it.index() + 1).drop_last() =~= all.take(it.index() as int));
                }
                assert(all.take(all.len() as int) =~= all);
                wrap(Layer::Object(object))
            },
        }
    }
}

/// How many arrays and objects may stand in each other in a text that is read.
pub open spec fn depth_limit() -> nat {
    127
}

/// The key by which `serde_json` marks embedded JSON text: an object that
/// starts with it is read as the document in the text under it.
pub open spec fn embedding_key() -> Seq<char> {
    "$serde_json::private::RawValue"@
}

/// A document that can be written and read again.
pub open spec fn readable(document: JsonView) -> bool {
    document.within(depth_limit(), embedding_key())
}

/// What reading a text gives: the document, or the words of the error.
pub uninterp spec fn parsed(raw: Seq<u8>) -> Result<JsonView, Seq<char>>;

/// The text that `serde_json::to_string` writes for a document.
pub uninterp spec fn rendered(document: JsonView) -> Seq<char>;

/// The text that a `serde_json` value displays as.
pub uninterp spec fn displayed(document: JsonView) -> Seq<char>;

/// The text reads as the document, up to the digits of its floating-point
/// numbers, also with spaces after it.
pub open spec fn reads_back(text: Seq<char>, document: JsonView) -> bool {
    forall|n: nat|
        (#[trigger] parsed(encode_utf8(text) + crate::framing::spaces(n))) matches Ok(read)
            && document.agrees(read)
}

/// The body can be read, and says what the document says, up to the digits of
/// its floating-point numbers.
pub open spec fn carries(body: Option<Seq<u8>>, document: JsonView) -> bool {
    &&& body matches Some(raw)
    &&& parsed(raw) matches Ok(read)
    &&& document.agrees(read)
}

/// `serde_json::from_slice` into a `serde_json::Value`: what it returns for the
/// bytes has a name, with the error as it displays.
#[verifier::external_body]
fn value_from_slice(raw: &[u8]) -> (outcome: Result<serde_json::Value, String>)
    ensures
        match outcome {
            Ok(value) => parsed(raw@) == Ok::<JsonView, Seq<char>>(held(value)),
            Err(detail) => parsed(raw@) == Err::<JsonView, Seq<char>>(detail@),
        },
{
    serde_json::from_slice(raw).map_err(|e| e.to_string())
}

/// `serde_json::to_string` of a `serde_json::Value`: it succeeds, since every
/// key is a string and writing to memory does not fail, and the text that it
/// returns has a name. The text reads back, also with spaces after it: integers
/// as the integers that they are, floating-point numbers, which are written with
/// a point or an exponent, as floating-point numbers. That the latter come back
/// with the same digits is not claimed: the last one may differ.
#[verifier::external_body]
fn value_to_string(value: &serde_json::Value) -> (outcome: Result<String, String>)
    ensures
        outcome is Ok,
        outcome->Ok_0@ == rendered(held(*value)),
        readable(held(*value)) ==> reads_back(outcome->Ok_0@, held(*value)),
{
    serde_json::to_string(value).map_err(|e| e.to_string())
}

/// `to_string` of a `serde_json::Value`, by its `Display`: the text has a name
/// and reads back as the text of `serde_json::to_string` does.
#[verifier::external_body]
fn value_display(value: &serde_json::Value) -> (text: String)
    ensures
        text@ == displayed(held(*value)),
        readable(held(*value)) ==> reads_back(text@, held(*value)),
{
    value.to_string()
}

impl Json {
    /// Whether the document can be written and read again.
    pub fn is_readable(&self) -> (readable: bool)
        ensures
            readable == crate::wire::readable(self@),
    {
        self.is_within(127, "$serde_json::private::RawValue")
    }

    /// Reads a document; an error is given in the words of the reader.
    pub fn parse(raw: &[u8]) -> (outcome: Result<Json, String>)
        ensures
            match outcome {
                Ok(json) => parsed(raw@) == Ok::<JsonView, Seq<char>>(json@),
                Err(detail) => parsed(raw@) == Err::<JsonView, Seq<char>>(detail@),
            },
    {
        match value_from_slice(raw) {
            Ok(value) => Ok(Json::from_value(value)),
            Err(detail) => Err(detail),
        }
    }

    /// Writes the document compactly. This always succeeds.
    pub fn render(self) -> (outcome: Result<String, String>)
        ensures
            outcome is Ok,
            outcome->Ok_0@ == rendered(self@),
            readable(self@) ==> reads_back(outcome->Ok_0@, self@),
    {
        let value = self.into_value();
        value_to_string(&value)
    }

    /// The document as it is displayed.
    pub fn display(self) -> (text: String)
        ensures
            text@ == displayed(self@),
            readable(self@) ==> reads_back(text@, self@),
    {
        let value = self.into_value();
        value_display(&value)
    }
}

/// A body carries a document exactly if it is there, can be read, and what is
/// read agrees with the document. A document can be written and read again if
/// it is nested at most 127 deep and nothing in it has the key by which embedded
/// text is marked.
pub proof fn law_carried_documents_are_read(body: Option<Seq<u8>>, document: JsonView)
    ensures
        body is None ==> !carries(body, document),
        body matches Some(raw) ==> match parsed(raw) {
            Ok(read) => carries(body, document) <==> document.agrees(read),
            Err(_) => !carries(body, document),
        },
        readable(document) <==> document.within(127, "$serde_json::private::RawValue"@),
{
}

} // verus!
