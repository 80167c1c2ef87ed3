//! JSON values as the library reads them.

use crate::text::same;
use vstd::prelude::*;

verus! {

/// A JSON value. Of a number it is kept whether it is a 64-bit integer, and which.
#[derive(Debug)]
pub enum Json {
    Null,
    Bool(bool),
    Number(Option<i64>),
    Text(String),
    List(Vec<Json>),
    Object(Vec<(String, Json)>),
}

/// The mathematical value of a `Json`.
pub enum JsonModel {
    Null,
    Bool(bool),
    Number(Option<i64>),
    Text(Seq<char>),
    List(Seq<JsonModel>),
    Object(Seq<(Seq<char>, JsonModel)>),
}

impl Json {
    /// The value, with its texts, elements and fields taken by their views.
    pub open spec fn model(self) -> JsonModel
        decreases self,
    {
        match self {
            Json::Null => JsonModel::Null,
            Json::Bool(b) => JsonModel::Bool(b),
            Json::Number(n) => JsonModel::Number(n),
            Json::Text(s) => JsonModel::Text(s@),
            Json::List(v) => JsonModel::List(
                Seq::new(
                    v@.len(),
                    |i: int|
                        if 0 <= i < v@.len() {
                            v@[i].model()
                        } else {
                            JsonModel::Null
                        },
                ),
            ),
            Json::Object(v) => JsonModel::Object(
                Seq::new(
                    v@.len(),
                    |i: int|
                        if 0 <= i < v@.len() {
                            (v@[i].0@, v@[i].1.model())
                        } else {
                            (Seq::empty(), JsonModel::Null)
                        },
                ),
            ),
        }
    }
}

impl View for Json {
    type V = JsonModel;

    open spec fn view(&self) -> JsonModel {
        self.model()
    }
}

/// The values of a list of JSON values.
pub open spec fn json_views(v: Seq<Json>) -> Seq<JsonModel> {
    Seq::new(v.len(), |i: int| v[i]@)
}

impl JsonModel {
    pub open spec fn is_nested(self) -> bool {
        self is List || self is Object
    }

    /// The first field of that name, where the value is an object that has one.
    pub open spec fn field(self, name: Seq<char>) -> Option<JsonModel> {
        match self {
            JsonModel::Object(fields) => field_of(fields, name),
            _ => None,
        }
    }

    /// The text, where the value is one.
    pub open spec fn text(self) -> Option<Seq<char>> {
        match self {
            JsonModel::Text(s) => Some(s),
            _ => None,
        }
    }

    /// The elements, where the value is a list.
    pub open spec fn list(self) -> Option<Seq<JsonModel>> {
        match self {
            JsonModel::List(v) => Some(v),
            _ => None,
        }
    }
}

pub open spec fn field_of(fields: Seq<(Seq<char>, JsonModel)>, name: Seq<char>) -> Option<JsonModel>
    decreases fields.len(),
{
    if fields.len() == 0 {
        None
    } else if fields[0].0 == name {
        Some(fields[0].1)
    } else {
        field_of(fields.drop_first(), name)
    }
}

/// What `serde_json::from_slice` makes of a text: a value, or the error's message.
pub uninterp spec fn json_parsed(bytes: Seq<u8>) -> Result<JsonModel, Seq<char>>;

/// `serde_json::Value`, as the crate hands it out.
#[verifier::external_type_specification]
#[verifier::external_body]
pub struct ExValue(serde_json::Value);

/// The value of a `serde_json::Value`.
pub uninterp spec fn value_model(v: serde_json::Value) -> JsonModel;

/// Takes a `serde_json::Value` apart, variant by variant: of a number it keeps
/// what `Number::as_i64` gives.
#[verifier::external_body]
pub(crate) fn json_of(v: &serde_json::Value) -> (r: Json)
    ensures
        r@ == value_model(*v),
{
    match v {
        serde_json::Value::Null => Json::Null,
        serde_json::Value::Bool(b) => Json::Bool(*b),
        serde_json::Value::Number(n) => Json::Number(n.as_i64()),
        serde_json::Value::String(s) => Json::Text(s.clone()),
        serde_json::Value::Array(a) => Json::List(a.iter().map(json_of).collect()),
        serde_json::Value::Object(o) => {
            Json::Object(o.iter().map(|(k, x)| (k.clone(), json_of(x))).collect())
        }
    }
}

/// `serde_json::from_slice`: the value that the bytes write, or the message of the
/// error.
#[verifier::external_body]
pub(crate) fn value_of_bytes(bytes: &[u8]) -> (r: Result<serde_json::Value, String>)
    ensures
        match r {
            Ok(v) => json_parsed(bytes@) == Ok::<JsonModel, Seq<char>>(value_model(v)),
            Err(e) => json_parsed(bytes@) == Err::<JsonModel, Seq<char>>(e@),
        },
{
    serde_json::from_slice::<serde_json::Value>(bytes).map_err(|e| e.to_string())
}

/// The text that bytes begin with, behind blanks, and how many bytes were read, as
/// `serde_json` reads it; nothing where they begin with no text.
pub uninterp spec fn json_text(bytes: Seq<u8>) -> Option<(Seq<char>, nat)>;

/// `serde_json::StreamDeserializer::next` for a `String`, with its `byte_offset`: the text
/// that the bytes begin with, and where it ends, which is behind the first byte and not
/// behind the last.
#[verifier::external_body]
pub(crate) fn text_at(bytes: &[u8]) -> (r: Option<(String, usize)>)
    ensures
        json_text(bytes@) == match r {
            Some((s, n)) => Some((s@, n as nat)),
            None => None,
        },
        r is Some ==> 0 < (r->0).1 <= bytes@.len(),
{
    let mut stream = serde_json::Deserializer::from_slice(bytes).into_iter::<String>();
    match stream.next() {
        Some(Ok(s)) => Some((s, stream.byte_offset())),
        _ => None,
    }
}

/// How many bytes the value takes that bytes begin with, and the blanks before it, as
/// `serde_json` passes over it; nothing where they begin with no value.
pub uninterp spec fn json_skipped(bytes: Seq<u8>) -> Option<nat>;

/// `serde_json::StreamDeserializer::next` for a value that is ignored, with its
/// `byte_offset`: where the value ends that the bytes begin with, which is behind the first
/// byte and not behind the last.
#[verifier::external_body]
pub(crate) fn skipped_at(bytes: &[u8]) -> (r: Option<usize>)
    ensures
        json_skipped(bytes@) == match r {
            Some(n) => Some(n as nat),
            None => None,
        },
        r is Some ==> 0 < r->0 <= bytes@.len(),
{
    let mut stream = serde_json::Deserializer::from_slice(bytes).into_iter::<serde::de::IgnoredAny>();
    match stream.next() {
        Some(Ok(_)) => Some(stream.byte_offset()),
        _ => None,
    }
}

/// The value that the bytes write, or the message of the error.
pub fn parse_bytes(bytes: &[u8]) -> (r: Result<Json, String>)
    ensures
        match r {
            Ok(v) => json_parsed(bytes@) == Ok::<JsonModel, Seq<char>>(v@),
            Err(e) => json_parsed(bytes@) == Err::<JsonModel, Seq<char>>(e@),
        },
{
    match value_of_bytes(bytes) {
        Ok(v) => Ok(json_of(&v)),
        Err(e) => Err(e),
    }
}

impl Json {
    /// The field of that name, where the value is an object that has one.
    pub fn get(&self, name: &str) -> (r: Option<&Json>)
        ensures
            match r {
                Some(v) => self@.field(name@) == Some(v@),
                None => self@.field(name@) is None,
            },
    {
        match self {
            Json::Object(fields) => {
                let ghost model = self@->Object_0;
                let mut i: usize = 0;
                proof {
                    assert(model.skip(0) =~= model);
                }
                while i < fields.len()
                    invariant
                        i <= fields.len(),
                        self@ == JsonModel::Object(model),
                        model.len() == fields@.len(),
                        forall|j: int|
                            0 <= j < fields@.len() ==> #[trigger] model[j] == (
                                fields@[j].0@,
                                fields@[j].1@,
                            ),
                        field_of(model, name@) == field_of(model.skip(i as int), name@),
                    decreases fields.len() - i,
                {
                    let ghost rest = model.skip(i as int);
                    proof {
                        assert(rest[0] == model[i as int]);
                        assert(rest.drop_first() =~= model.skip(i + 1));
                    }
                    if same(fields[i].0.as_str(), name) {
                        return Some(&fields[i].1);
                    }
                    i += 1;
                }
                None
            },
            _ => None,
        }
    }

    pub fn as_text(&self) -> (r: Option<&str>)
        ensures
            match r {
                Some(s) => self@.text() == Some(s@),
                None => self@.text() is None,
            },
    {
        match self {
            Json::Text(s) => Some(s.as_str()),
            _ => None,
        }
    }

    pub fn as_list(&self) -> (r: Option<&Vec<Json>>)
        ensures
            match r {
                Some(v) => self@.list() == Some(json_views(v@)),
                None => self@.list() is None,
            },
    {
        match self {
            Json::List(v) => {
                proof {
                    assert(self@->List_0 =~= json_views(v@));
                }
                Some(v)
            },
            _ => None,
        }
    }

    pub fn is_nested(&self) -> (r: bool)
        ensures
            r == self@.is_nested(),
    {
        matches!(self, Json::List(_) | Json::Object(_))
    }
}

/// The text of a field.
pub open spec fn text_field(v: JsonModel, name: Seq<char>) -> Option<Seq<char>> {
    match v.field(name) {
        Some(f) => f.text(),
        None => None,
    }
}

pub fn get_text<'a>(v: &'a Json, name: &str) -> (r: Option<&'a str>)
    ensures
        match r {
            Some(s) => text_field(v@, name@) == Some(s@),
            None => text_field(v@, name@) is None,
        },
{
    match v.get(name) {
        Some(f) => f.as_text(),
        None => None,
    }
}

} // verus!
