//! JSON documents as plain values.
use vstd::prelude::*;

use crate::text::{str_eq, views};

verus! {

/// A JSON document. A number is kept as the text that serde_json prints for
/// it.
pub enum Json {
    Null,
    Bool(bool),
    Number(String),
    Text(String),
    Array(Vec<Json>),
    Object(Vec<(String, Json)>),
}

/// A JSON document as a mathematical value.
pub enum JsonModel {
    Null,
    Bool(bool),
    Number(Seq<char>),
    Text(Seq<char>),
    Array(Seq<JsonModel>),
    Object(Seq<(Seq<char>, JsonModel)>),
}

impl View for Json {
    type V = JsonModel;

    open spec fn view(&self) -> JsonModel {
        self.model()
    }
}

impl Json {
    /// The document as a mathematical value.
    pub open spec fn model(self) -> JsonModel
        decreases self,
    {
        match self {
            Json::Null => JsonModel::Null,
            Json::Bool(b) => JsonModel::Bool(b),
            Json::Number(n) => JsonModel::Number(n@),
            Json::Text(t) => JsonModel::Text(t@),
            Json::Array(items) => JsonModel::Array(
                Seq::new(
                    items@.len(),
                    |i: int|
                        if 0 <= i < items@.len() {
                            items@[i].model()
                        } else {
                            JsonModel::Null
                        },
                ),
            ),
            Json::Object(fields) => JsonModel::Object(
                Seq::new(
                    fields@.len(),
                    |i: int|
                        if 0 <= i < fields@.len() {
                            (fields@[i].0@, fields@[i].1.model())
                        } else {
                            (Seq::empty(), JsonModel::Null)
                        },
                ),
            ),
        }
    }
}

#[verifier::external_type_specification]
#[verifier::external_body]
pub struct ExValue(serde_json::Value);

/// The document that a value of serde_json holds.
pub uninterp spec fn value_model(value: serde_json::Value) -> JsonModel;

/// The document that serde_json reads from a text, if the text is JSON.
pub uninterp spec fn json_document(text: Seq<char>) -> Option<JsonModel>;

/// What serde_json says of a text that is not JSON.
pub uninterp spec fn json_complaint(text: Seq<char>) -> Seq<char>;

/// `serde_json::from_str`, into a generic value: whether the text is JSON, the
/// document that it holds, and what is wrong with it otherwise, depend on the
/// text alone.
#[verifier::external_body]
fn serde_parse(text: &str) -> (parsed: Result<serde_json::Value, String>)
    ensures
        match parsed {
            Ok(value) => json_document(text@) == Some(value_model(value)),
            Err(complaint) => json_document(text@) is None && complaint@ == json_complaint(text@),
        },
{
    serde_json::from_str(text).map_err(|error| error.to_string())
}

/// A value of serde_json as a plain value: the same document, part by part.
#[verifier::external_body]
fn json_from(value: serde_json::Value) -> (json: Json)
    ensures
        json@ == value_model(value),
{
    match value {
        serde_json::Value::Null => Json::Null,
        serde_json::Value::Bool(b) => Json::Bool(b),
        serde_json::Value::Number(n) => Json::Number(n.to_string()),
        serde_json::Value::String(t) => Json::Text(t),
        serde_json::Value::Array(items) => Json::Array(items.into_iter().map(json_from).collect()),
        serde_json::Value::Object(fields) => Json::Object(
            fields.into_iter().map(|(key, value)| (key, json_from(value))).collect(),
        ),
    }
}

/// The strings that serde_json reads from a text, if it is a JSON array of
/// strings.
pub uninterp spec fn json_strings(text: Seq<char>) -> Option<Seq<Seq<char>>>;

/// The text that serde_json writes for an array of strings, over several
/// lines.
pub uninterp spec fn json_pretty(items: Seq<Seq<char>>) -> Seq<char>;

/// The views of strings that may be absent.
pub open spec fn opt_views(list: Option<Vec<String>>) -> Option<Seq<Seq<char>>> {
    match list {
        Some(items) => Some(views(items@)),
        None => None,
    }
}

/// `serde_json::from_str`, into strings: what it reads depends on the text
/// alone. It reads nothing if the text is not a JSON array of strings.
#[verifier::external_body]
pub(crate) fn parse_strings(text: &str) -> (items: Option<Vec<String>>)
    ensures
        opt_views(items) == json_strings(text@),
{
    serde_json::from_str(text).ok()
}

/// `serde_json::to_string_pretty`, of strings: the text depends on the strings
/// alone, and reads back as the same strings. Writing strings never fails.
#[verifier::external_body]
pub(crate) fn write_strings(items: &Vec<String>) -> (text: String)
    ensures
        text@ == json_pretty(views(items@)),
        json_strings(text@) == Some(views(items@)),
{
    serde_json::to_string_pretty(items).unwrap()
}

/// The JSON document that a text holds, or what is wrong with it.
pub fn parse(text: &str) -> (parsed: Result<Json, String>)
    ensures
        match parsed {
            Ok(json) => json_document(text@) == Some(json@),
            Err(e) => json_document(text@) is None && e@ == json_complaint(text@),
        },
{
    match serde_parse(text) {
        Ok(value) => Ok(json_from(value)),
        Err(complaint) => Err(complaint),
    }
}

/// The position of the first field with the given name, or the number of
/// fields if there is none.
pub open spec fn field_index(fields: Seq<(Seq<char>, JsonModel)>, name: Seq<char>) -> int
    decreases fields.len(),
{
    if fields.len() == 0 || fields[0].0 == name {
        0
    } else {
        1 + field_index(fields.skip(1), name)
    }
}

impl JsonModel {
    /// The field of an object; nothing for other documents.
    pub open spec fn field(self, name: Seq<char>) -> Option<JsonModel> {
        match self {
            JsonModel::Object(fields) => {
                let i = field_index(fields, name);
                if i < fields.len() {
                    Some(fields[i].1)
                } else {
                    None
                }
            },
            _ => None,
        }
    }

    /// The first item of an array; nothing for other documents.
    pub open spec fn first(self) -> Option<JsonModel> {
        match self {
            JsonModel::Array(items) => if items.len() > 0 {
                Some(items[0])
            } else {
                None
            },
            _ => None,
        }
    }

    /// What a string holds; nothing for other documents.
    pub open spec fn text(self) -> Option<Seq<char>> {
        match self {
            JsonModel::Text(t) => Some(t),
            _ => None,
        }
    }
}

proof fn lemma_field_index(fields: Seq<(Seq<char>, JsonModel)>, name: Seq<char>, i: int)
    requires
        0 <= i <= fields.len(),
        i < fields.len() ==> fields[i].0 == name,
        forall|j: int| 0 <= j < i ==> (#[trigger] fields[j]).0 != name,
    ensures
        field_index(fields, name) == i,
    decreases fields.len(),
{
    if i > 0 {
        assert(fields[0].0 != name);
        let rest = fields.skip(1);
        assert forall|j: int| 0 <= j < i - 1 implies (#[trigger] rest[j]).0 != name by {
            assert(rest[j] == fields[j + 1]);
        }
        lemma_field_index(rest, name, i - 1);
    }
}

impl Json {
    /// The field of an object.
    pub fn get(&self, name: &str) -> (value: Option<&Json>)
        ensures
            match value {
                Some(v) => self@.field(name@) == Some(v@),
                None => self@.field(name@) is None,
            },
    {
        match self {
            Json::Object(fields) => {
                let ghost model = self@->Object_0;
                assert(self@->Object_0.len() == fields@.len());
                assert forall|j: int| 0 <= j < fields@.len() implies #[trigger] model[j] == (
                    fields@[j].0@,
                    fields@[j].1@,
                ) by {}
                let mut i: usize = 0;
                while i < fields.len()
                    invariant
                        i <= fields.len(),
                        model.len() == fields.len(),
                        self@ == JsonModel::Object(model),
                        forall|j: int|
                            0 <= j < fields.len() ==> #[trigger] model[j] == (
                                fields@[j].0@,
                                fields@[j].1@,
                            ),
                        forall|j: int| 0 <= j < i ==> (#[trigger] model[j]).0 != name@,
                    decreases fields.len() - i,
                {
                    assert(model[i as int].0 == fields@[i as int].0@);
                    if str_eq(fields[i].0.as_str(), name) {
                        proof {
                            lemma_field_index(model, name@, i as int);
                        }
                        return Some(&fields[i].1);
                    }
                    i += 1;
                }
                proof {
                    lemma_field_index(model, name@, i as int);
                }
                None
            },
            _ => None,
        }
    }

    /// The first item of an array.
    pub fn first(&self) -> (value: Option<&Json>)
        ensures
            match value {
                Some(v) => self@.first() == Some(v@),
                None => self@.first() is None,
            },
    {
        match self {
            Json::Array(items) => {
                assert(self@->Array_0.len() == items@.len());
                if items.len() > 0 {
                    assert(self@->Array_0[0] == items@[0]@);
                    Some(&items[0])
                } else {
                    None
                }
            },
            _ => None,
        }
    }

    /// What a string holds.
    pub fn as_text(&self) -> (value: Option<&String>)
        ensures
            match value {
                Some(v) => self@.text() == Some(v@),
                None => self@.text() is None,
            },
    {
        match self {
            Json::Text(t) => Some(t),
            _ => None,
        }
    }
}

/// The document is an object with a field of the name that holds the value. Of
/// several fields of one name the first one counts.
pub open spec fn has_field(document: JsonModel, name: Seq<char>, value: JsonModel) -> bool {
    document matches JsonModel::Object(fields) && exists|i: int|
        0 <= i < fields.len() && #[trigger] fields[i] == (name, value) && forall|j: int|
            0 <= j < i ==> (#[trigger] fields[j]).0 != name
}

/// What a field of a document is found to hold is what the field holds, and
/// nothing is found exactly if there is no such field.
pub proof fn law_field_holds_its_value(document: Json, name: &str, value: Option<&Json>)
    requires
        call_ensures(Json::get, (&document, name), value),
    ensures
        value matches Some(v) ==> has_field(document@, name@, v@),
        value is None ==> forall|v: JsonModel| !has_field(document@, name@, v),
        forall|v: JsonModel| has_field(document@, name@, v) ==> value is Some && value->0@ == v,
{
    assert forall|v: JsonModel| has_field(document@, name@, v) implies value is Some && value->0@
        == v by {
        lemma_has_field(document@, name@, v);
    }
    if let Some(v) = value {
        lemma_field_is_there(document@, name@);
    }
}

/// A document has a field with a value exactly if that is what is found there.
pub proof fn lemma_has_field(document: JsonModel, name: Seq<char>, value: JsonModel)
    ensures
        has_field(document, name, value) <==> document.field(name) == Some(value),
{
    if has_field(document, name, value) {
        let fields = document->Object_0;
        let i = choose|i: int|
            0 <= i < fields.len() && #[trigger] fields[i] == (name, value) && forall|j: int|
                0 <= j < i ==> (#[trigger] fields[j]).0 != name;
        lemma_field_index(fields, name, i);
    }
    if document.field(name) == Some(value) {
        lemma_field_is_there(document, name);
    }
}

proof fn lemma_field_is_there(document: JsonModel, name: Seq<char>)
    ensures
        document.field(name) matches Some(value) ==> has_field(document, name, value),
{
    if let JsonModel::Object(fields) = document {
        lemma_first_field(fields, name);
        let i = field_index(fields, name);
        if i < fields.len() {
            assert(fields[i] == (name, fields[i].1));
        }
    }
}

proof fn lemma_first_field(fields: Seq<(Seq<char>, JsonModel)>, name: Seq<char>)
    ensures
        0 <= field_index(fields, name) <= fields.len(),
        field_index(fields, name) < fields.len() ==> fields[field_index(fields, name)].0 == name,
        forall|j: int| 0 <= j < field_index(fields, name) ==> (#[trigger] fields[j]).0 != name,
    decreases fields.len(),
{
    if fields.len() > 0 && fields[0].0 != name {
        let rest = fields.skip(1);
        lemma_first_field(rest, name);
        assert forall|j: int| 0 <= j < field_index(fields, name) implies (#[trigger] fields[j]).0
            != name by {
            if j > 0 {
                assert(rest[j - 1] == fields[j]);
            }
        }
    }
}

} // verus!
