//! JSON values, as the rules read and write them.

use vstd::prelude::*;

use crate::text::{
    all_digits, chars_of, decimal, decimals_read_back, digits_in, digits_number, same, Duplicate,
};

verus! {

/// A JSON value. A number is kept as it is written; an object keeps its fields
/// in order, and the first field of a name is the one that counts.
#[derive(Debug, PartialEq)]
pub enum Json {
    Null,
    Bool(bool),
    Number(String),
    Text(String),
    Array(Vec<Json>),
    Object(Vec<(String, Json)>),
}

/// What a JSON value is.
pub enum JsonModel {
    Null,
    Bool(bool),
    Number(Seq<char>),
    Text(Seq<char>),
    Array(Seq<JsonModel>),
    Object(Seq<(Seq<char>, JsonModel)>),
}

impl Json {
    pub open spec fn items_model(items: Seq<Json>) -> Seq<JsonModel>
        decreases items,
    {
        Seq::new(
            items.len(),
            |i: int|
                if 0 <= i < items.len() {
                    items[i].model()
                } else {
                    JsonModel::Null
                },
        )
    }

    pub open spec fn fields_model(fields: Seq<(String, Json)>) -> Seq<(Seq<char>, JsonModel)>
        decreases fields,
    {
        Seq::new(
            fields.len(),
            |i: int|
                if 0 <= i < fields.len() {
                    (fields[i].0@, fields[i].1.model())
                } else {
                    (Seq::empty(), JsonModel::Null)
                },
        )
    }

    pub open spec fn model(&self) -> JsonModel
        decreases self,
    {
        match self {
            Json::Null => JsonModel::Null,
            Json::Bool(b) => JsonModel::Bool(*b),
            Json::Number(n) => JsonModel::Number(n@),
            Json::Text(t) => JsonModel::Text(t@),
            Json::Array(items) => JsonModel::Array(Json::items_model(items@)),
            Json::Object(fields) => JsonModel::Object(Json::fields_model(fields@)),
        }
    }
}

impl View for Json {
    type V = JsonModel;

    open spec fn view(&self) -> JsonModel {
        self.model()
    }
}

proof fn items_push(items: Seq<Json>, item: Json)
    ensures
        Json::items_model(items.push(item)) == Json::items_model(items).push(item.model()),
{
    assert(Json::items_model(items.push(item)) =~= Json::items_model(items).push(item.model()));
}

proof fn fields_push(fields: Seq<(String, Json)>, field: (String, Json))
    ensures
        Json::fields_model(fields.push(field)) == Json::fields_model(fields).push(
            (field.0@, field.1.model()),
        ),
{
    assert(Json::fields_model(fields.push(field)) =~= Json::fields_model(fields).push(
        (field.0@, field.1.model()),
    ));
}

impl Json {
    fn copy(&self) -> (r: Json)
        ensures
            r.model() == self.model(),
        decreases self,
    {
        match self {
            Json::Null => Json::Null,
            Json::Bool(b) => Json::Bool(*b),
            Json::Number(n) => Json::Number(n.clone()),
            Json::Text(t) => Json::Text(t.clone()),
            Json::Array(items) => Json::Array(Json::copy_items(items)),
            Json::Object(fields) => Json::Object(Json::copy_fields(fields)),
        }
    }

    fn copy_items(items: &Vec<Json>) -> (r: Vec<Json>)
        ensures
            Json::items_model(r@) == Json::items_model(items@),
        decreases items@,
    {
        let mut out: Vec<Json> = Vec::new();
        let mut i: usize = 0;
        assert(Json::items_model(out@) =~= Json::items_model(items@).take(0));
        while i < items.len()
            invariant
                i <= items.len(),
                Json::items_model(out@) == Json::items_model(items@).take(i as int),
            decreases items.len() - i,
        {
            let item = items[i].copy();
            proof {
                items_push(out@, item);
                assert(Json::items_model(items@).take(i + 1) =~= Json::items_model(items@).take(
                    i as int,
                ).push(item.model()));
            }
            out.push(item);
            i += 1;
        }
        assert(Json::items_model(items@).take(i as int) =~= Json::items_model(items@));
        out
    }

    fn copy_fields(fields: &Vec<(String, Json)>) -> (r: Vec<(String, Json)>)
        ensures
            Json::fields_model(r@) == Json::fields_model(fields@),
        decreases fields@,
    {
        let mut out: Vec<(String, Json)> = Vec::new();
        let mut i: usize = 0;
        assert(Json::fields_model(out@) =~= Json::fields_model(fields@).take(0));
        while i < fields.len()
            invariant
                i <= fields.len(),
                Json::fields_model(out@) == Json::fields_model(fields@).take(i as int),
            decreases fields.len() - i,
        {
            let field = (fields[i].0.clone(), fields[i].1.copy());
            proof {
                fields_push(out@, field);
                assert(Json::fields_model(fields@).take(i + 1) =~= Json::fields_model(fields@).take(
                    i as int,
                ).push((field.0@, field.1.model())));
            }
            out.push(field);
            i += 1;
        }
        assert(Json::fields_model(fields@).take(i as int) =~= Json::fields_model(fields@));
        out
    }
}

impl Duplicate for Json {
    fn duplicate(&self) -> (r: Json) {
        self.copy()
    }
}

impl Clone for Json {
    fn clone(&self) -> (r: Json)
        ensures
            r@ == self@,
    {
        self.duplicate()
    }
}

/// The value of the first field named `key`.
pub open spec fn lookup(fields: Seq<(Seq<char>, JsonModel)>, key: Seq<char>) -> Option<JsonModel>
    decreases fields.len(),
{
    if fields.len() == 0 {
        None
    } else if fields[0].0 == key {
        Some(fields[0].1)
    } else {
        lookup(fields.drop_first(), key)
    }
}

impl JsonModel {
    /// The field named `key`, of an object that has one.
    pub open spec fn field(self, key: Seq<char>) -> Option<JsonModel> {
        match self {
            JsonModel::Object(fields) => lookup(fields, key),
            _ => None,
        }
    }

    pub open spec fn text(self) -> Option<Seq<char>> {
        match self {
            JsonModel::Text(t) => Some(t),
            _ => None,
        }
    }

    /// The text in the field named `key`.
    pub open spec fn text_field(self, key: Seq<char>) -> Option<Seq<char>> {
        match self.field(key) {
            Some(v) => v.text(),
            None => None,
        }
    }

    pub open spec fn truth(self) -> Option<bool> {
        match self {
            JsonModel::Bool(b) => Some(b),
            _ => None,
        }
    }

    /// A whole number that fits in 64 bits.
    pub open spec fn whole(self) -> Option<int> {
        match self {
            JsonModel::Number(n) => if n.len() > 0 && all_digits(n) && digits_number(n)
                <= u64::MAX {
                Some(digits_number(n))
            } else {
                None
            },
            _ => None,
        }
    }
}

impl Json {
    /// The field named `key`, of an object that has one.
    pub fn get(&self, key: &str) -> (r: Option<&Json>)
        ensures
            match r {
                Some(v) => self@.field(key@) == Some(v@),
                None => self@.field(key@) is None,
            },
    {
        match self {
            Json::Object(fields) => {
                let ghost all = Json::fields_model(fields@);
                let mut i: usize = 0;
                assert(all.skip(0) =~= all);
                while i < fields.len()
                    invariant
                        i <= fields.len(),
                        all == Json::fields_model(fields@),
                        *self == Json::Object(*fields),
                        lookup(all, key@) == lookup(all.skip(i as int), key@),
                    decreases fields.len() - i,
                {
                    proof {
                        assert(all.skip(i as int)[0] == all[i as int]);
                        assert(all.skip(i as int).drop_first() =~= all.skip(i + 1));
                    }
                    if same(fields[i].0.as_str(), key) {
                        return Some(&fields[i].1);
                    }
                    i += 1;
                }
                None
            },
            _ => None,
        }
    }

    pub fn as_text(&self) -> (r: Option<&String>)
        ensures
            match r {
                Some(t) => self@.text() == Some(t@),
                None => self@.text() is None,
            },
    {
        match self {
            Json::Text(t) => Some(t),
            _ => None,
        }
    }

    /// A copy of the text in the field named `key`.
    pub fn text_field(&self, key: &str) -> (r: Option<String>)
        ensures
            match r {
                Some(t) => self@.text_field(key@) == Some(t@),
                None => self@.text_field(key@) is None,
            },
    {
        match self.get(key) {
            Some(v) => match v.as_text() {
                Some(t) => Some(t.clone()),
                None => None,
            },
            None => None,
        }
    }

    pub fn as_bool(&self) -> (r: Option<bool>)
        ensures
            r == self@.truth(),
    {
        match self {
            Json::Bool(b) => Some(*b),
            _ => None,
        }
    }

    pub fn as_u64(&self) -> (r: Option<u64>)
        ensures
            match r {
                Some(n) => self@.whole() == Some(n as int),
                None => self@.whole() is None,
            },
    {
        match self {
            Json::Number(t) => {
                let v = chars_of(t.as_str());
                assert(v@.subrange(0, v@.len() as int) =~= v@);
                if v.len() == 0 {
                    None
                } else {
                    digits_in(&v, 0, v.len())
                }
            },
            _ => None,
        }
    }
}

/// `serde_json::Value`, which the two conversions below take apart and build.
#[verifier::external_type_specification]
#[verifier::external_body]
pub struct ExValue(serde_json::Value);

/// The JSON value that a text is, if it is one.
pub uninterp spec fn json_in(text: Seq<char>) -> Option<JsonModel>;

/// The compact text of a JSON value.
pub uninterp spec fn json_text(v: JsonModel) -> Seq<char>;

/// The indented text of a JSON value.
pub uninterp spec fn json_pretty(v: JsonModel) -> Seq<char>;

/// Turns a `serde_json::Value` into a `Json`, variant by variant. A number
/// becomes its text.
#[verifier::external_body]
fn from_value(v: serde_json::Value) -> Json {
    match v {
        serde_json::Value::Null => Json::Null,
        serde_json::Value::Bool(b) => Json::Bool(b),
        serde_json::Value::Number(n) => Json::Number(n.to_string()),
        serde_json::Value::String(s) => Json::Text(s),
        serde_json::Value::Array(a) => Json::Array(a.into_iter().map(from_value).collect()),
        serde_json::Value::Object(o) => Json::Object(
            o.into_iter().map(|f| (f.0, from_value(f.1))).collect(),
        ),
    }
}

/// Turns a `Json` into a `serde_json::Value`, variant by variant. A number's
/// text is read by `serde_json::from_str`: it becomes the value that it is, or
/// null where it is no JSON. Of fields with one name the map of `serde_json` keeps
/// the one that is put in last, so they go in from the last to the first.
#[verifier::external_body]
fn to_value(v: &Json) -> serde_json::Value {
    match v {
        Json::Null => serde_json::Value::Null,
        Json::Bool(b) => serde_json::Value::Bool(*b),
        Json::Number(n) => serde_json::from_str(n).unwrap_or(serde_json::Value::Null),
        Json::Text(t) => serde_json::Value::String(t.clone()),
        Json::Array(a) => serde_json::Value::Array(a.iter().map(to_value).collect()),
        Json::Object(o) => serde_json::Value::Object(
            o.iter().rev().map(|f| (f.0.clone(), to_value(&f.1))).collect(),
        ),
    }
}

/// `serde_json::from_str` into a `serde_json::Value`: the value that the text
/// is, or nothing where it is no JSON. Which texts those are is left to
/// `serde_json`, under the name `json_in`.
#[verifier::external_body]
pub(crate) fn json_parse(text: &str) -> (r: Option<Json>)
    ensures
        match r {
            Some(v) => json_in(text@) == Some(v@),
            None => json_in(text@) is None,
        },
{
    match serde_json::from_str::<serde_json::Value>(text) {
        Ok(v) => Some(from_value(v)),
        Err(_) => None,
    }
}

/// `serde_json::Value`'s `to_string`: the compact text, under the name
/// `json_text`.
#[verifier::external_body]
pub(crate) fn json_print(v: &Json) -> (r: String)
    ensures
        r@ == json_text(v@),
{
    to_value(v).to_string()
}

/// `serde_json::to_string_pretty`: the indented text, under the name
/// `json_pretty`. On a `serde_json::Value` it does not fail.
#[verifier::external_body]
pub(crate) fn json_print_pretty(v: &Json) -> (r: String)
    ensures
        r@ == json_pretty(v@),
{
    serde_json::to_string_pretty(&to_value(v)).unwrap_or_default()
}

/// The first field of a name is the one that counts, and a name that no field has is not
/// found.
pub proof fn first_fields_count(fields: Seq<(Seq<char>, JsonModel)>, key: Seq<char>, i: int)
    requires
        0 <= i <= fields.len(),
        forall|k: int| 0 <= k < i ==> (#[trigger] fields[k]).0 != key,
        i < fields.len() ==> fields[i].0 == key,
    ensures
        JsonModel::Object(fields).field(key) == if i < fields.len() {
            Some(fields[i].1)
        } else {
            None
        },
    decreases fields.len(),
{
    if i > 0 {
        let rest = fields.drop_first();
        assert(fields[0].0 != key);
        assert forall|k: int| 0 <= k < i - 1 implies (#[trigger] rest[k]).0 != key by {
            assert(rest[k] == fields[k + 1]);
        }
        first_fields_count(rest, key, i - 1);
    }
}

/// A value is read as what it is and as nothing else: a text as its characters, a truth
/// value as itself, and a whole number that was written in decimal as that number, as far
/// as there is room for it.
pub proof fn values_are_read(t: Seq<char>, b: bool, n: int)
    requires
        0 <= n,
    ensures
        JsonModel::Text(t).text() == Some(t),
        JsonModel::Text(t).truth() is None,
        JsonModel::Text(t).whole() is None,
        JsonModel::Bool(b).truth() == Some(b),
        JsonModel::Bool(b).text() is None,
        JsonModel::Number(decimal(n)).whole() == if n <= u64::MAX {
            Some(n)
        } else {
            None
        },
        JsonModel::Number(decimal(n)).text() is None,
        JsonModel::Number("-"@ + t).whole() is None,
        JsonModel::Null.text() is None,
        JsonModel::Null.truth() is None,
        JsonModel::Null.whole() is None,
{
    decimals_read_back(n);
    reveal_strlit("-");
    let s = "-"@ + t;
    assert(s[0] == '-');
    assert(!crate::text::is_digit(s[0]));
}

} // verus!
