//! JSON values as plain data, and the reading of JSON text.
use vstd::prelude::*;

use crate::text::text_eq;

verus! {

/// What a JSON value says. A number is known by the `u64` that it is, where it
/// is one.
pub enum JsonTree {
    Null,
    Bool(bool),
    Number(Option<u64>),
    Text(Seq<char>),
    Array(Seq<JsonTree>),
    Object(Seq<(Seq<char>, JsonTree)>),
}

/// The value of the first field called `key`.
pub open spec fn field(fields: Seq<(Seq<char>, JsonTree)>, key: Seq<char>) -> Option<JsonTree>
    decreases fields.len(),
{
    if fields.len() == 0 {
        None
    } else if fields[0].0 == key {
        Some(fields[0].1)
    } else {
        field(fields.drop_first(), key)
    }
}

impl JsonTree {
    /// The field `key` of an object.
    pub open spec fn get(self, key: Seq<char>) -> Option<JsonTree> {
        match self {
            JsonTree::Object(fields) => field(fields, key),
            _ => None,
        }
    }

    /// The item at `index` of an array.
    pub open spec fn at(self, index: int) -> Option<JsonTree> {
        match self {
            JsonTree::Array(items) => if 0 <= index < items.len() {
                Some(items[index])
            } else {
                None
            },
            _ => None,
        }
    }

    /// The text of a string.
    pub open spec fn as_text(self) -> Option<Seq<char>> {
        match self {
            JsonTree::Text(s) => Some(s),
            _ => None,
        }
    }

    /// The items of an array.
    pub open spec fn as_items(self) -> Option<Seq<JsonTree>> {
        match self {
            JsonTree::Array(items) => Some(items),
            _ => None,
        }
    }

    /// The value of a number that is a `u64`.
    pub open spec fn as_number(self) -> Option<u64> {
        match self {
            JsonTree::Number(n) => n,
            _ => None,
        }
    }

    /// The text of the field `key`.
    pub open spec fn text_field(self, key: Seq<char>) -> Option<Seq<char>> {
        match self.get(key) {
            Some(value) => value.as_text(),
            None => None,
        }
    }

    /// The number in the field `key`.
    pub open spec fn number_field(self, key: Seq<char>) -> Option<u64> {
        match self.get(key) {
            Some(value) => value.as_number(),
            None => None,
        }
    }

    /// The items of the array in the field `key`.
    pub open spec fn items_field(self, key: Seq<char>) -> Option<Seq<JsonTree>> {
        match self.get(key) {
            Some(value) => value.as_items(),
            None => None,
        }
    }
}

/// The field `key` of a value that may be missing.
pub open spec fn dig(value: Option<JsonTree>, key: Seq<char>) -> Option<JsonTree> {
    match value {
        Some(value) => value.get(key),
        None => None,
    }
}

/// The first item of a value that may be missing.
pub open spec fn dig_first(value: Option<JsonTree>) -> Option<JsonTree> {
    match value {
        Some(value) => value.at(0),
        None => None,
    }
}

/// A JSON value.
pub enum Json {
    Null,
    Bool(bool),
    /// A number, with its value where that is a `u64`.
    Number(Option<u64>),
    Text(String),
    Array(Vec<Json>),
    Object(Vec<(String, Json)>),
}

impl Json {
    /// What the value says.
    pub open spec fn tree(self) -> JsonTree
        decreases self,
    {
        match self {
            Json::Null => JsonTree::Null,
            Json::Bool(b) => JsonTree::Bool(b),
            Json::Number(n) => JsonTree::Number(n),
            Json::Text(s) => JsonTree::Text(s@),
            Json::Array(items) => JsonTree::Array(
                Seq::new(
                    items@.len(),
                    |i: int|
                        if 0 <= i < items@.len() {
                            items@[i].tree()
                        } else {
                            JsonTree::Null
                        },
                ),
            ),
            Json::Object(fields) => JsonTree::Object(
                Seq::new(
                    fields@.len(),
                    |i: int|
                        if 0 <= i < fields@.len() {
                            (fields@[i].0@, fields@[i].1.tree())
                        } else {
                            (Seq::empty(), JsonTree::Null)
                        },
                ),
            ),
        }
    }
}

/// `serde_json::Value` is opaque here: [`json_model`] names what it holds.
#[verifier::external_type_specification]
#[verifier::external_body]
pub struct ExValue(serde_json::Value);

/// What a `serde_json::Value` holds.
pub uninterp spec fn json_model(value: serde_json::Value) -> JsonTree;

/// What `serde_json` makes of `text`: the value it writes, or the message of
/// the error.
pub uninterp spec fn json_of_text(text: Seq<char>) -> Result<JsonTree, Seq<char>>;

/// One level of a `serde_json::Value`.
pub enum JsonLayer {
    Null,
    Bool(bool),
    Number(Option<u64>),
    Text(String),
    Array(Vec<serde_json::Value>),
    Object(Vec<(String, serde_json::Value)>),
}

impl JsonLayer {
    pub open spec fn model(self) -> JsonTree {
        match self {
            JsonLayer::Null => JsonTree::Null,
            JsonLayer::Bool(b) => JsonTree::Bool(b),
            JsonLayer::Number(n) => JsonTree::Number(n),
            JsonLayer::Text(s) => JsonTree::Text(s@),
            JsonLayer::Array(items) => JsonTree::Array(
                Seq::new(items@.len(), |i: int| json_model(items@[i])),
            ),
            JsonLayer::Object(fields) => JsonTree::Object(
                Seq::new(fields@.len(), |i: int| (fields@[i].0@, json_model(fields@[i].1))),
            ),
        }
    }
}

/// Takes a `serde_json::Value` apart by its variants. A number is read with
/// `Number::as_u64`, and the entries of an object come in the order of its map.
/// The contract claims that the level handed out is the level of the value.
#[verifier::external_body]
fn open_layer(value: serde_json::Value) -> (r: JsonLayer)
    ensures
        r.model() == json_model(value),
{
    match value {
        serde_json::Value::Null => JsonLayer::Null,
        serde_json::Value::Bool(b) => JsonLayer::Bool(b),
        serde_json::Value::Number(n) => JsonLayer::Number(n.as_u64()),
        serde_json::Value::String(s) => JsonLayer::Text(s),
        serde_json::Value::Array(items) => JsonLayer::Array(items),
        serde_json::Value::Object(map) => JsonLayer::Object(map.into_iter().collect()),
    }
}

/// `serde_json::from_str` into a `serde_json::Value`, with the `Display` text
/// of the error. The contract names the outcome, which depends on the text
/// alone.
#[verifier::external_body]
fn value_of_text(text: &str) -> (r: Result<serde_json::Value, String>)
    ensures
        match r {
            Ok(value) => json_of_text(text@) == Ok::<JsonTree, Seq<char>>(json_model(value)),
            Err(message) => json_of_text(text@) == Err::<JsonTree, Seq<char>>(message@),
        },
{
    serde_json::from_str(text).map_err(|e: serde_json::Error| e.to_string())
}

/// The plain form of a `serde_json::Value`.
pub fn read_json(value: serde_json::Value) -> (r: Json)
    ensures
        r.tree() == json_model(value),
    decreases json_model(value),
{
    match open_layer(value) {
        JsonLayer::Null => Json::Null,
        JsonLayer::Bool(b) => Json::Bool(b),
        JsonLayer::Number(n) => Json::Number(n),
        JsonLayer::Text(s) => Json::Text(s),
        JsonLayer::Array(items) => {
            let ghost given = items@;
            let ghost models = Seq::new(given.len(), |i: int| json_model(given[i]));
            let mut r: Vec<Json> = Vec::new();
            for item in it: items
                invariant
                    it.seq() == given,
                    models == Seq::new(given.len(), |i: int| json_model(given[i])),
                    json_model(value) == JsonTree::Array(models),
                    r@.len() == it.index(),
                    forall|k: int| 0 <= k < r@.len() ==> (#[trigger] r@[k]).tree() == models[k],
            {
                assert(models[it.index() as int] == json_model(item));
                assert(decreases_to!(json_model(value) => json_model(value)->Array_0));
                assert(decreases_to!(models => models[it.index() as int]));
                r.push(read_json(item));
            }
            let out = Json::Array(r);
            assert(out.tree()->Array_0 =~= models);
            out
        },
        JsonLayer::Object(fields) => {
            let ghost given = fields@;
            let ghost models = Seq::new(
                given.len(),
                |i: int| (given[i].0@, json_model(given[i].1)),
            );
            let mut r: Vec<(String, Json)> = Vec::new();
            for entry in it: fields
                invariant
                    it.seq() == given,
                    models == Seq::new(given.len(), |i: int| (given[i].0@, json_model(given[i].1))),
                    json_model(value) == JsonTree::Object(models),
                    r@.len() == it.index(),
                    forall|k: int|
                        0 <= k < r@.len() ==> ((#[trigger] r@[k]).0@, r@[k].1.tree()) == models[k],
            {
                assert(models[it.index() as int] == (entry.0@, json_model(entry.1)));
                assert(decreases_to!(json_model(value) => json_model(value)->Object_0));
                assert(decreases_to!(models => models[it.index() as int]));
                assert(decreases_to!(models[it.index() as int] => models[it.index() as int].1));
                r.push((entry.0, read_json(entry.1)));
            }
            let out = Json::Object(r);
            assert(out.tree()->Object_0 =~= models);
            out
        },
    }
}

/// Reads a JSON value from its text, or says why there is none.
pub fn parse_json(text: &str) -> (r: Result<Json, String>)
    ensures
        match r {
            Ok(value) => json_of_text(text@) == Ok::<JsonTree, Seq<char>>(value.tree()),
            Err(message) => json_of_text(text@) == Err::<JsonTree, Seq<char>>(message@),
        },
{
    match value_of_text(text) {
        Ok(value) => Ok(read_json(value)),
        Err(message) => Err(message),
    }
}

/// Leaving out fields with other names does not change what `key` finds.
proof fn lemma_field_skip(fields: Seq<(Seq<char>, JsonTree)>, key: Seq<char>, n: int)
    requires
        0 <= n <= fields.len(),
        forall|i: int| 0 <= i < n ==> (#[trigger] fields[i]).0 != key,
    ensures
        field(fields, key) == field(fields.skip(n), key),
    decreases n,
{
    if n == 0 {
        assert(fields.skip(0) =~= fields);
    } else {
        let rest = fields.drop_first();
        assert forall|i: int| 0 <= i < n - 1 implies (#[trigger] rest[i]).0 != key by {
            assert(rest[i] == fields[i + 1]);
        }
        lemma_field_skip(rest, key, n - 1);
        assert(rest.skip(n - 1) =~= fields.skip(n));
    }
}

impl Json {
    /// The field `key` of an object.
    pub fn get(&self, key: &str) -> (r: Option<&Json>)
        ensures
            match r {
                Some(value) => self.tree().get(key@) == Some(value.tree()),
                None => self.tree().get(key@) is None,
            },
    {
        match self {
            Json::Object(fields) => {
                let n: usize = fields.len();
                let ghost trees = self.tree()->Object_0;
                for i in 0..n
                    invariant
                        n == fields@.len(),
                        self == Json::Object(*fields),
                        trees == self.tree()->Object_0,
                        forall|k: int| 0 <= k < i ==> (#[trigger] trees[k]).0 != key@,
                {
                    assert(trees[i as int] == (fields@[i as int].0@, fields@[i as int].1.tree()));
                    if text_eq(fields[i].0.as_str(), key) {
                        proof {
                            lemma_field_skip(trees, key@, i as int);
                            assert(trees.skip(i as int)[0] == trees[i as int]);
                        }
                        return Some(&fields[i].1);
                    }
                }
                proof {
                    lemma_field_skip(trees, key@, n as int);
                }
                None
            },
            _ => None,
        }
    }

    /// The first item of an array.
    pub fn first(&self) -> (r: Option<&Json>)
        ensures
            match r {
                Some(value) => self.tree().at(0) == Some(value.tree()),
                None => self.tree().at(0) is None,
            },
    {
        match self {
            Json::Array(items) => {
                if items.len() > 0 {
                    Some(&items[0])
                } else {
                    None
                }
            },
            _ => None,
        }
    }

    /// The text of a string.
    pub fn as_str(&self) -> (r: Option<&str>)
        ensures
            match r {
                Some(s) => self.tree().as_text() == Some(s@),
                None => self.tree().as_text() is None,
            },
    {
        match self {
            Json::Text(s) => Some(s.as_str()),
            _ => None,
        }
    }

    /// The items of an array.
    pub fn as_array(&self) -> (r: Option<&Vec<Json>>)
        ensures
            match r {
                Some(items) => self.tree().as_items() == Some(trees(items@)),
                None => self.tree().as_items() is None,
            },
    {
        match self {
            Json::Array(items) => {
                assert(self.tree()->Array_0 =~= trees(items@));
                Some(items)
            },
            _ => None,
        }
    }

    /// The value of a number that is a `u64`.
    pub fn as_u64(&self) -> (r: Option<u64>)
        ensures
            r == self.tree().as_number(),
    {
        match self {
            Json::Number(n) => *n,
            _ => None,
        }
    }

    /// The text of the field `key`.
    pub fn text_field(&self, key: &str) -> (r: Option<&str>)
        ensures
            match r {
                Some(s) => self.tree().text_field(key@) == Some(s@),
                None => self.tree().text_field(key@) is None,
            },
    {
        match self.get(key) {
            Some(value) => value.as_str(),
            None => None,
        }
    }

    /// The number in the field `key`.
    pub fn number_field(&self, key: &str) -> (r: Option<u64>)
        ensures
            r == self.tree().number_field(key@),
    {
        match self.get(key) {
            Some(value) => value.as_u64(),
            None => None,
        }
    }

    /// The items of the array in the field `key`.
    pub fn items_field(&self, key: &str) -> (r: Option<&Vec<Json>>)
        ensures
            match r {
                Some(items) => self.tree().items_field(key@) == Some(trees(items@)),
                None => self.tree().items_field(key@) is None,
            },
    {
        match self.get(key) {
            Some(value) => value.as_array(),
            None => None,
        }
    }
}

/// What each of the values says.
pub open spec fn trees(values: Seq<Json>) -> Seq<JsonTree> {
    values.map_values(|v: Json| v.tree())
}

/// The first field of a name is the one that is found, with its value as it
/// stands.
pub proof fn law_fields_are_found_by_name(
    fields: Seq<(Seq<char>, JsonTree)>,
    key: Seq<char>,
    n: int,
)
    requires
        0 <= n < fields.len(),
        fields[n].0 == key,
        forall|i: int| 0 <= i < n ==> (#[trigger] fields[i]).0 != key,
    ensures
        JsonTree::Object(fields).get(key) == Some(fields[n].1),
{
    lemma_field_skip(fields, key, n);
    assert(fields.skip(n)[0] == fields[n]);
}

/// A field that is not there is not found, and nothing but an object has fields.
pub proof fn law_missing_fields_are_not_found(value: JsonTree, key: Seq<char>)
    requires
        value matches JsonTree::Object(fields) ==> forall|i: int|
            0 <= i < fields.len() ==> (#[trigger] fields[i]).0 != key,
    ensures
        value.get(key) is None,
        value.text_field(key) is None,
        value.number_field(key) is None,
        value.items_field(key) is None,
{
    if let JsonTree::Object(fields) = value {
        lemma_field_skip(fields, key, fields.len() as int);
    }
}

/// A value is read as what it is, unchanged, and as nothing else.
pub proof fn law_values_are_read_as_they_are(
    value: JsonTree,
    text: Seq<char>,
    items: Seq<JsonTree>,
    number: u64,
    index: int,
)
    ensures
        value.as_text() == Some(text) <==> value == JsonTree::Text(text),
        value.as_items() == Some(items) <==> value == JsonTree::Array(items),
        value.as_number() == Some(number) <==> value == JsonTree::Number(Some(number)),
        JsonTree::Array(items).at(index) == if 0 <= index < items.len() {
            Some(items[index])
        } else {
            None
        },
        !(value is Array) ==> value.at(index) is None,
{
}

/// Looking into a field is finding it and reading it as what it is.
pub proof fn law_fields_are_read_as_they_are(
    value: JsonTree,
    key: Seq<char>,
    text: Seq<char>,
    items: Seq<JsonTree>,
    number: u64,
)
    ensures
        value.text_field(key) == Some(text) <==> value.get(key) == Some(JsonTree::Text(text)),
        value.items_field(key) == Some(items) <==> value.get(key) == Some(JsonTree::Array(items)),
        value.number_field(key) == Some(number) <==> value.get(key) == Some(
            JsonTree::Number(Some(number)),
        ),
{
}

} // verus!
