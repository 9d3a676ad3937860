//! JSON values.

use vstd::prelude::*;

use crate::text::{opt_text, same_text, texts};

verus! {

/// A JSON value, as far as the crate reads it.
#[derive(Debug)]
pub enum Json {
    Text(String),
    Number(u64),
    Array(Vec<Json>),
    Object(Vec<(String, Json)>),
    Flag(bool),
    Null,
    /// A number that is no unsigned 64-bit integer.
    Other,
}

/// The mathematical content of a [`Json`].
pub enum JsonTree {
    Text(Seq<char>),
    Number(u64),
    Array(Seq<JsonTree>),
    Object(Seq<(Seq<char>, JsonTree)>),
    Flag(bool),
    Null,
    Other,
}

impl Json {
    /// The content of the value.
    pub open spec fn tree(self) -> JsonTree
        decreases self,
    {
        match self {
            Json::Text(text) => JsonTree::Text(text@),
            Json::Number(n) => JsonTree::Number(n),
            Json::Array(items) => JsonTree::Array(
                Seq::new(
                    items@.len(),
                    |i: int|
                        if 0 <= i < items@.len() {
                            items@[i].tree()
                        } else {
                            JsonTree::Other
                        },
                ),
            ),
            Json::Object(fields) => JsonTree::Object(
                Seq::new(
                    fields@.len(),
                    |i: int|
                        if 0 <= i < fields@.len() {
                            (fields@[i].0@, fields@[i].1.tree())
                        } else {
                            (Seq::empty(), JsonTree::Other)
                        },
                ),
            ),
            Json::Flag(b) => JsonTree::Flag(b),
            Json::Null => JsonTree::Null,
            Json::Other => JsonTree::Other,
        }
    }
}

#[verifier::external_type_specification]
#[verifier::external_body]
pub struct ExValue(serde_json::Value);

/// What a parsed document holds.
pub uninterp spec fn json_contents(value: serde_json::Value) -> JsonTree;

/// The document that a text is, if it is one.
pub uninterp spec fn json_document(text: Seq<char>) -> Option<JsonTree>;

/// What the error of `serde_json::from_str` prints for a text that is no document.
pub uninterp spec fn json_error_text(text: Seq<char>) -> Seq<char>;

/// `serde_json::from_str` fails exactly on texts that are no document. The error
/// is given by what it prints.
#[verifier::external_body]
pub(crate) fn parse_value(text: &str) -> (r: Result<serde_json::Value, String>)
    ensures
        match r {
            Ok(value) => json_document(text@) == Some(json_contents(value)),
            Err(error) => json_document(text@) is None && error@ == json_error_text(text@),
        },
{
    serde_json::from_str(text).map_err(|e| e.to_string())
}

/// `serde_json::Value::as_u64` gives a number that is an unsigned 64-bit integer
/// and nothing else.
pub assume_specification[ serde_json::Value::as_u64 ](value: &serde_json::Value) -> (r: Option<
    u64,
>)
    ensures
        match json_contents(*value) {
            JsonTree::Number(n) => r == Some(n),
            _ => r is None,
        },
;

/// `serde_json::Value::as_bool` gives a boolean and nothing else.
pub assume_specification[ serde_json::Value::as_bool ](value: &serde_json::Value) -> (r: Option<
    bool,
>)
    ensures
        match json_contents(*value) {
            JsonTree::Flag(b) => r == Some(b),
            _ => r is None,
        },
;

/// `serde_json::Value::is_null` tells null from everything else.
pub assume_specification[ serde_json::Value::is_null ](value: &serde_json::Value) -> (r: bool)
    ensures
        r == (json_contents(*value) == JsonTree::Null),
;

/// `serde_json::Value::as_array` gives the items of an array and nothing else.
pub assume_specification[ serde_json::Value::as_array ](value: &serde_json::Value) -> (r: Option<
    &Vec<serde_json::Value>,
>)
    ensures
        match json_contents(*value) {
            JsonTree::Array(items) => {
                &&& r is Some
                &&& r->0@.len() == items.len()
                &&& forall|i: int|
                    0 <= i < items.len() ==> json_contents(#[trigger] r->0@[i]) == items[i]
            },
            _ => r is None,
        },
;

/// `serde_json::Value::as_object` gives the fields of an object and nothing
/// else; `serde_json::Map::iter` hands them out one by one.
#[verifier::external_body]
fn object_fields<'a>(value: &'a serde_json::Value) -> (r: Option<
    Vec<(&'a String, &'a serde_json::Value)>,
>)
    ensures
        match json_contents(*value) {
            JsonTree::Object(fields) => {
                &&& r is Some
                &&& r->0@.len() == fields.len()
                &&& forall|i: int|
                    0 <= i < fields.len() ==> (#[trigger] r->0@[i]).0@ == fields[i].0
                        && json_contents(*r->0@[i].1) == fields[i].1
            },
            _ => r is None,
        },
{
    value.as_object().map(|fields| fields.iter().collect())
}

/// `serde_json::Value::as_str` gives the text of a string and nothing else.
pub assume_specification[ serde_json::Value::as_str ](value: &serde_json::Value) -> (r: Option<
    &str,
>)
    ensures
        match json_contents(*value) {
            JsonTree::Text(text) => r is Some && r->0@ == text,
            _ => r is None,
        },
;

/// The plain value that a parsed document holds.
pub fn json_of(value: &serde_json::Value) -> (r: Json)
    ensures
        r.tree() == json_contents(*value),
    decreases json_contents(*value),
{
    if let Some(text) = value.as_str() {
        return Json::Text(text.to_owned());
    }
    if let Some(n) = value.as_u64() {
        return Json::Number(n);
    }
    if value.is_null() {
        return Json::Null;
    }
    if let Some(b) = value.as_bool() {
        return Json::Flag(b);
    }
    if let Some(values) = value.as_array() {
        let ghost items = json_contents(*value)->Array_0;
        let mut list: Vec<Json> = Vec::new();
        let mut i: usize = 0;
        while i < values.len()
            invariant
                i <= values.len(),
                list.len() == i,
                values@.len() == items.len(),
                json_contents(*value) == JsonTree::Array(items),
                forall|j: int|
                    0 <= j < items.len() ==> json_contents(#[trigger] values@[j]) == items[j],
                forall|j: int| 0 <= j < i ==> (#[trigger] list@[j]).tree() == items[j],
            decreases values.len() - i,
        {
            assert(decreases_to!(json_contents(*value) => json_contents(*value)->Array_0));
            assert(decreases_to!(items => items[i as int]));
            list.push(json_of(&values[i]));
            i = i + 1;
        }
        let r = Json::Array(list);
        assert(r.tree()->Array_0 =~= items);
        return r;
    }
    if let Some(entries) = object_fields(value) {
        let ghost fields = json_contents(*value)->Object_0;
        let mut list: Vec<(String, Json)> = Vec::new();
        let mut i: usize = 0;
        while i < entries.len()
            invariant
                i <= entries.len(),
                list.len() == i,
                entries@.len() == fields.len(),
                json_contents(*value) == JsonTree::Object(fields),
                forall|j: int|
                    0 <= j < fields.len() ==> (#[trigger] entries@[j]).0@ == fields[j].0
                        && json_contents(*entries@[j].1) == fields[j].1,
                forall|j: int|
                    0 <= j < i ==> (#[trigger] list@[j]).0@ == fields[j].0 && list@[j].1.tree()
                        == fields[j].1,
            decreases entries.len() - i,
        {
            let (key, item) = entries[i];
            assert(decreases_to!(json_contents(*value) => json_contents(*value)->Object_0));
            assert(decreases_to!(fields => fields[i as int]));
            assert(decreases_to!(fields[i as int] => fields[i as int].1));
            list.push((key.clone(), json_of(item)));
            i = i + 1;
        }
        let r = Json::Object(list);
        assert(r.tree()->Object_0 =~= fields);
        return r;
    }
    Json::Other
}

/// The value of the first field with the given name.
pub open spec fn lookup(fields: Seq<(Seq<char>, JsonTree)>, key: Seq<char>) -> Option<JsonTree>
    decreases fields.len(),
{
    if fields.len() == 0 {
        None
    } else if fields[0].0 == key {
        Some(fields[0].1)
    } else {
        lookup(fields.drop_first(), key)
    }
}

impl JsonTree {
    /// The field of an object with the given name.
    pub open spec fn field(self, key: Seq<char>) -> Option<JsonTree> {
        match self {
            JsonTree::Object(fields) => lookup(fields, key),
            _ => None,
        }
    }

    /// The first item of an array.
    pub open spec fn head(self) -> Option<JsonTree> {
        match self {
            JsonTree::Array(items) => if items.len() > 0 {
                Some(items[0])
            } else {
                None
            },
            _ => None,
        }
    }

    /// The text of a string.
    pub open spec fn text(self) -> Option<Seq<char>> {
        match self {
            JsonTree::Text(text) => Some(text),
            _ => None,
        }
    }

    /// The value of an unsigned integer.
    pub open spec fn number(self) -> Option<u64> {
        match self {
            JsonTree::Number(n) => Some(n),
            _ => None,
        }
    }

    /// The items of an array.
    pub open spec fn items(self) -> Option<Seq<JsonTree>> {
        match self {
            JsonTree::Array(items) => Some(items),
            _ => None,
        }
    }

    /// The field of a field.
    pub open spec fn path(self, outer: Seq<char>, inner: Seq<char>) -> Option<JsonTree> {
        match self.field(outer) {
            Some(value) => value.field(inner),
            None => None,
        }
    }
}

/// The content of an optional value.
pub open spec fn opt_tree(value: Option<&Json>) -> Option<JsonTree> {
    match value {
        Some(value) => Some(value.tree()),
        None => None,
    }
}

impl Json {
    /// The field of an object with the given name.
    pub fn get(&self, key: &str) -> (r: Option<&Json>)
        ensures
            opt_tree(r) == self.tree().field(key@),
    {
        match self {
            Json::Object(fields) => {
                let ghost all = self.tree()->Object_0;
                let mut i: usize = 0;
                assert(all.skip(0) =~= all);
                while i < fields.len()
                    invariant
                        i <= fields.len(),
                        all.len() == fields.len(),
                        *self == Json::Object(*fields),
                        all == self.tree()->Object_0,
                        lookup(all, key@) == lookup(all.skip(i as int), key@),
                    decreases fields.len() - i,
                {
                    assert(all.skip(i as int)[0] == (fields@[i as int].0@, fields@[i as int].1.tree()));
                    if same_text(fields[i].0.as_str(), key) {
                        return Some(&fields[i].1);
                    }
                    assert(all.skip(i as int).drop_first() =~= all.skip(i + 1));
                    i = i + 1;
                }
                None
            },
            _ => None,
        }
    }

    /// The first item of an array.
    pub fn head(&self) -> (r: Option<&Json>)
        ensures
            opt_tree(r) == self.tree().head(),
    {
        match self {
            Json::Array(items) => if items.len() > 0 {
                Some(&items[0])
            } else {
                None
            },
            _ => None,
        }
    }

    /// The field of a field.
    pub fn get_path(&self, outer: &str, inner: &str) -> (r: Option<&Json>)
        ensures
            opt_tree(r) == self.tree().path(outer@, inner@),
    {
        match self.get(outer) {
            Some(value) => value.get(inner),
            None => None,
        }
    }

    /// The text of a string.
    pub fn as_text(&self) -> (r: Option<&str>)
        ensures
            match r {
                Some(text) => self.tree().text() == Some(text@),
                None => self.tree().text() is None,
            },
    {
        match self {
            Json::Text(text) => Some(text.as_str()),
            _ => None,
        }
    }

    /// The value of an unsigned integer.
    pub fn as_number(&self) -> (r: Option<u64>)
        ensures
            r == self.tree().number(),
    {
        match self {
            Json::Number(n) => Some(*n),
            _ => None,
        }
    }
}

/// Reads a document.
pub fn parse_json(text: &str) -> (r: Result<Json, String>)
    ensures
        match r {
            Ok(value) => json_document(text@) == Some(value.tree()),
            Err(error) => json_document(text@) is None && error@ == json_error_text(text@),
        },
{
    match parse_value(text) {
        Ok(value) => Ok(json_of(&value)),
        Err(error) => Err(error),
    }
}

/// The names and contents of a list of fields.
pub open spec fn field_trees(fields: Seq<(String, Json)>) -> Seq<(Seq<char>, JsonTree)> {
    fields.map_values(|f: (String, Json)| (f.0@, f.1.tree()))
}

/// Appends a field.
pub fn push_field(fields: &mut Vec<(String, Json)>, key: &str, value: Json)
    ensures
        field_trees(final(fields)@) == field_trees(old(fields)@).push((key@, value.tree())),
{
    fields.push((key.to_owned(), value));
    assert(field_trees(fields@) =~= field_trees(old(fields)@).push((key@, value.tree())));
}

/// The object with the given fields.
pub fn object(fields: Vec<(String, Json)>) -> (r: Json)
    ensures
        r.tree() == JsonTree::Object(field_trees(fields@)),
{
    let ghost wanted = field_trees(fields@);
    let r = Json::Object(fields);
    assert(r.tree()->Object_0 =~= wanted);
    r
}

/// A text, or null.
pub open spec fn opt_text_tree(value: Option<Seq<char>>) -> JsonTree {
    match value {
        Some(text) => JsonTree::Text(text),
        None => JsonTree::Null,
    }
}

/// The value of an optional text.
pub fn opt_text_value(value: &Option<String>) -> (r: Json)
    ensures
        r.tree() == opt_text_tree(opt_text(*value)),
{
    match value {
        Some(text) => Json::Text(text.clone()),
        None => Json::Null,
    }
}

/// A number, or null.
pub open spec fn opt_number_tree(value: Option<u64>) -> JsonTree {
    match value {
        Some(n) => JsonTree::Number(n),
        None => JsonTree::Null,
    }
}

/// The value of an optional number.
pub fn opt_number_value(value: Option<u64>) -> (r: Json)
    ensures
        r.tree() == opt_number_tree(value),
{
    match value {
        Some(n) => Json::Number(n),
        None => Json::Null,
    }
}

/// A list of texts.
pub open spec fn text_list_tree(list: Seq<Seq<char>>) -> JsonTree {
    JsonTree::Array(list.map_values(|t: Seq<char>| JsonTree::Text(t)))
}

/// The value of a list of texts.
pub fn text_list_value(list: &[String]) -> (r: Json)
    ensures
        r.tree() == text_list_tree(texts(list@)),
{
    let mut items: Vec<Json> = Vec::new();
    let mut i: usize = 0;
    while i < list.len()
        invariant
            i <= list.len(),
            items.len() == i,
            forall|j: int| 0 <= j < i ==> (#[trigger] items@[j]).tree() == JsonTree::Text(list@[j]@),
        decreases list.len() - i,
    {
        items.push(Json::Text(list[i].clone()));
        i = i + 1;
    }
    let r = Json::Array(items);
    assert(r.tree()->Array_0 =~= text_list_tree(texts(list@))->Array_0);
    r
}

/// The first field of an object with a name is the one that counts, wherever it
/// stands; without one there is none.
pub proof fn law_first_field_counts(fields: Seq<(Seq<char>, JsonTree)>, key: Seq<char>, i: int)
    requires
        0 <= i <= fields.len(),
        forall|j: int| 0 <= j < i ==> (#[trigger] fields[j]).0 != key,
        i < fields.len() ==> fields[i].0 == key,
    ensures
        i < fields.len() ==> JsonTree::Object(fields).field(key) == Some(fields[i].1),
        i == fields.len() ==> JsonTree::Object(fields).field(key) is None,
    decreases i,
{
    if i > 0 {
        let rest = fields.drop_first();
        assert(fields[0].0 != key);
        assert forall|j: int| 0 <= j < i - 1 implies (#[trigger] rest[j]).0 != key by {
            assert(rest[j] == fields[j + 1]);
        }
        law_first_field_counts(rest, key, i - 1);
    }
}

} // verus!
