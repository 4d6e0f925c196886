//! JSON objects, written and read through `serde_json`.

use vstd::prelude::*;

use crate::text;

verus! {

/// `serde_json::Map`, the fields of an object.
#[verifier::external_type_specification]
#[verifier::external_body]
#[verifier::reject_recursive_types(K)]
#[verifier::reject_recursive_types(V)]
pub struct ExObject<K, V>(serde_json::Map<K, V>);

/// `serde_json::Value`.
#[verifier::external_type_specification]
#[verifier::external_body]
pub struct ExValue(serde_json::Value);

/// The value of a field.
pub enum FieldValue {
    Null,
    Number(u64),
    Text(String),
}

/// The value of a field, its text as characters.
pub enum Field {
    Null,
    Number(u64),
    Text(Seq<char>),
}

impl View for FieldValue {
    type V = Field;

    open spec fn view(&self) -> Field {
        match *self {
            FieldValue::Null => Field::Null,
            FieldValue::Number(n) => Field::Number(n),
            FieldValue::Text(t) => Field::Text(t@),
        }
    }
}

/// The fields that an object holds, by their keys.
pub uninterp spec fn object_fields(
    m: serde_json::Map<String, serde_json::Value>,
) -> Map<Seq<char>, Field>;

/// The text that `serde_json` writes for an object, in its compact form.
pub uninterp spec fn object_text(fields: Map<Seq<char>, Field>) -> Seq<char>;

/// The text that stands under a key at the top level of a JSON text, if it is an
/// object and has one there.
pub uninterp spec fn text_at(json: Seq<char>, key: Seq<char>) -> Option<Seq<char>>;

/// The text that stands under a key among fields, if there is one.
pub open spec fn field_text(fields: Map<Seq<char>, Field>, key: Seq<char>) -> Option<Seq<char>> {
    if fields.contains_key(key) {
        match fields[key] {
            Field::Text(t) => Some(t),
            _ => None,
        }
    } else {
        None
    }
}

/// The fields of an empty object.
pub open spec fn no_fields() -> Map<Seq<char>, Field> {
    Map::empty()
}

/// `serde_json::Map::new`: an object without fields.
#[verifier::external_body]
fn new_map() -> (m: serde_json::Map<String, serde_json::Value>)
    ensures
        object_fields(m) == no_fields(),
{
    serde_json::Map::new()
}

/// `serde_json::Map::insert`: sets one field and leaves the others alone.
#[verifier::external_body]
fn insert(
    m: &mut serde_json::Map<String, serde_json::Value>,
    key: &str,
    value: FieldValue,
)
    ensures
        object_fields(*final(m)) == object_fields(*old(m)).insert(key@, value@),
{
    let value = match value {
        FieldValue::Null => serde_json::Value::Null,
        FieldValue::Number(n) => serde_json::Value::from(n),
        FieldValue::Text(t) => serde_json::Value::String(t),
    };
    m.insert(key.to_string(), value);
}

/// `serde_json::Value::to_string` of an object: compact JSON. It holds no line
/// break, since line breaks inside texts are escaped and none are added, and
/// reading a text back from it gives the text that was put in.
#[verifier::external_body]
fn to_text(m: serde_json::Map<String, serde_json::Value>) -> (r: String)
    ensures
        r@ == object_text(object_fields(m)),
        !r@.contains('\n'),
        forall|key: Seq<char>| #[trigger] text_at(r@, key) == field_text(object_fields(m), key),
{
    serde_json::Value::Object(m).to_string()
}

/// An object that is being written. Its view is its fields by their keys.
pub struct Object {
    map: serde_json::Map<String, serde_json::Value>,
}

impl View for Object {
    type V = Map<Seq<char>, Field>;

    closed spec fn view(&self) -> Map<Seq<char>, Field> {
        object_fields(self.map)
    }
}

impl Object {
    /// An object without fields.
    pub fn new() -> (r: Self)
        ensures
            r@ == no_fields(),
    {
        Object { map: new_map() }
    }

    /// Sets one field and leaves the others alone.
    pub fn put(&mut self, key: &str, value: FieldValue)
        ensures
            final(self)@ == old(self)@.insert(key@, value@),
    {
        insert(&mut self.map, key, value);
    }

    /// The object as one line of JSON, from which every text in it can be read back.
    pub fn render(self) -> (r: String)
        ensures
            r@ == object_text(self@),
            !r@.contains('\n'),
            forall|key: Seq<char>| #[trigger] text_at(r@, key) == field_text(self@, key),
    {
        to_text(self.map)
    }
}

/// `serde_json::from_str`, then `Value::get` and `Value::as_str`: the text under
/// `key` at the top level of a JSON text. Nothing if the text is not JSON, is no
/// object, or has no text there.
#[verifier::external_body]
pub(crate) fn read_text(json: &str, key: &str) -> (r: Option<String>)
    ensures
        text::opt_text(r) == text_at(json@, key@),
{
    match serde_json::from_str::<serde_json::Value>(json) {
        Ok(value) => value.get(key).and_then(|t| t.as_str()).map(|t| t.to_string()),
        Err(_) => None,
    }
}

/// An object starts empty, and setting a field sets that one and leaves the others as
/// they were.
pub proof fn law_fields_are_set_one_by_one(
    fresh: Object,
    k: &mut Object,
    key: &str,
    value: FieldValue,
    other: Seq<char>,
)
    requires
        call_ensures(Object::new, (), fresh),
        call_ensures(Object::put, (k, key, value), ()),
        other != key@,
    ensures
        !fresh@.contains_key(other) && !fresh@.contains_key(key@),
        final(k)@.contains_key(key@),
        value is Null ==> final(k)@[key@] is Null,
        value is Number ==> final(k)@[key@] == Field::Number(value->Number_0),
        value is Text ==> final(k)@[key@] == Field::Text(value->Text_0@),
        final(k)@.contains_key(other) <==> old(k)@.contains_key(other),
        old(k)@.contains_key(other) ==> final(k)@[other] == old(k)@[other],
{
}

/// What is written is one line, and the texts in it are those that were put in.
pub proof fn law_objects_read_back(m: Object, r: String, key: Seq<char>)
    requires
        call_ensures(Object::render, (m,), r),
    ensures
        r@ == object_text(m@),
        !r@.contains('\n'),
        m@.contains_key(key) && m@[key] is Text ==> text_at(r@, key) == Some(m@[key]->Text_0),
        !m@.contains_key(key) || !(m@[key] is Text) ==> text_at(r@, key) is None,
{
}

}
