//! The JSON texts that the vault keeps, read and written by `serde_json`.
//!
//! The vault writes two shapes: one object whose members are texts (the blob
//! of each user), and an array of objects (the records of one user). An object
//! is held as its members in their order; of a member's value the vault reads
//! a text or a whole number, and nothing else.

use serde_json::Value;
use vstd::prelude::*;

verus! {

/// The value of one member of an object.
#[derive(Debug, PartialEq, Eq)]
pub enum Field {
    /// A JSON string.
    Text(String),
    /// A JSON number that is a whole number within `i64`.
    Int(i64),
    /// Any other JSON value.
    Other,
}

/// A member's value as a mathematical value.
pub ghost enum FieldView {
    Text(Seq<char>),
    Int(i64),
    Other,
}

impl View for Field {
    type V = FieldView;

    open spec fn view(&self) -> FieldView {
        match self {
            Field::Text(text) => FieldView::Text(text@),
            Field::Int(number) => FieldView::Int(*number),
            Field::Other => FieldView::Other,
        }
    }
}

/// An object as a mathematical value: its members, each a name and a value.
pub type ObjectView = Seq<(Seq<char>, FieldView)>;

/// The members of an object as mathematical values.
pub open spec fn object_view(members: Seq<(String, Field)>) -> ObjectView {
    Seq::new(members.len(), |i: int| (members[i].0@, members[i].1@))
}

/// The objects of an array as mathematical values.
pub open spec fn array_view(objects: Seq<Vec<(String, Field)>>) -> Seq<ObjectView> {
    Seq::new(objects.len(), |i: int| object_view(objects[i]@))
}

/// Whether no two members of the object share a name.
pub open spec fn names_distinct(object: ObjectView) -> bool {
    forall|i: int, j: int|
        0 <= i < j < object.len() ==> (#[trigger] object[i]).0 != (#[trigger] object[j]).0
}

/// Whether no object of the array has two members of one name.
pub open spec fn all_names_distinct(objects: Seq<ObjectView>) -> bool {
    forall|i: int| 0 <= i < objects.len() ==> names_distinct(#[trigger] objects[i])
}

/// Whether every member of the object holds a text or a whole number.
pub open spec fn members_plain(object: ObjectView) -> bool {
    forall|i: int| 0 <= i < object.len() ==> !((#[trigger] object[i]).1 is Other)
}

/// Whether every member of every object of the array holds a text or a whole
/// number.
pub open spec fn all_members_plain(objects: Seq<ObjectView>) -> bool {
    forall|i: int| 0 <= i < objects.len() ==> members_plain(#[trigger] objects[i])
}

/// The JSON text that `serde_json` writes for an object.
pub uninterp spec fn object_text(object: ObjectView) -> Seq<char>;

/// The object that `serde_json` reads from a text, where the text is one.
pub uninterp spec fn object_parsed(text: Seq<char>) -> Option<ObjectView>;

/// The JSON text that `serde_json` writes for an array of objects.
pub uninterp spec fn array_text(objects: Seq<ObjectView>) -> Seq<char>;

/// The objects that `serde_json` reads from a text, where the text is an
/// array of objects.
pub uninterp spec fn array_parsed(text: Seq<char>) -> Option<Seq<ObjectView>>;

/// Calls `serde_json::from_str` for a `Map<String, Value>`, which takes a JSON
/// object and nothing else, and hands out its members in the order of the
/// text. A map holds each name once.
#[verifier::external_body]
pub(crate) fn parse_object(text: &str) -> (parsed: Option<Vec<(String, Field)>>)
    ensures
        match parsed {
            Some(members) => object_parsed(text@) == Some(object_view(members@))
                && names_distinct(object_view(members@)),
            None => object_parsed(text@) is None,
        },
{
    let object: serde_json::Map<String, Value> = serde_json::from_str(text).ok()?;
    Some(object.into_iter().map(|(name, value)| (name, match value {
        Value::String(text) => Field::Text(text),
        Value::Number(number) => match number.as_i64() {
            Some(whole) => Field::Int(whole),
            None => Field::Other,
        },
        _ => Field::Other,
    })).collect())
}

/// Calls `serde_json::from_str` for a `Vec<Map<String, Value>>`, which takes a
/// JSON array whose items are all objects, and hands out the members of each
/// in the order of the text.
#[verifier::external_body]
pub(crate) fn parse_array(text: &str) -> (parsed: Option<Vec<Vec<(String, Field)>>>)
    ensures
        match parsed {
            Some(objects) => array_parsed(text@) == Some(array_view(objects@)),
            None => array_parsed(text@) is None,
        },
{
    let array: Vec<serde_json::Map<String, Value>> = serde_json::from_str(text).ok()?;
    Some(array.into_iter().map(|object| object.into_iter().map(|(name, value)| (name, match value {
        Value::String(text) => Field::Text(text),
        Value::Number(number) => match number.as_i64() {
            Some(whole) => Field::Int(whole),
            None => Field::Other,
        },
        _ => Field::Other,
    })).collect()).collect())
}

/// Writes the object with `serde_json`, through the `Display` of its `Value`:
/// the members in their order, each text as a JSON string and each whole
/// number as a JSON number. Read again, the text gives the same object, where
/// no two members share a name.
#[verifier::external_body]
pub(crate) fn render_object(members: &Vec<(String, Field)>) -> (text: String)
    requires
        members_plain(object_view(members@)),
    ensures
        text@ == object_text(object_view(members@)),
        names_distinct(object_view(members@)) ==> object_parsed(text@) == Some(
            object_view(members@),
        ),
{
    let object: serde_json::Map<String, Value> = members.iter().map(|(name, field)| (name.clone(), match field {
        Field::Text(text) => Value::from(text.as_str()),
        Field::Int(whole) => Value::from(*whole),
        Field::Other => Value::Null,
    })).collect();
    Value::Object(object).to_string()
}

/// Writes the array of objects with `serde_json`, through the `Display` of
/// its `Value`: the objects and their members in their order, each text as a
/// JSON string and each whole number as a JSON number. Read again, the text
/// gives the same objects, where none of them has two members of one name.
#[verifier::external_body]
pub(crate) fn render_array(objects: &Vec<Vec<(String, Field)>>) -> (text: String)
    requires
        all_members_plain(array_view(objects@)),
    ensures
        text@ == array_text(array_view(objects@)),
        all_names_distinct(array_view(objects@)) ==> array_parsed(text@) == Some(
            array_view(objects@),
        ),
{
    let object = |members: &Vec<(String, Field)>| members.iter().map(|(name, field)| (name.clone(), match field {
        Field::Text(text) => Value::from(text.as_str()),
        Field::Int(whole) => Value::from(*whole),
        Field::Other => Value::Null,
    })).collect::<serde_json::Map<String, Value>>();
    Value::Array(objects.iter().map(|members| Value::Object(object(members))).collect()).to_string()
}

} // verus!
