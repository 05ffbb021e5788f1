//! Reading a record: the fields of a struct-like JSON form are read from an
//! object by name, or from an array by position (fields in declaration
//! order, trailing fields that have a default possibly left out).
use crate::error::{shape_error, Result};
use crate::json::{
    copy_object, lemma_json_view_seq, obj_get, opt_members, opt_text, JValue, JsonObject,
    JsonValue,
};
use vstd::prelude::*;

verus! {

/// The value field `name`, at position `pos`, is read from: the member
/// `name` of an object, or the element at `pos` of an array.
pub open spec fn slot(v: JValue, name: Seq<char>, pos: int) -> Option<JValue> {
    match v {
        JValue::Object(m) => obj_get(m, name),
        JValue::Array(items) => if 0 <= pos < items.len() {
            Some(items[pos])
        } else {
            None
        },
        _ => None,
    }
}

/// Whether `v` has the shape of a record: an object, or an array of at
/// least `min` and at most `max` elements.
pub open spec fn record_shape(v: JValue, min: int, max: int) -> bool {
    match v {
        JValue::Object(_) => true,
        JValue::Array(items) => min <= items.len() <= max,
        _ => false,
    }
}

/// An optional field's value: unset when missing or `null`.
pub open spec fn present(o: Option<JValue>) -> Option<JValue> {
    match o {
        Some(JValue::Null) => None,
        x => x,
    }
}

/// An optional string field: `Some(None)` when unset, the string when it
/// is one, `None` (malformed) otherwise.
pub open spec fn str_field(o: Option<JValue>) -> Option<Option<Seq<char>>> {
    match present(o) {
        None => Some(None),
        Some(JValue::Str(s)) => Some(Some(s)),
        Some(_) => None,
    }
}

/// An optional object field: `Some(None)` when unset, the members when it
/// is an object, `None` (malformed) otherwise.
pub open spec fn object_field(o: Option<JValue>) -> Option<Option<Seq<(Seq<char>, JValue)>>> {
    match present(o) {
        None => Some(None),
        Some(JValue::Object(m)) => Some(Some(m)),
        Some(_) => None,
    }
}

/// Whether `v` has the shape of a record (see [`record_shape`]).
pub fn is_record(v: &JsonValue, min: usize, max: usize) -> (b: bool)
    ensures
        b == record_shape(v@, min as int, max as int),
{
    match v {
        JsonValue::Object(_) => true,
        JsonValue::Array(items) => {
            proof {
                lemma_json_view_seq(items@);
            }
            min <= items.len() && items.len() <= max
        },
        _ => false,
    }
}

/// The value field `name`, at position `pos`, is read from.
pub fn slot_of<'a>(v: &'a JsonValue, name: &str, pos: usize) -> (r: Option<&'a JsonValue>)
    ensures
        match r {
            Some(x) => slot(v@, name@, pos as int) == Some(x@),
            None => slot(v@, name@, pos as int) is None,
        },
{
    match v {
        JsonValue::Object(o) => o.get(name),
        JsonValue::Array(items) => {
            proof {
                lemma_json_view_seq(items@);
            }
            if pos < items.len() {
                Some(&items[pos])
            } else {
                None
            }
        },
        _ => None,
    }
}

/// Reads an optional string field; anything but a string, `null` or
/// nothing is a shape error.
pub fn read_str_field(v: &JsonValue, name: &str, pos: usize) -> (r: Result<Option<String>>)
    ensures
        match r {
            Ok(x) => str_field(slot(v@, name@, pos as int)) == Some(opt_text(x)),
            Err(e) => str_field(slot(v@, name@, pos as int)) is None && e is Json,
        },
{
    match slot_of(v, name, pos) {
        None => Ok(None),
        Some(JsonValue::Null) => Ok(None),
        Some(JsonValue::String(s)) => Ok(Some(s.clone())),
        Some(_) => Err(shape_error("expected a string")),
    }
}

/// Reads an optional object field; anything but an object, `null` or
/// nothing is a shape error.
pub fn read_object_field(v: &JsonValue, name: &str, pos: usize) -> (r: Result<Option<JsonObject>>)
    ensures
        match r {
            Ok(x) => object_field(slot(v@, name@, pos as int)) == Some(opt_members(x)),
            Err(e) => object_field(slot(v@, name@, pos as int)) is None && e is Json,
        },
{
    match slot_of(v, name, pos) {
        None => Ok(None),
        Some(JsonValue::Null) => Ok(None),
        Some(JsonValue::Object(m)) => Ok(Some(copy_object(m))),
        Some(_) => Err(shape_error("expected an object")),
    }
}

} // verus!
