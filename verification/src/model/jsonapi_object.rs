//! The top-level `jsonapi` member, with its JSON form.
use crate::error::{shape_error, Result};
use crate::json::{
    json_view, json_view_seq, lemma_json_view_seq, lemma_obj_get_set, obj_get, obj_set,
    opt_members, opt_text, set_opt_object, set_opt_str, write_opt_object, write_opt_str, JValue,
    JsonObject, JsonValue, Meta,
};
use crate::record::{
    is_record, object_field, present, read_object_field, read_str_field, record_shape, slot,
    slot_of, str_field,
};
use crate::text::owned;
use vstd::prelude::*;

verus! {

/// The `jsonapi` top-level member describing the server's implementation.
#[derive(Debug, Clone, PartialEq)]
pub struct JsonApiObject {
    /// The JSON:API version (e.g. `"1.1"`).
    pub version: Option<String>,
    /// Applied extension URIs.
    pub ext: Option<Vec<String>>,
    /// Applied profile URIs.
    pub profile: Option<Vec<String>>,
    /// Implementation-level meta information.
    pub meta: Option<Meta>,
}

impl Default for JsonApiObject {
    /// No version, extensions, profiles or meta.
    fn default() -> (r: Self)
        ensures
            r.version is None,
            r.ext is None,
            r.profile is None,
            r.meta is None,
    {
        JsonApiObject { version: None, ext: None, profile: None, meta: None }
    }
}

/// The JSON form of a list of strings.
pub open spec fn str_array(v: Vec<String>) -> JValue {
    JValue::Array(v@.map_values(|s: String| JValue::Str(s@)))
}

/// The views of an optional list of strings.
pub open spec fn opt_strs(o: Option<Vec<String>>) -> Option<Seq<Seq<char>>> {
    match o {
        Some(v) => Some(v@.map_values(|s: String| s@)),
        None => None,
    }
}

/// An optional list-of-strings field: `Some(None)` when missing or `null`,
/// the strings when it is an array of strings, `None` (malformed)
/// otherwise.
pub open spec fn strs_field(o: Option<JValue>) -> Option<Option<Seq<Seq<char>>>> {
    match present(o) {
        None => Some(None),
        Some(JValue::Array(items)) => if forall|i: int| 0 <= i < items.len() ==> (#[trigger] items[i]) is Str {
            Some(Some(items.map_values(|x: JValue| x->Str_0)))
        } else {
            None
        },
        Some(_) => None,
    }
}

/// The members of the JSON form of a `jsonapi` object: each member that is
/// present.
pub open spec fn jsonapi_members(o: JsonApiObject) -> Seq<(Seq<char>, JValue)> {
    let m0 = set_opt_str(Seq::empty(), "version"@, opt_text(o.version));
    let m1 = match o.ext {
        Some(x) => obj_set(m0, "ext"@, str_array(x)),
        None => m0,
    };
    let m2 = match o.profile {
        Some(x) => obj_set(m1, "profile"@, str_array(x)),
        None => m1,
    };
    set_opt_object(m2, "meta"@, opt_members(o.meta))
}

/// The JSON form of a `jsonapi` object.
pub open spec fn jsonapi_json(o: JsonApiObject) -> JValue {
    JValue::Object(jsonapi_members(o))
}

/// Whether a JSON value reads as a `jsonapi` object: a record (an object,
/// or an array of exactly `version`, `ext`, `profile`, `meta`) with an
/// optional string `version`, optional string arrays `ext` and `profile`
/// and an optional object `meta` (missing and `null` alike count as
/// unset).
pub open spec fn jsonapi_valid(v: JValue) -> bool {
    &&& record_shape(v, 4, 4)
    &&& str_field(slot(v, "version"@, 0)) is Some
    &&& strs_field(slot(v, "ext"@, 1)) is Some
    &&& strs_field(slot(v, "profile"@, 2)) is Some
    &&& object_field(slot(v, "meta"@, 3)) is Some
}

/// Whether `o` is what the JSON value `v` reads as.
pub open spec fn jsonapi_decodes(v: JValue, o: JsonApiObject) -> bool {
    &&& str_field(slot(v, "version"@, 0)) == Some(opt_text(o.version))
    &&& strs_field(slot(v, "ext"@, 1)) == Some(opt_strs(o.ext))
    &&& strs_field(slot(v, "profile"@, 2)) == Some(opt_strs(o.profile))
    &&& object_field(slot(v, "meta"@, 3)) == Some(opt_members(o.meta))
}

/// The JSON form of a list of strings.
fn strs_to_json(v: &Vec<String>) -> (r: JsonValue)
    ensures
        r@ == str_array(*v),
{
    let mut items: Vec<JsonValue> = Vec::new();
    let mut i: usize = 0;
    while i < v.len()
        invariant
            0 <= i <= v@.len(),
            json_view_seq(items@) == v@.take(i as int).map_values(|s: String| JValue::Str(s@)),
        decreases v@.len() - i,
    {
        let ghost before = items@;
        items.push(JsonValue::String(v[i].clone()));
        assert(items@.drop_last() =~= before);
        assert(items@.last() == JsonValue::String(v@[i as int]));
        assert(json_view(items@.last()) == JValue::Str(v@[i as int]@));
        assert(json_view_seq(items@) == json_view_seq(before).push(JValue::Str(v@[i as int]@)));
        assert(v@.take(i + 1).map_values(|s: String| JValue::Str(s@)) =~= v@.take(i as int).map_values(
            |s: String| JValue::Str(s@),
        ).push(JValue::Str(v@[i as int]@)));
        i += 1;
    }
    assert(v@.take(i as int) =~= v@);
    JsonValue::Array(items)
}

/// Reads an optional list-of-strings field.
fn read_strs_field(v: &JsonValue, key: &str, pos: usize) -> (r: Result<Option<Vec<String>>>)
    ensures
        match r {
            Ok(x) => strs_field(slot(v@, key@, pos as int)) == Some(opt_strs(x)),
            Err(e) => strs_field(slot(v@, key@, pos as int)) is None && e is Json,
        },
{
    match slot_of(v, key, pos) {
        None => Ok(None),
        Some(JsonValue::Null) => Ok(None),
        Some(JsonValue::Array(items)) => {
            proof {
                lemma_json_view_seq(items@);
            }
            let ghost iv = json_view_seq(items@);
            let mut out: Vec<String> = Vec::new();
            let mut i: usize = 0;
            while i < items.len()
                invariant
                    0 <= i <= items@.len(),
                    iv == json_view_seq(items@),
                    slot(v@, key@, pos as int) == Some(JValue::Array(iv)),
                    iv.len() == items@.len(),
                    forall|j: int| 0 <= j < items@.len() ==> #[trigger] iv[j] == items@[j]@,
                    out@.len() == i,
                    forall|j: int| 0 <= j < i ==> #[trigger] iv[j] == JValue::Str(out@[j]@),
                decreases items@.len() - i,
            {
                assert(iv[i as int] == items@[i as int]@);
                match &items[i] {
                    JsonValue::String(s) => out.push(s.clone()),
                    _ => {
                        assert(!(iv[i as int] is Str));
                        return Err(shape_error("expected an array of strings"));
                    },
                }
                i += 1;
            }
            assert(out@.map_values(|s: String| s@) =~= iv.map_values(|x: JValue| x->Str_0));
            Ok(Some(out))
        },
        Some(_) => Err(shape_error("expected an array of strings")),
    }
}

/// The member names of `jsonapi` objects differ from one another.
proof fn lemma_jsonapi_names()
    ensures
        "version"@ != "ext"@,
        "version"@ != "profile"@,
        "version"@ != "meta"@,
        "ext"@ != "profile"@,
        "ext"@ != "meta"@,
        "profile"@ != "meta"@,
{
    reveal_strlit("version");
    reveal_strlit("ext");
    reveal_strlit("profile");
    reveal_strlit("meta");
    assert("version"@.len() != "ext"@.len());
    assert("version"@[0] != "profile"@[0]);
    assert("version"@.len() != "meta"@.len());
    assert("ext"@.len() != "profile"@.len());
    assert("ext"@.len() != "meta"@.len());
    assert("profile"@.len() != "meta"@.len());
}

/// The members of the JSON form of a `jsonapi` object, member by member.
proof fn lemma_jsonapi_members(o: JsonApiObject)
    ensures
        str_field(obj_get(jsonapi_members(o), "version"@)) == Some(opt_text(o.version)),
        strs_field(obj_get(jsonapi_members(o), "ext"@)) == Some(opt_strs(o.ext)),
        strs_field(obj_get(jsonapi_members(o), "profile"@)) == Some(opt_strs(o.profile)),
        object_field(obj_get(jsonapi_members(o), "meta"@)) == Some(opt_members(o.meta)),
{
    lemma_jsonapi_names();
    let m0 = set_opt_str(Seq::empty(), "version"@, opt_text(o.version));
    let m1 = match o.ext {
        Some(x) => obj_set(m0, "ext"@, str_array(x)),
        None => m0,
    };
    let m2 = match o.profile {
        Some(x) => obj_set(m1, "profile"@, str_array(x)),
        None => m1,
    };
    if let Some(x) = opt_text(o.version) {
        lemma_obj_get_set(Seq::empty(), "version"@, JValue::Str(x), "version"@);
        lemma_obj_get_set(Seq::empty(), "version"@, JValue::Str(x), "ext"@);
        lemma_obj_get_set(Seq::empty(), "version"@, JValue::Str(x), "profile"@);
        lemma_obj_get_set(Seq::empty(), "version"@, JValue::Str(x), "meta"@);
    }
    if let Some(x) = o.ext {
        lemma_obj_get_set(m0, "ext"@, str_array(x), "version"@);
        lemma_obj_get_set(m0, "ext"@, str_array(x), "ext"@);
        lemma_obj_get_set(m0, "ext"@, str_array(x), "profile"@);
        lemma_obj_get_set(m0, "ext"@, str_array(x), "meta"@);
    }
    if let Some(x) = o.profile {
        lemma_obj_get_set(m1, "profile"@, str_array(x), "version"@);
        lemma_obj_get_set(m1, "profile"@, str_array(x), "ext"@);
        lemma_obj_get_set(m1, "profile"@, str_array(x), "profile"@);
        lemma_obj_get_set(m1, "profile"@, str_array(x), "meta"@);
    }
    if let Some(x) = opt_members(o.meta) {
        lemma_obj_get_set(m2, "meta"@, JValue::Object(x), "version"@);
        lemma_obj_get_set(m2, "meta"@, JValue::Object(x), "ext"@);
        lemma_obj_get_set(m2, "meta"@, JValue::Object(x), "profile"@);
        lemma_obj_get_set(m2, "meta"@, JValue::Object(x), "meta"@);
    }
    if let Some(x) = o.ext {
        assert(x@.map_values(|s: String| s@) =~= x@.map_values(|s: String| JValue::Str(s@)).map_values(
            |j: JValue| j->Str_0,
        ));
    }
    if let Some(x) = o.profile {
        assert(x@.map_values(|s: String| s@) =~= x@.map_values(|s: String| JValue::Str(s@)).map_values(
            |j: JValue| j->Str_0,
        ));
    }
}

/// Reading back the JSON form of a `jsonapi` object gives the object.
pub proof fn lemma_jsonapi_round_trip(o: JsonApiObject)
    ensures
        jsonapi_valid(jsonapi_json(o)),
        jsonapi_decodes(jsonapi_json(o), o),
{
    lemma_jsonapi_members(o);
}

impl JsonApiObject {
    /// The JSON form of the object.
    pub fn to_json(&self) -> (r: JsonValue)
        ensures
            r@ == jsonapi_json(*self),
    {
        let mut m = JsonObject::new();
        write_opt_str(&mut m, "version", &self.version);
        match &self.ext {
            Some(x) => m.insert(owned("ext"), strs_to_json(x)),
            None => {},
        }
        match &self.profile {
            Some(x) => m.insert(owned("profile"), strs_to_json(x)),
            None => {},
        }
        write_opt_object(&mut m, "meta", &self.meta);
        JsonValue::Object(m)
    }

    /// Read a `jsonapi` object from its JSON form (see [`jsonapi_valid`]);
    /// anything else is a shape error.
    pub fn from_json(v: &JsonValue) -> (r: Result<JsonApiObject>)
        ensures
            match r {
                Ok(x) => jsonapi_valid(v@) && jsonapi_decodes(v@, x),
                Err(e) => !jsonapi_valid(v@) && e is Json,
            },
    {
        if !is_record(v, 4, 4) {
            return Err(shape_error("`jsonapi` must be an object or an array of its fields"));
        }
        let version = read_str_field(v, "version", 0)?;
        let ext = read_strs_field(v, "ext", 1)?;
        let profile = read_strs_field(v, "profile", 2)?;
        let meta = read_object_field(v, "meta", 3)?;
        Ok(JsonApiObject { version, ext, profile, meta })
    }
}

} // verus!
