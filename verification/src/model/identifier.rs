//! Resource identifiers: a type plus a server `id` or a client-local `lid`.
use crate::error::{shape_error, Error, Result};
use crate::json::{
    lemma_obj_get_set, obj_set, opt_members, set_opt_object, write_opt_object, JValue,
    JsonObject, JsonValue, Meta,
};
use crate::record::{
    is_record, object_field, read_object_field, read_str_field, record_shape, slot, slot_of,
    str_field,
};
use crate::text::owned;
use vstd::prelude::*;

verus! {

/// Server-assigned `id` vs client-local `lid` (JSON:API 1.1).
#[non_exhaustive]
#[derive(Debug, Clone, PartialEq, Eq, Hash)]
pub enum Identity {
    /// Server-assigned identifier.
    Id(String),
    /// Client-generated local identifier (JSON:API 1.1).
    Lid(String),
}

impl Identity {
    /// `Some(&str)` for a server-assigned `Id`, `None` for `Lid`.
    pub fn as_id(&self) -> (r: Option<&str>)
        ensures
            match self {
                Identity::Id(id) => r matches Some(s) && s@ == id@,
                _ => r is None,
            },
    {
        match self {
            Identity::Id(id) => Some(id.as_str()),
            _ => None,
        }
    }

    /// `Some(&str)` for a client-local `Lid`, `None` for `Id`.
    pub fn as_lid(&self) -> (r: Option<&str>)
        ensures
            match self {
                Identity::Lid(lid) => r matches Some(s) && s@ == lid@,
                _ => r is None,
            },
    {
        match self {
            Identity::Lid(lid) => Some(lid.as_str()),
            _ => None,
        }
    }
}

impl Default for Identity {
    /// An empty server-assigned id — a scaffold for builder-style construction.
    fn default() -> (r: Self)
        ensures
            r matches Identity::Id(s) && s@.len() == 0,
    {
        Identity::Id(String::new())
    }
}

/// JSON:API resource identifier object.
#[derive(Debug, Clone, PartialEq)]
pub struct ResourceIdentifier {
    /// The JSON:API type string.
    pub type_: String,
    /// Server-assigned id or client-local lid.
    pub identity: Identity,
    /// Optional meta information.
    pub meta: Option<Meta>,
}

impl Default for ResourceIdentifier {
    /// An empty type with an empty server-assigned id and no meta.
    fn default() -> (r: Self)
        ensures
            r.type_@.len() == 0,
            r.identity matches Identity::Id(s) && s@.len() == 0,
            r.meta is None,
    {
        ResourceIdentifier { type_: String::new(), identity: Identity::default(), meta: None }
    }
}

impl ResourceIdentifier {
    /// Build a resource identifier for a server-assigned `id`.
    pub fn new(type_: &str, id: &str) -> (r: Self)
        ensures
            r.type_@ == type_@,
            r.identity matches Identity::Id(s) && s@ == id@,
            r.meta is None,
    {
        ResourceIdentifier { type_: owned(type_), identity: Identity::Id(owned(id)), meta: None }
    }

    /// Build a resource identifier for a client-local `lid` (JSON:API 1.1).
    pub fn with_lid(type_: &str, lid: &str) -> (r: Self)
        ensures
            r.type_@ == type_@,
            r.identity matches Identity::Lid(s) && s@ == lid@,
            r.meta is None,
    {
        ResourceIdentifier { type_: owned(type_), identity: Identity::Lid(owned(lid)), meta: None }
    }

    /// Server-assigned identifiers sharing one `type`, one per id, in order —
    /// the common shape of a to-many relationship's linkage.
    pub fn many(type_: &str, ids: &[&str]) -> (r: Vec<Self>)
        ensures
            r@.len() == ids@.len(),
            forall|i: int|
                0 <= i < r@.len() ==> (#[trigger] r@[i]).type_@ == type_@ && (r@[i].identity matches Identity::Id(
                    s,
                ) && s@ == ids@[i]@) && r@[i].meta is None,
    {
        let mut r: Vec<Self> = Vec::new();
        let mut i: usize = 0;
        while i < ids.len()
            invariant
                0 <= i <= ids@.len(),
                r@.len() == i,
                forall|j: int|
                    0 <= j < i ==> (#[trigger] r@[j]).type_@ == type_@ && (r@[j].identity matches Identity::Id(
                        s,
                    ) && s@ == ids@[j]@) && r@[j].meta is None,
            decreases ids@.len() - i,
        {
            r.push(ResourceIdentifier::new(type_, ids[i]));
            i += 1;
        }
        r
    }

    /// The server-assigned `id`, or [`Error::LidNotIndexed`] when this
    /// identifier carries only a client-local `lid`.
    pub fn require_id(&self) -> (r: Result<&str>)
        ensures
            match self.identity {
                Identity::Id(id) => r matches Ok(s) && s@ == id@,
                Identity::Lid(_) => r matches Err(e) && e is LidNotIndexed,
            },
    {
        match self.identity.as_id() {
            Some(id) => Ok(id),
            None => Err(Error::LidNotIndexed),
        }
    }
}

/// The JSON form of a resource identifier: `type`, then `id` or `lid`, then
/// `meta` when there is one.
pub open spec fn rid_json(r: ResourceIdentifier) -> JValue {
    let m0 = obj_set(Seq::empty(), "type"@, JValue::Str(r.type_@));
    let m1 = match r.identity {
        Identity::Id(id) => obj_set(m0, "id"@, JValue::Str(id@)),
        Identity::Lid(lid) => obj_set(m0, "lid"@, JValue::Str(lid@)),
    };
    JValue::Object(set_opt_object(m1, "meta"@, opt_members(r.meta)))
}

/// Whether a JSON value reads as a resource identifier: a record (an
/// object, or an array of `type`, `id`, `lid`, `meta` in that order, at
/// least the `type`) with a string `type`, exactly one of a string `id` and
/// a string `lid` (missing and `null` alike count as unset), and an
/// optional object `meta`.
pub open spec fn rid_valid(v: JValue) -> bool {
    &&& record_shape(v, 1, 4)
    &&& slot(v, "type"@, 0) matches Some(JValue::Str(_))
    &&& str_field(slot(v, "id"@, 1)) is Some
    &&& str_field(slot(v, "lid"@, 2)) is Some
    &&& (str_field(slot(v, "id"@, 1)).unwrap() is Some) != (str_field(slot(v, "lid"@, 2)).unwrap() is Some)
    &&& object_field(slot(v, "meta"@, 3)) is Some
}

/// Whether `r` is what the JSON value `v` reads as.
pub open spec fn rid_decodes(v: JValue, r: ResourceIdentifier) -> bool {
    &&& slot(v, "type"@, 0) == Some(JValue::Str(r.type_@))
    &&& match r.identity {
        Identity::Id(id) => str_field(slot(v, "id"@, 1)) == Some(Some(id@)),
        Identity::Lid(lid) => str_field(slot(v, "lid"@, 2)) == Some(Some(lid@)),
    }
    &&& object_field(slot(v, "meta"@, 3)) == Some(opt_members(r.meta))
}

/// The member names of identifiers differ from one another.
proof fn lemma_rid_names()
    ensures
        "type"@ != "id"@,
        "type"@ != "lid"@,
        "type"@ != "meta"@,
        "id"@ != "lid"@,
        "id"@ != "meta"@,
        "lid"@ != "meta"@,
{
    reveal_strlit("type");
    reveal_strlit("id");
    reveal_strlit("lid");
    reveal_strlit("meta");
    assert("type"@[0] != "meta"@[0]);
    assert("id"@[0] != "lid"@[0]);
}

/// Reading back the JSON form of an identifier gives the identifier.
pub proof fn lemma_rid_round_trip(r: ResourceIdentifier)
    ensures
        rid_valid(rid_json(r)),
        rid_decodes(rid_json(r), r),
{
    lemma_rid_names();
    let m0 = obj_set(Seq::empty(), "type"@, JValue::Str(r.type_@));
    let m1 = match r.identity {
        Identity::Id(id) => obj_set(m0, "id"@, JValue::Str(id@)),
        Identity::Lid(lid) => obj_set(m0, "lid"@, JValue::Str(lid@)),
    };
    let m2 = set_opt_object(m1, "meta"@, opt_members(r.meta));
    match opt_members(r.meta) {
        Some(x) => {
            lemma_obj_get_set(m1, "meta"@, JValue::Object(x), "type"@);
            lemma_obj_get_set(m1, "meta"@, JValue::Object(x), "id"@);
            lemma_obj_get_set(m1, "meta"@, JValue::Object(x), "lid"@);
            lemma_obj_get_set(m1, "meta"@, JValue::Object(x), "meta"@);
        },
        None => {},
    }
    lemma_obj_get_set(Seq::empty(), "type"@, JValue::Str(r.type_@), "type"@);
    lemma_obj_get_set(Seq::empty(), "type"@, JValue::Str(r.type_@), "id"@);
    lemma_obj_get_set(Seq::empty(), "type"@, JValue::Str(r.type_@), "lid"@);
    lemma_obj_get_set(Seq::empty(), "type"@, JValue::Str(r.type_@), "meta"@);
    match r.identity {
        Identity::Id(id) => {
            lemma_obj_get_set(m0, "id"@, JValue::Str(id@), "type"@);
            lemma_obj_get_set(m0, "id"@, JValue::Str(id@), "id"@);
            lemma_obj_get_set(m0, "id"@, JValue::Str(id@), "lid"@);
            lemma_obj_get_set(m0, "id"@, JValue::Str(id@), "meta"@);
        },
        Identity::Lid(lid) => {
            lemma_obj_get_set(m0, "lid"@, JValue::Str(lid@), "type"@);
            lemma_obj_get_set(m0, "lid"@, JValue::Str(lid@), "id"@);
            lemma_obj_get_set(m0, "lid"@, JValue::Str(lid@), "lid"@);
            lemma_obj_get_set(m0, "lid"@, JValue::Str(lid@), "meta"@);
        },
    }
}

impl ResourceIdentifier {
    /// The JSON form of the identifier.
    pub fn to_json(&self) -> (r: JsonValue)
        ensures
            r@ == rid_json(*self),
    {
        let mut o = JsonObject::new();
        o.insert(owned("type"), JsonValue::String(self.type_.clone()));
        match &self.identity {
            Identity::Id(id) => o.insert(owned("id"), JsonValue::String(id.clone())),
            Identity::Lid(lid) => o.insert(owned("lid"), JsonValue::String(lid.clone())),
        }
        write_opt_object(&mut o, "meta", &self.meta);
        JsonValue::Object(o)
    }

    /// Read an identifier from its JSON form; a value that does not read as
    /// one (see [`rid_valid`]) is a [`Error::Json`] shape error.
    pub fn from_json(v: &JsonValue) -> (r: Result<ResourceIdentifier>)
        ensures
            match r {
                Ok(x) => rid_valid(v@) && rid_decodes(v@, x),
                Err(e) => !rid_valid(v@) && e is Json,
            },
    {
        if !is_record(v, 1, 4) {
            return Err(shape_error("resource identifier must be an object or an array of its fields"));
        }
        let type_ = match slot_of(v, "type", 0) {
            Some(JsonValue::String(t)) => t.clone(),
            _ => return Err(shape_error("resource identifier must have a `type` string")),
        };
        let id = read_str_field(v, "id", 1)?;
        let lid = read_str_field(v, "lid", 2)?;
        let meta = read_object_field(v, "meta", 3)?;
        let identity = match (id, lid) {
            (Some(_), Some(_)) => {
                return Err(shape_error("resource identifier must not have both `id` and `lid`"));
            },
            (Some(id), None) => Identity::Id(id),
            (None, Some(lid)) => Identity::Lid(lid),
            (None, None) => {
                return Err(shape_error("resource identifier must have `id` or `lid`"));
            },
        };
        Ok(ResourceIdentifier { type_, identity, meta })
    }
}

} // verus!
