//! Error objects, with their JSON form.
use crate::error::{shape_error, Result};
use crate::json::{
    lemma_obj_get_set, member_present, obj_set, object_member, opt_members, opt_text,
    set_opt_object, set_opt_str, str_member, write_opt_object, write_opt_str, JValue,
    JsonObject, JsonValue, Meta,
};
use crate::model::link::{lemma_link_round_trip, link_decodes, link_json, link_valid, Link};
use crate::record::{
    is_record, object_field, present, read_object_field, read_str_field, record_shape, slot,
    slot_of, str_field,
};
use crate::text::owned;
use vstd::prelude::*;

verus! {

/// Source of a JSON:API error.
#[derive(Debug, Clone, PartialEq)]
pub struct ErrorSource {
    /// A JSON pointer (RFC 6901) to the value in the request document that
    /// caused the error.
    pub pointer: Option<String>,
    /// The name of the query parameter that caused the error.
    pub parameter: Option<String>,
    /// The name of the request header that caused the error.
    pub header: Option<String>,
}

/// Links specific to an error object.
#[derive(Debug, Clone, PartialEq)]
pub struct ErrorLinks {
    /// A link that leads to further details about the error.
    pub about: Option<Link>,
    /// A link that identifies the type of error (RFC 7807).
    pub type_: Option<Link>,
}

/// A JSON:API error object.
#[derive(Debug, Clone, PartialEq)]
pub struct ApiError {
    /// A unique identifier for this particular occurrence of the error.
    pub id: Option<String>,
    /// Links related to the error.
    pub links: Option<ErrorLinks>,
    /// The HTTP status code applicable to the error, as a string.
    pub status: Option<String>,
    /// An application-specific error code.
    pub code: Option<String>,
    /// A short, human-readable summary of the error.
    pub title: Option<String>,
    /// A human-readable explanation specific to this occurrence.
    pub detail: Option<String>,
    /// An object indicating the source of the error.
    pub source: Option<ErrorSource>,
    /// Error-level meta information.
    pub meta: Option<Meta>,
}

impl Default for ErrorSource {
    /// No pointer, parameter or header.
    fn default() -> (r: Self)
        ensures
            r.pointer is None,
            r.parameter is None,
            r.header is None,
    {
        ErrorSource { pointer: None, parameter: None, header: None }
    }
}

impl Default for ErrorLinks {
    /// No links.
    fn default() -> (r: Self)
        ensures
            r.about is None,
            r.type_ is None,
    {
        ErrorLinks { about: None, type_: None }
    }
}

impl Default for ApiError {
    /// An error object with no members.
    fn default() -> (r: Self)
        ensures
            r.id is None,
            r.links is None,
            r.status is None,
            r.code is None,
            r.title is None,
            r.detail is None,
            r.source is None,
            r.meta is None,
    {
        ApiError {
            id: None,
            links: None,
            status: None,
            code: None,
            title: None,
            detail: None,
            source: None,
            meta: None,
        }
    }
}

/// The members of an error source's JSON form: each that is present.
pub open spec fn error_source_members(s: ErrorSource) -> Seq<(Seq<char>, JValue)> {
    let m0 = set_opt_str(Seq::empty(), "pointer"@, opt_text(s.pointer));
    let m1 = set_opt_str(m0, "parameter"@, opt_text(s.parameter));
    set_opt_str(m1, "header"@, opt_text(s.header))
}

/// The JSON form of an error source.
pub open spec fn error_source_json(s: ErrorSource) -> JValue {
    JValue::Object(error_source_members(s))
}

/// Whether a JSON value reads as an error source: a record (an object, or
/// an array of exactly `pointer`, `parameter`, `header`) of optional
/// strings.
pub open spec fn error_source_valid(v: JValue) -> bool {
    &&& record_shape(v, 3, 3)
    &&& str_field(slot(v, "pointer"@, 0)) is Some
    &&& str_field(slot(v, "parameter"@, 1)) is Some
    &&& str_field(slot(v, "header"@, 2)) is Some
}

/// Whether `s` is what the JSON value `v` reads as.
pub open spec fn error_source_decodes(v: JValue, s: ErrorSource) -> bool {
    &&& str_field(slot(v, "pointer"@, 0)) == Some(opt_text(s.pointer))
    &&& str_field(slot(v, "parameter"@, 1)) == Some(opt_text(s.parameter))
    &&& str_field(slot(v, "header"@, 2)) == Some(opt_text(s.header))
}

/// The members of an error's links' JSON form: each that is present.
pub open spec fn error_links_members(l: ErrorLinks) -> Seq<(Seq<char>, JValue)> {
    let m0 = match l.about {
        Some(x) => obj_set(Seq::empty(), "about"@, link_json(x)),
        None => Seq::empty(),
    };
    match l.type_ {
        Some(x) => obj_set(m0, "type"@, link_json(x)),
        None => m0,
    }
}

/// The JSON form of an error's links.
pub open spec fn error_links_json(l: ErrorLinks) -> JValue {
    JValue::Object(error_links_members(l))
}

/// Whether an optional link field reads well.
pub open spec fn opt_link_valid(o: Option<JValue>) -> bool {
    match present(o) {
        None => true,
        Some(x) => link_valid(x),
    }
}

/// Whether `l` is what an optional link field reads as.
pub open spec fn opt_link_decodes(o: Option<JValue>, l: Option<Link>) -> bool {
    match present(o) {
        None => l is None,
        Some(x) => l matches Some(k) && link_decodes(x, k),
    }
}

/// Whether a JSON value reads as an error's links: a record (an object, or
/// an array of exactly `about`, `type`) of optional links.
pub open spec fn error_links_valid(v: JValue) -> bool {
    &&& record_shape(v, 2, 2)
    &&& opt_link_valid(slot(v, "about"@, 0))
    &&& opt_link_valid(slot(v, "type"@, 1))
}

/// Whether `l` is what the JSON value `v` reads as.
pub open spec fn error_links_decodes(v: JValue, l: ErrorLinks) -> bool {
    &&& opt_link_decodes(slot(v, "about"@, 0), l.about)
    &&& opt_link_decodes(slot(v, "type"@, 1), l.type_)
}

/// The members of an error object's JSON form: each that is present.
pub open spec fn api_error_members(e: ApiError) -> Seq<(Seq<char>, JValue)> {
    let m0 = set_opt_str(Seq::empty(), "id"@, opt_text(e.id));
    let m1 = match e.links {
        Some(x) => obj_set(m0, "links"@, error_links_json(x)),
        None => m0,
    };
    let m2 = set_opt_str(m1, "status"@, opt_text(e.status));
    let m3 = set_opt_str(m2, "code"@, opt_text(e.code));
    let m4 = set_opt_str(m3, "title"@, opt_text(e.title));
    let m5 = set_opt_str(m4, "detail"@, opt_text(e.detail));
    let m6 = match e.source {
        Some(x) => obj_set(m5, "source"@, error_source_json(x)),
        None => m5,
    };
    set_opt_object(m6, "meta"@, opt_members(e.meta))
}

/// The JSON form of an error object.
pub open spec fn api_error_json(e: ApiError) -> JValue {
    JValue::Object(api_error_members(e))
}

/// Whether a JSON value reads as an error object: a record (an object, or
/// an array of exactly `id`, `links`, `status`, `code`, `title`, `detail`,
/// `source`, `meta`) with optional strings `id`, `status`, `code`,
/// `title`, `detail`, optional `links` and `source` that read well, and an
/// optional object `meta` (missing and `null` alike count as unset).
pub open spec fn api_error_valid(v: JValue) -> bool {
    &&& record_shape(v, 8, 8)
    &&& str_field(slot(v, "id"@, 0)) is Some
    &&& match present(slot(v, "links"@, 1)) {
        None => true,
        Some(x) => error_links_valid(x),
    }
    &&& str_field(slot(v, "status"@, 2)) is Some
    &&& str_field(slot(v, "code"@, 3)) is Some
    &&& str_field(slot(v, "title"@, 4)) is Some
    &&& str_field(slot(v, "detail"@, 5)) is Some
    &&& match present(slot(v, "source"@, 6)) {
        None => true,
        Some(x) => error_source_valid(x),
    }
    &&& object_field(slot(v, "meta"@, 7)) is Some
}

/// Whether `e` is what the JSON value `v` reads as.
pub open spec fn api_error_decodes(v: JValue, e: ApiError) -> bool {
    &&& str_field(slot(v, "id"@, 0)) == Some(opt_text(e.id))
    &&& match present(slot(v, "links"@, 1)) {
        None => e.links is None,
        Some(x) => e.links matches Some(l) && error_links_decodes(x, l),
    }
    &&& str_field(slot(v, "status"@, 2)) == Some(opt_text(e.status))
    &&& str_field(slot(v, "code"@, 3)) == Some(opt_text(e.code))
    &&& str_field(slot(v, "title"@, 4)) == Some(opt_text(e.title))
    &&& str_field(slot(v, "detail"@, 5)) == Some(opt_text(e.detail))
    &&& match present(slot(v, "source"@, 6)) {
        None => e.source is None,
        Some(x) => e.source matches Some(s) && error_source_decodes(x, s),
    }
    &&& object_field(slot(v, "meta"@, 7)) == Some(opt_members(e.meta))
}

/// Reads an optional link field.
fn read_link_field(v: &JsonValue, key: &str, pos: usize) -> (r: Result<Option<Link>>)
    ensures
        match r {
            Ok(x) => opt_link_valid(slot(v@, key@, pos as int)) && opt_link_decodes(
                slot(v@, key@, pos as int),
                x,
            ),
            Err(e) => !opt_link_valid(slot(v@, key@, pos as int)) && e is Json,
        },
{
    match slot_of(v, key, pos) {
        None => Ok(None),
        Some(JsonValue::Null) => Ok(None),
        Some(v) => Ok(Some(Link::from_json(v)?)),
    }
}

impl ErrorSource {
    /// The JSON form of the error source.
    pub fn to_json(&self) -> (r: JsonValue)
        ensures
            r@ == error_source_json(*self),
    {
        let mut m = JsonObject::new();
        write_opt_str(&mut m, "pointer", &self.pointer);
        write_opt_str(&mut m, "parameter", &self.parameter);
        write_opt_str(&mut m, "header", &self.header);
        JsonValue::Object(m)
    }

    /// Read an error source from its JSON form; anything else is a shape
    /// error.
    pub fn from_json(v: &JsonValue) -> (r: Result<ErrorSource>)
        ensures
            match r {
                Ok(x) => error_source_valid(v@) && error_source_decodes(v@, x),
                Err(e) => !error_source_valid(v@) && e is Json,
            },
    {
        if !is_record(v, 3, 3) {
            return Err(shape_error("error source must be an object or an array of its fields"));
        }
        let pointer = read_str_field(v, "pointer", 0)?;
        let parameter = read_str_field(v, "parameter", 1)?;
        let header = read_str_field(v, "header", 2)?;
        Ok(ErrorSource { pointer, parameter, header })
    }
}

impl ErrorLinks {
    /// The JSON form of the error's links.
    pub fn to_json(&self) -> (r: JsonValue)
        ensures
            r@ == error_links_json(*self),
    {
        let mut m = JsonObject::new();
        match &self.about {
            Some(l) => m.insert(owned("about"), l.to_json()),
            None => {},
        }
        match &self.type_ {
            Some(l) => m.insert(owned("type"), l.to_json()),
            None => {},
        }
        JsonValue::Object(m)
    }

    /// Read an error's links from their JSON form; anything else is a shape
    /// error.
    pub fn from_json(v: &JsonValue) -> (r: Result<ErrorLinks>)
        ensures
            match r {
                Ok(x) => error_links_valid(v@) && error_links_decodes(v@, x),
                Err(e) => !error_links_valid(v@) && e is Json,
            },
    {
        if !is_record(v, 2, 2) {
            return Err(shape_error("error links must be an object or an array of its fields"));
        }
        let about = read_link_field(v, "about", 0)?;
        let type_ = read_link_field(v, "type", 1)?;
        Ok(ErrorLinks { about, type_ })
    }
}

impl ApiError {
    /// The JSON form of the error object.
    pub fn to_json(&self) -> (r: JsonValue)
        ensures
            r@ == api_error_json(*self),
    {
        let mut m = JsonObject::new();
        write_opt_str(&mut m, "id", &self.id);
        match &self.links {
            Some(l) => m.insert(owned("links"), l.to_json()),
            None => {},
        }
        write_opt_str(&mut m, "status", &self.status);
        write_opt_str(&mut m, "code", &self.code);
        write_opt_str(&mut m, "title", &self.title);
        write_opt_str(&mut m, "detail", &self.detail);
        match &self.source {
            Some(s) => m.insert(owned("source"), s.to_json()),
            None => {},
        }
        write_opt_object(&mut m, "meta", &self.meta);
        JsonValue::Object(m)
    }

    /// Read an error object from its JSON form (see [`api_error_valid`]);
    /// anything else is a shape error.
    pub fn from_json(v: &JsonValue) -> (r: Result<ApiError>)
        ensures
            match r {
                Ok(x) => api_error_valid(v@) && api_error_decodes(v@, x),
                Err(e) => !api_error_valid(v@) && e is Json,
            },
    {
        if !is_record(v, 8, 8) {
            return Err(shape_error("error object must be an object or an array of its fields"));
        }
        let id = read_str_field(v, "id", 0)?;
        let links = match slot_of(v, "links", 1) {
            None => None,
            Some(JsonValue::Null) => None,
            Some(l) => Some(ErrorLinks::from_json(l)?),
        };
        let status = read_str_field(v, "status", 2)?;
        let code = read_str_field(v, "code", 3)?;
        let title = read_str_field(v, "title", 4)?;
        let detail = read_str_field(v, "detail", 5)?;
        let source = match slot_of(v, "source", 6) {
            None => None,
            Some(JsonValue::Null) => None,
            Some(s) => Some(ErrorSource::from_json(s)?),
        };
        let meta = read_object_field(v, "meta", 7)?;
        Ok(ApiError { id, links, status, code, title, detail, source, meta })
    }
}

/// The member names of error sources differ from one another.
proof fn lemma_error_source_names()
    ensures
        "pointer"@ != "parameter"@,
        "pointer"@ != "header"@,
        "parameter"@ != "header"@,
{
    reveal_strlit("pointer");
    reveal_strlit("parameter");
    reveal_strlit("header");
    assert("pointer"@.len() != "parameter"@.len());
    assert("pointer"@.len() != "header"@.len());
    assert("parameter"@.len() != "header"@.len());
}

/// The member names of error links differ from one another.
proof fn lemma_error_links_names()
    ensures
        "about"@ != "type"@,
{
    reveal_strlit("about");
    reveal_strlit("type");
    assert("about"@.len() != "type"@.len());
}

/// The member names of error objects differ from one another.
proof fn lemma_api_error_names()
    ensures
        "id"@ != "links"@,
        "id"@ != "status"@,
        "id"@ != "code"@,
        "id"@ != "title"@,
        "id"@ != "detail"@,
        "id"@ != "source"@,
        "id"@ != "meta"@,
        "links"@ != "status"@,
        "links"@ != "code"@,
        "links"@ != "title"@,
        "links"@ != "detail"@,
        "links"@ != "source"@,
        "links"@ != "meta"@,
        "status"@ != "code"@,
        "status"@ != "title"@,
        "status"@ != "detail"@,
        "status"@ != "source"@,
        "status"@ != "meta"@,
        "code"@ != "title"@,
        "code"@ != "detail"@,
        "code"@ != "source"@,
        "code"@ != "meta"@,
        "title"@ != "detail"@,
        "title"@ != "source"@,
        "title"@ != "meta"@,
        "detail"@ != "source"@,
        "detail"@ != "meta"@,
        "source"@ != "meta"@,
{
    reveal_strlit("id");
    reveal_strlit("links");
    reveal_strlit("status");
    reveal_strlit("code");
    reveal_strlit("title");
    reveal_strlit("detail");
    reveal_strlit("source");
    reveal_strlit("meta");
    assert("id"@.len() != "links"@.len());
    assert("id"@.len() != "status"@.len());
    assert("id"@.len() != "code"@.len());
    assert("id"@.len() != "title"@.len());
    assert("id"@.len() != "detail"@.len());
    assert("id"@.len() != "source"@.len());
    assert("id"@.len() != "meta"@.len());
    assert("links"@.len() != "status"@.len());
    assert("links"@.len() != "code"@.len());
    assert("links"@[0] != "title"@[0]);
    assert("links"@.len() != "detail"@.len());
    assert("links"@.len() != "source"@.len());
    assert("links"@.len() != "meta"@.len());
    assert("status"@.len() != "code"@.len());
    assert("status"@.len() != "title"@.len());
    assert("status"@[0] != "detail"@[0]);
    assert("status"@[1] != "source"@[1]);
    assert("status"@.len() != "meta"@.len());
    assert("code"@.len() != "title"@.len());
    assert("code"@.len() != "detail"@.len());
    assert("code"@.len() != "source"@.len());
    assert("code"@[0] != "meta"@[0]);
    assert("title"@.len() != "detail"@.len());
    assert("title"@.len() != "source"@.len());
    assert("title"@.len() != "meta"@.len());
    assert("detail"@[0] != "source"@[0]);
    assert("detail"@.len() != "meta"@.len());
    assert("source"@.len() != "meta"@.len());
}

/// Reading back the JSON form of an error source gives the source.
pub proof fn lemma_error_source_round_trip(s: ErrorSource)
    ensures
        error_source_valid(error_source_json(s)),
        error_source_decodes(error_source_json(s), s),
{
    lemma_error_source_names();
    let m0 = set_opt_str(Seq::empty(), "pointer"@, opt_text(s.pointer));
    let m1 = set_opt_str(m0, "parameter"@, opt_text(s.parameter));
    if let Some(x) = opt_text(s.pointer) {
        lemma_obj_get_set(Seq::empty(), "pointer"@, JValue::Str(x), "pointer"@);
        lemma_obj_get_set(Seq::empty(), "pointer"@, JValue::Str(x), "parameter"@);
        lemma_obj_get_set(Seq::empty(), "pointer"@, JValue::Str(x), "header"@);
    }
    if let Some(x) = opt_text(s.parameter) {
        lemma_obj_get_set(m0, "parameter"@, JValue::Str(x), "pointer"@);
        lemma_obj_get_set(m0, "parameter"@, JValue::Str(x), "parameter"@);
        lemma_obj_get_set(m0, "parameter"@, JValue::Str(x), "header"@);
    }
    if let Some(x) = opt_text(s.header) {
        lemma_obj_get_set(m1, "header"@, JValue::Str(x), "pointer"@);
        lemma_obj_get_set(m1, "header"@, JValue::Str(x), "parameter"@);
        lemma_obj_get_set(m1, "header"@, JValue::Str(x), "header"@);
    }
}

/// Reading back the JSON form of an error's links gives the links.
pub proof fn lemma_error_links_round_trip(l: ErrorLinks)
    ensures
        error_links_valid(error_links_json(l)),
        error_links_decodes(error_links_json(l), l),
{
    lemma_error_links_names();
    let m0 = match l.about {
        Some(x) => obj_set(Seq::empty(), "about"@, link_json(x)),
        None => Seq::empty(),
    };
    if let Some(x) = l.about {
        lemma_obj_get_set(Seq::empty(), "about"@, link_json(x), "about"@);
        lemma_obj_get_set(Seq::empty(), "about"@, link_json(x), "type"@);
    }
    if let Some(x) = l.type_ {
        lemma_obj_get_set(m0, "type"@, link_json(x), "about"@);
        lemma_obj_get_set(m0, "type"@, link_json(x), "type"@);
    }
    if let Some(x) = l.about {
        lemma_link_round_trip(x);
    }
    if let Some(x) = l.type_ {
        lemma_link_round_trip(x);
    }
}

/// The members of an error object's JSON form, member by member.
proof fn lemma_api_error_members(e: ApiError)
    ensures
        str_member(api_error_members(e), "id"@) == Some(opt_text(e.id)),
        member_present(api_error_members(e), "links"@) == match e.links {
            Some(x) => Some(error_links_json(x)),
            None => None::<JValue>,
        },
        str_member(api_error_members(e), "status"@) == Some(opt_text(e.status)),
        str_member(api_error_members(e), "code"@) == Some(opt_text(e.code)),
        str_member(api_error_members(e), "title"@) == Some(opt_text(e.title)),
        str_member(api_error_members(e), "detail"@) == Some(opt_text(e.detail)),
        member_present(api_error_members(e), "source"@) == match e.source {
            Some(x) => Some(error_source_json(x)),
            None => None::<JValue>,
        },
        object_member(api_error_members(e), "meta"@) == Some(opt_members(e.meta)),
{
    lemma_api_error_member_id(e);
    lemma_api_error_member_links(e);
    lemma_api_error_member_status(e);
    lemma_api_error_member_code(e);
    lemma_api_error_member_title(e);
    lemma_api_error_member_detail(e);
    lemma_api_error_member_source(e);
    lemma_api_error_member_meta(e);
}

/// The `id` member of an error object's JSON form.
proof fn lemma_api_error_member_id(e: ApiError)
    ensures
        str_member(api_error_members(e), "id"@) == Some(opt_text(e.id)),
{
    lemma_api_error_names();
    let m0 = set_opt_str(Seq::empty(), "id"@, opt_text(e.id));
    let m1 = match e.links {
        Some(x) => obj_set(m0, "links"@, error_links_json(x)),
        None => m0,
    };
    let m2 = set_opt_str(m1, "status"@, opt_text(e.status));
    let m3 = set_opt_str(m2, "code"@, opt_text(e.code));
    let m4 = set_opt_str(m3, "title"@, opt_text(e.title));
    let m5 = set_opt_str(m4, "detail"@, opt_text(e.detail));
    let m6 = match e.source {
        Some(x) => obj_set(m5, "source"@, error_source_json(x)),
        None => m5,
    };
    if let Some(x) = opt_text(e.id) {
        lemma_obj_get_set(Seq::empty(), "id"@, JValue::Str(x), "id"@);
    }
    if let Some(x) = e.links {
        lemma_obj_get_set(m0, "links"@, error_links_json(x), "id"@);
    }
    if let Some(x) = opt_text(e.status) {
        lemma_obj_get_set(m1, "status"@, JValue::Str(x), "id"@);
    }
    if let Some(x) = opt_text(e.code) {
        lemma_obj_get_set(m2, "code"@, JValue::Str(x), "id"@);
    }
    if let Some(x) = opt_text(e.title) {
        lemma_obj_get_set(m3, "title"@, JValue::Str(x), "id"@);
    }
    if let Some(x) = opt_text(e.detail) {
        lemma_obj_get_set(m4, "detail"@, JValue::Str(x), "id"@);
    }
    if let Some(x) = e.source {
        lemma_obj_get_set(m5, "source"@, error_source_json(x), "id"@);
    }
    if let Some(x) = opt_members(e.meta) {
        lemma_obj_get_set(m6, "meta"@, JValue::Object(x), "id"@);
    }
}

/// The `links` member of an error object's JSON form.
proof fn lemma_api_error_member_links(e: ApiError)
    ensures
        member_present(api_error_members(e), "links"@) == match e.links {
            Some(x) => Some(error_links_json(x)),
            None => None::<JValue>,
        },
{
    lemma_api_error_names();
    let m0 = set_opt_str(Seq::empty(), "id"@, opt_text(e.id));
    let m1 = match e.links {
        Some(x) => obj_set(m0, "links"@, error_links_json(x)),
        None => m0,
    };
    let m2 = set_opt_str(m1, "status"@, opt_text(e.status));
    let m3 = set_opt_str(m2, "code"@, opt_text(e.code));
    let m4 = set_opt_str(m3, "title"@, opt_text(e.title));
    let m5 = set_opt_str(m4, "detail"@, opt_text(e.detail));
    let m6 = match e.source {
        Some(x) => obj_set(m5, "source"@, error_source_json(x)),
        None => m5,
    };
    if let Some(x) = opt_text(e.id) {
        lemma_obj_get_set(Seq::empty(), "id"@, JValue::Str(x), "links"@);
    }
    if let Some(x) = e.links {
        lemma_obj_get_set(m0, "links"@, error_links_json(x), "links"@);
    }
    if let Some(x) = opt_text(e.status) {
        lemma_obj_get_set(m1, "status"@, JValue::Str(x), "links"@);
    }
    if let Some(x) = opt_text(e.code) {
        lemma_obj_get_set(m2, "code"@, JValue::Str(x), "links"@);
    }
    if let Some(x) = opt_text(e.title) {
        lemma_obj_get_set(m3, "title"@, JValue::Str(x), "links"@);
    }
    if let Some(x) = opt_text(e.detail) {
        lemma_obj_get_set(m4, "detail"@, JValue::Str(x), "links"@);
    }
    if let Some(x) = e.source {
        lemma_obj_get_set(m5, "source"@, error_source_json(x), "links"@);
    }
    if let Some(x) = opt_members(e.meta) {
        lemma_obj_get_set(m6, "meta"@, JValue::Object(x), "links"@);
    }
}

/// The `status` member of an error object's JSON form.
proof fn lemma_api_error_member_status(e: ApiError)
    ensures
        str_member(api_error_members(e), "status"@) == Some(opt_text(e.status)),
{
    lemma_api_error_names();
    let m0 = set_opt_str(Seq::empty(), "id"@, opt_text(e.id));
    let m1 = match e.links {
        Some(x) => obj_set(m0, "links"@, error_links_json(x)),
        None => m0,
    };
    let m2 = set_opt_str(m1, "status"@, opt_text(e.status));
    let m3 = set_opt_str(m2, "code"@, opt_text(e.code));
    let m4 = set_opt_str(m3, "title"@, opt_text(e.title));
    let m5 = set_opt_str(m4, "detail"@, opt_text(e.detail));
    let m6 = match e.source {
        Some(x) => obj_set(m5, "source"@, error_source_json(x)),
        None => m5,
    };
    if let Some(x) = opt_text(e.id) {
        lemma_obj_get_set(Seq::empty(), "id"@, JValue::Str(x), "status"@);
    }
    if let Some(x) = e.links {
        lemma_obj_get_set(m0, "links"@, error_links_json(x), "status"@);
    }
    if let Some(x) = opt_text(e.status) {
        lemma_obj_get_set(m1, "status"@, JValue::Str(x), "status"@);
    }
    if let Some(x) = opt_text(e.code) {
        lemma_obj_get_set(m2, "code"@, JValue::Str(x), "status"@);
    }
    if let Some(x) = opt_text(e.title) {
        lemma_obj_get_set(m3, "title"@, JValue::Str(x), "status"@);
    }
    if let Some(x) = opt_text(e.detail) {
        lemma_obj_get_set(m4, "detail"@, JValue::Str(x), "status"@);
    }
    if let Some(x) = e.source {
        lemma_obj_get_set(m5, "source"@, error_source_json(x), "status"@);
    }
    if let Some(x) = opt_members(e.meta) {
        lemma_obj_get_set(m6, "meta"@, JValue::Object(x), "status"@);
    }
}

/// The `code` member of an error object's JSON form.
proof fn lemma_api_error_member_code(e: ApiError)
    ensures
        str_member(api_error_members(e), "code"@) == Some(opt_text(e.code)),
{
    lemma_api_error_names();
    let m0 = set_opt_str(Seq::empty(), "id"@, opt_text(e.id));
    let m1 = match e.links {
        Some(x) => obj_set(m0, "links"@, error_links_json(x)),
        None => m0,
    };
    let m2 = set_opt_str(m1, "status"@, opt_text(e.status));
    let m3 = set_opt_str(m2, "code"@, opt_text(e.code));
    let m4 = set_opt_str(m3, "title"@, opt_text(e.title));
    let m5 = set_opt_str(m4, "detail"@, opt_text(e.detail));
    let m6 = match e.source {
        Some(x) => obj_set(m5, "source"@, error_source_json(x)),
        None => m5,
    };
    if let Some(x) = opt_text(e.id) {
        lemma_obj_get_set(Seq::empty(), "id"@, JValue::Str(x), "code"@);
    }
    if let Some(x) = e.links {
        lemma_obj_get_set(m0, "links"@, error_links_json(x), "code"@);
    }
    if let Some(x) = opt_text(e.status) {
        lemma_obj_get_set(m1, "status"@, JValue::Str(x), "code"@);
    }
    if let Some(x) = opt_text(e.code) {
        lemma_obj_get_set(m2, "code"@, JValue::Str(x), "code"@);
    }
    if let Some(x) = opt_text(e.title) {
        lemma_obj_get_set(m3, "title"@, JValue::Str(x), "code"@);
    }
    if let Some(x) = opt_text(e.detail) {
        lemma_obj_get_set(m4, "detail"@, JValue::Str(x), "code"@);
    }
    if let Some(x) = e.source {
        lemma_obj_get_set(m5, "source"@, error_source_json(x), "code"@);
    }
    if let Some(x) = opt_members(e.meta) {
        lemma_obj_get_set(m6, "meta"@, JValue::Object(x), "code"@);
    }
}

/// The `title` member of an error object's JSON form.
proof fn lemma_api_error_member_title(e: ApiError)
    ensures
        str_member(api_error_members(e), "title"@) == Some(opt_text(e.title)),
{
    lemma_api_error_names();
    let m0 = set_opt_str(Seq::empty(), "id"@, opt_text(e.id));
    let m1 = match e.links {
        Some(x) => obj_set(m0, "links"@, error_links_json(x)),
        None => m0,
    };
    let m2 = set_opt_str(m1, "status"@, opt_text(e.status));
    let m3 = set_opt_str(m2, "code"@, opt_text(e.code));
    let m4 = set_opt_str(m3, "title"@, opt_text(e.title));
    let m5 = set_opt_str(m4, "detail"@, opt_text(e.detail));
    let m6 = match e.source {
        Some(x) => obj_set(m5, "source"@, error_source_json(x)),
        None => m5,
    };
    if let Some(x) = opt_text(e.id) {
        lemma_obj_get_set(Seq::empty(), "id"@, JValue::Str(x), "title"@);
    }
    if let Some(x) = e.links {
        lemma_obj_get_set(m0, "links"@, error_links_json(x), "title"@);
    }
    if let Some(x) = opt_text(e.status) {
        lemma_obj_get_set(m1, "status"@, JValue::Str(x), "title"@);
    }
    if let Some(x) = opt_text(e.code) {
        lemma_obj_get_set(m2, "code"@, JValue::Str(x), "title"@);
    }
    if let Some(x) = opt_text(e.title) {
        lemma_obj_get_set(m3, "title"@, JValue::Str(x), "title"@);
    }
    if let Some(x) = opt_text(e.detail) {
        lemma_obj_get_set(m4, "detail"@, JValue::Str(x), "title"@);
    }
    if let Some(x) = e.source {
        lemma_obj_get_set(m5, "source"@, error_source_json(x), "title"@);
    }
    if let Some(x) = opt_members(e.meta) {
        lemma_obj_get_set(m6, "meta"@, JValue::Object(x), "title"@);
    }
}

/// The `detail` member of an error object's JSON form.
proof fn lemma_api_error_member_detail(e: ApiError)
    ensures
        str_member(api_error_members(e), "detail"@) == Some(opt_text(e.detail)),
{
    lemma_api_error_names();
    let m0 = set_opt_str(Seq::empty(), "id"@, opt_text(e.id));
    let m1 = match e.links {
        Some(x) => obj_set(m0, "links"@, error_links_json(x)),
        None => m0,
    };
    let m2 = set_opt_str(m1, "status"@, opt_text(e.status));
    let m3 = set_opt_str(m2, "code"@, opt_text(e.code));
    let m4 = set_opt_str(m3, "title"@, opt_text(e.title));
    let m5 = set_opt_str(m4, "detail"@, opt_text(e.detail));
    let m6 = match e.source {
        Some(x) => obj_set(m5, "source"@, error_source_json(x)),
        None => m5,
    };
    if let Some(x) = opt_text(e.id) {
        lemma_obj_get_set(Seq::empty(), "id"@, JValue::Str(x), "detail"@);
    }
    if let Some(x) = e.links {
        lemma_obj_get_set(m0, "links"@, error_links_json(x), "detail"@);
    }
    if let Some(x) = opt_text(e.status) {
        lemma_obj_get_set(m1, "status"@, JValue::Str(x), "detail"@);
    }
    if let Some(x) = opt_text(e.code) {
        lemma_obj_get_set(m2, "code"@, JValue::Str(x), "detail"@);
    }
    if let Some(x) = opt_text(e.title) {
        lemma_obj_get_set(m3, "title"@, JValue::Str(x), "detail"@);
    }
    if let Some(x) = opt_text(e.detail) {
        lemma_obj_get_set(m4, "detail"@, JValue::Str(x), "detail"@);
    }
    if let Some(x) = e.source {
        lemma_obj_get_set(m5, "source"@, error_source_json(x), "detail"@);
    }
    if let Some(x) = opt_members(e.meta) {
        lemma_obj_get_set(m6, "meta"@, JValue::Object(x), "detail"@);
    }
}

/// The `source` member of an error object's JSON form.
proof fn lemma_api_error_member_source(e: ApiError)
    ensures
        member_present(api_error_members(e), "source"@) == match e.source {
            Some(x) => Some(error_source_json(x)),
            None => None::<JValue>,
        },
{
    lemma_api_error_names();
    let m0 = set_opt_str(Seq::empty(), "id"@, opt_text(e.id));
    let m1 = match e.links {
        Some(x) => obj_set(m0, "links"@, error_links_json(x)),
        None => m0,
    };
    let m2 = set_opt_str(m1, "status"@, opt_text(e.status));
    let m3 = set_opt_str(m2, "code"@, opt_text(e.code));
    let m4 = set_opt_str(m3, "title"@, opt_text(e.title));
    let m5 = set_opt_str(m4, "detail"@, opt_text(e.detail));
    let m6 = match e.source {
        Some(x) => obj_set(m5, "source"@, error_source_json(x)),
        None => m5,
    };
    if let Some(x) = opt_text(e.id) {
        lemma_obj_get_set(Seq::empty(), "id"@, JValue::Str(x), "source"@);
    }
    if let Some(x) = e.links {
        lemma_obj_get_set(m0, "links"@, error_links_json(x), "source"@);
    }
    if let Some(x) = opt_text(e.status) {
        lemma_obj_get_set(m1, "status"@, JValue::Str(x), "source"@);
    }
    if let Some(x) = opt_text(e.code) {
        lemma_obj_get_set(m2, "code"@, JValue::Str(x), "source"@);
    }
    if let Some(x) = opt_text(e.title) {
        lemma_obj_get_set(m3, "title"@, JValue::Str(x), "source"@);
    }
    if let Some(x) = opt_text(e.detail) {
        lemma_obj_get_set(m4, "detail"@, JValue::Str(x), "source"@);
    }
    if let Some(x) = e.source {
        lemma_obj_get_set(m5, "source"@, error_source_json(x), "source"@);
    }
    if let Some(x) = opt_members(e.meta) {
        lemma_obj_get_set(m6, "meta"@, JValue::Object(x), "source"@);
    }
}

/// The `meta` member of an error object's JSON form.
proof fn lemma_api_error_member_meta(e: ApiError)
    ensures
        object_member(api_error_members(e), "meta"@) == Some(opt_members(e.meta)),
{
    lemma_api_error_names();
    let m0 = set_opt_str(Seq::empty(), "id"@, opt_text(e.id));
    let m1 = match e.links {
        Some(x) => obj_set(m0, "links"@, error_links_json(x)),
        None => m0,
    };
    let m2 = set_opt_str(m1, "status"@, opt_text(e.status));
    let m3 = set_opt_str(m2, "code"@, opt_text(e.code));
    let m4 = set_opt_str(m3, "title"@, opt_text(e.title));
    let m5 = set_opt_str(m4, "detail"@, opt_text(e.detail));
    let m6 = match e.source {
        Some(x) => obj_set(m5, "source"@, error_source_json(x)),
        None => m5,
    };
    if let Some(x) = opt_text(e.id) {
        lemma_obj_get_set(Seq::empty(), "id"@, JValue::Str(x), "meta"@);
    }
    if let Some(x) = e.links {
        lemma_obj_get_set(m0, "links"@, error_links_json(x), "meta"@);
    }
    if let Some(x) = opt_text(e.status) {
        lemma_obj_get_set(m1, "status"@, JValue::Str(x), "meta"@);
    }
    if let Some(x) = opt_text(e.code) {
        lemma_obj_get_set(m2, "code"@, JValue::Str(x), "meta"@);
    }
    if let Some(x) = opt_text(e.title) {
        lemma_obj_get_set(m3, "title"@, JValue::Str(x), "meta"@);
    }
    if let Some(x) = opt_text(e.detail) {
        lemma_obj_get_set(m4, "detail"@, JValue::Str(x), "meta"@);
    }
    if let Some(x) = e.source {
        lemma_obj_get_set(m5, "source"@, error_source_json(x), "meta"@);
    }
    if let Some(x) = opt_members(e.meta) {
        lemma_obj_get_set(m6, "meta"@, JValue::Object(x), "meta"@);
    }
}

/// Reading back the JSON form of an error object gives the error.
pub proof fn lemma_api_error_round_trip(e: ApiError)
    ensures
        api_error_valid(api_error_json(e)),
        api_error_decodes(api_error_json(e), e),
{
    lemma_api_error_members(e);
    if let Some(l) = e.links {
        lemma_error_links_round_trip(l);
    }
    if let Some(s) = e.source {
        lemma_error_source_round_trip(s);
    }
}

} // verus!
