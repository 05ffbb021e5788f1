//! Top-level documents: primary data, included resources, errors and
//! meta, with their JSON form and the structural pre-pass that reports
//! typed errors.
use crate::decimal::push_decimal;
use crate::error::{shape_error, Error, Result};
use crate::json::{
    copy_object, json_view, json_view_seq, lemma_json_view_seq, lemma_obj_get_set, obj_get,
    obj_set, opt_members, set_opt_object, JValue, JsonObject, JsonValue, Meta,
};
use crate::json::{json_bytes_value, json_text_value, parse_json_bytes, parse_json_text};
use crate::model::api_error::{
    api_error_decodes, api_error_json, api_error_valid, lemma_api_error_round_trip, ApiError,
};
use crate::model::jsonapi_object::{
    jsonapi_decodes, jsonapi_json, jsonapi_valid, lemma_jsonapi_round_trip, JsonApiObject,
};
use crate::model::link::{lemma_links_round_trip, links_decodes, links_json, links_valid, Links};
use crate::model::relationship::RelationshipData;
use crate::model::resource::{
    lemma_resource_round_trip, resource_decodes, resource_json, resource_valid, resource_wf,
    Resource,
};
use crate::text::{owned, push_str, str_eq};
use vstd::prelude::*;

verus! {

/// Primary data: null (empty to-one), single resource, or collection.
#[non_exhaustive]
#[derive(Debug, Clone, PartialEq)]
pub enum PrimaryData<T> {
    /// Empty to-one relationship (`null` in JSON).
    Null,
    /// A single resource object.
    Single(Box<T>),
    /// A collection of resource objects.
    Many(Vec<T>),
}

/// Top-level JSON:API document; `data` and `errors` are mutually exclusive.
///
/// Generic over the primary type `P` and the included type `I`.
#[non_exhaustive]
#[derive(Debug, Clone, PartialEq)]
pub enum Document<P, I = Resource> {
    /// A successful response containing primary data.
    Data {
        /// The primary resource data.
        data: PrimaryData<P>,
        /// Resources related to the primary data (compound document).
        included: Vec<I>,
        /// Top-level meta information.
        meta: Option<Meta>,
        /// The `jsonapi` member describing server implementation.
        jsonapi: Option<JsonApiObject>,
        /// Top-level links.
        links: Option<Links>,
    },
    /// An error response.
    Errors {
        /// One or more error objects.
        errors: Vec<ApiError>,
        /// Top-level meta information.
        meta: Option<Meta>,
        /// The `jsonapi` member describing server implementation.
        jsonapi: Option<JsonApiObject>,
        /// Top-level links.
        links: Option<Links>,
    },
    /// A meta-only response (no `data` or `errors`).
    Meta {
        /// The required meta object.
        meta: Meta,
        /// The `jsonapi` member describing server implementation.
        jsonapi: Option<JsonApiObject>,
        /// Top-level links.
        links: Option<Links>,
    },
}

/// Whether `e` is the shape error naming `expected` and `found`.
pub open spec fn is_shape_error(e: Error, expected: Seq<char>, found: Seq<char>) -> bool {
    e matches Error::UnexpectedDocumentShape { expected: x, found: y } && x@ == expected && y@
        == found
}

/// The name of what a document holds, as shape errors report it.
pub open spec fn shape_name<P, I>(d: Document<P, I>) -> Seq<char> {
    match d {
        Document::Data { data: PrimaryData::Single(_), .. } => "single resource"@,
        Document::Data { data: PrimaryData::Many(_), .. } => "resource collection"@,
        Document::Data { data: PrimaryData::Null, .. } => "null primary data"@,
        Document::Errors { .. } => "errors document"@,
        Document::Meta { .. } => "meta-only document"@,
    }
}

fn unexpected_shape(expected: &'static str, found: &'static str) -> (e: Error)
    ensures
        is_shape_error(e, expected@, found@),
{
    Error::UnexpectedDocumentShape { expected, found }
}

impl<P, I> Document<P, I> {
    /// Consume the document and return the single primary resource;
    /// [`Error::UnexpectedDocumentShape`] for any other shape.
    pub fn into_single(self) -> (r: Result<P>)
        ensures
            match self {
                Document::Data { data: PrimaryData::Single(b), .. } => r == Ok::<P, Error>(*b),
                _ => r matches Err(e) && is_shape_error(e, "single resource"@, shape_name(self)),
            },
    {
        match self {
            Document::Data { data: PrimaryData::Single(boxed), .. } => Ok(*boxed),
            Document::Data { data: PrimaryData::Many(_), .. } => Err(
                unexpected_shape("single resource", "resource collection"),
            ),
            Document::Data { data: PrimaryData::Null, .. } => Err(
                unexpected_shape("single resource", "null primary data"),
            ),
            Document::Errors { .. } => Err(unexpected_shape("single resource", "errors document")),
            Document::Meta { .. } => Err(unexpected_shape("single resource", "meta-only document")),
        }
    }

    /// Consume the document and return the primary resources;
    /// [`Error::UnexpectedDocumentShape`] for any other shape.
    pub fn into_many(self) -> (r: Result<Vec<P>>)
        ensures
            match self {
                Document::Data { data: PrimaryData::Many(items), .. } => r == Ok::<Vec<P>, Error>(
                    items,
                ),
                _ => r matches Err(e) && is_shape_error(e, "resource collection"@, shape_name(self)),
            },
    {
        match self {
            Document::Data { data: PrimaryData::Many(items), .. } => Ok(items),
            Document::Data { data: PrimaryData::Single(_), .. } => Err(
                unexpected_shape("resource collection", "single resource"),
            ),
            Document::Data { data: PrimaryData::Null, .. } => Err(
                unexpected_shape("resource collection", "null primary data"),
            ),
            Document::Errors { .. } => Err(
                unexpected_shape("resource collection", "errors document"),
            ),
            Document::Meta { .. } => Err(
                unexpected_shape("resource collection", "meta-only document"),
            ),
        }
    }

    /// Consume the document and return its meta block: the meta of a
    /// meta-only document, or the top-level meta of a data or errors
    /// document; [`Error::UnexpectedDocumentShape`] when there is none.
    pub fn into_meta(self) -> (r: Result<Meta>)
        ensures
            match self {
                Document::Meta { meta, .. } => r == Ok::<Meta, Error>(meta),
                Document::Data { meta: Some(m), .. } => r == Ok::<Meta, Error>(m),
                Document::Errors { meta: Some(m), .. } => r == Ok::<Meta, Error>(m),
                Document::Data { .. } => r matches Err(e) && is_shape_error(
                    e,
                    "meta-only or data-with-meta"@,
                    "data document without meta"@,
                ),
                Document::Errors { .. } => r matches Err(e) && is_shape_error(
                    e,
                    "meta-only or errors-with-meta"@,
                    "errors document without meta"@,
                ),
            },
    {
        match self {
            Document::Meta { meta, .. } => Ok(meta),
            Document::Data { meta: Some(meta), .. } => Ok(meta),
            Document::Errors { meta: Some(meta), .. } => Ok(meta),
            Document::Data { .. } => Err(
                unexpected_shape("meta-only or data-with-meta", "data document without meta"),
            ),
            Document::Errors { .. } => Err(
                unexpected_shape("meta-only or errors-with-meta", "errors document without meta"),
            ),
        }
    }

    /// Borrow the single primary resource;
    /// [`Error::UnexpectedDocumentShape`] for any other shape.
    pub fn as_single(&self) -> (r: Result<&P>)
        ensures
            match *self {
                Document::Data { data: PrimaryData::Single(b), .. } => r matches Ok(x) && *x == *b,
                _ => r matches Err(e) && is_shape_error(e, "single resource"@, shape_name(*self)),
            },
    {
        match self {
            Document::Data { data: PrimaryData::Single(boxed), .. } => Ok(&**boxed),
            Document::Data { data: PrimaryData::Many(_), .. } => Err(
                unexpected_shape("single resource", "resource collection"),
            ),
            Document::Data { data: PrimaryData::Null, .. } => Err(
                unexpected_shape("single resource", "null primary data"),
            ),
            Document::Errors { .. } => Err(unexpected_shape("single resource", "errors document")),
            Document::Meta { .. } => Err(unexpected_shape("single resource", "meta-only document")),
        }
    }

    /// Borrow the primary resource collection;
    /// [`Error::UnexpectedDocumentShape`] for any other shape.
    pub fn as_many(&self) -> (r: Result<&[P]>)
        ensures
            match *self {
                Document::Data { data: PrimaryData::Many(items), .. } => r matches Ok(x) && x@
                    == items@,
                _ => r matches Err(e) && is_shape_error(e, "resource collection"@, shape_name(*self)),
            },
    {
        match self {
            Document::Data { data: PrimaryData::Many(items), .. } => Ok(items.as_slice()),
            Document::Data { data: PrimaryData::Single(_), .. } => Err(
                unexpected_shape("resource collection", "single resource"),
            ),
            Document::Data { data: PrimaryData::Null, .. } => Err(
                unexpected_shape("resource collection", "null primary data"),
            ),
            Document::Errors { .. } => Err(
                unexpected_shape("resource collection", "errors document"),
            ),
            Document::Meta { .. } => Err(
                unexpected_shape("resource collection", "meta-only document"),
            ),
        }
    }

    /// Borrow the primary data, whatever its cardinality;
    /// [`Error::UnexpectedDocumentShape`] for errors and meta-only
    /// documents.
    pub fn primary(&self) -> (r: Result<&PrimaryData<P>>)
        ensures
            match *self {
                Document::Data { data, .. } => r matches Ok(x) && *x == data,
                _ => r matches Err(e) && is_shape_error(e, "data document"@, shape_name(*self)),
            },
    {
        match self {
            Document::Data { data, .. } => Ok(data),
            Document::Errors { .. } => Err(unexpected_shape("data document", "errors document")),
            Document::Meta { .. } => Err(unexpected_shape("data document", "meta-only document")),
        }
    }

    /// The included resources: those of a data document, none otherwise.
    pub fn included(&self) -> (r: &[I])
        ensures
            r@ == match *self {
                Document::Data { included, .. } => included@,
                _ => Seq::<I>::empty(),
            },
    {
        match self {
            Document::Data { included, .. } => included.as_slice(),
            _ => {
                let empty: &[I] = &[];
                assert(empty@ =~= Seq::<I>::empty());
                empty
            },
        }
    }
}

/// The JSON forms of some resources.
pub open spec fn resources_json(rs: Seq<Resource>) -> Seq<JValue> {
    rs.map_values(|r: Resource| resource_json(r))
}

/// The JSON form of primary data.
pub open spec fn primary_json(d: PrimaryData<Resource>) -> JValue {
    match d {
        PrimaryData::Null => JValue::Null,
        PrimaryData::Single(b) => resource_json(*b),
        PrimaryData::Many(v) => JValue::Array(resources_json(v@)),
    }
}

/// `m` with the optional `jsonapi` and `links` members.
pub open spec fn with_jsonapi_links(
    m: Seq<(Seq<char>, JValue)>,
    jsonapi: Option<JsonApiObject>,
    links: Option<Links>,
) -> Seq<(Seq<char>, JValue)> {
    let m1 = match jsonapi {
        Some(j) => obj_set(m, "jsonapi"@, jsonapi_json(j)),
        None => m,
    };
    match links {
        Some(l) => obj_set(m1, "links"@, links_json(l)),
        None => m1,
    }
}

/// The members of a document's JSON form: `data` (with `included` when
/// there are any) or `errors` or `meta`, then the optional `meta`,
/// `jsonapi` and `links`.
pub open spec fn document_members(d: Document<Resource, Resource>) -> Seq<(Seq<char>, JValue)> {
    match d {
        Document::Data { data, included, meta, jsonapi, links } => {
            let m0 = obj_set(Seq::empty(), "data"@, primary_json(data));
            let m1 = if included@.len() == 0 {
                m0
            } else {
                obj_set(m0, "included"@, JValue::Array(resources_json(included@)))
            };
            with_jsonapi_links(set_opt_object(m1, "meta"@, opt_members(meta)), jsonapi, links)
        },
        Document::Errors { errors, meta, jsonapi, links } => {
            let m0 = obj_set(
                Seq::empty(),
                "errors"@,
                JValue::Array(errors@.map_values(|e: ApiError| api_error_json(e))),
            );
            with_jsonapi_links(set_opt_object(m0, "meta"@, opt_members(meta)), jsonapi, links)
        },
        Document::Meta { meta, jsonapi, links } => {
            let m0 = obj_set(Seq::empty(), "meta"@, JValue::Object(meta@));
            with_jsonapi_links(m0, jsonapi, links)
        },
    }
}

/// The JSON form of a document.
pub open spec fn document_json(d: Document<Resource, Resource>) -> JValue {
    JValue::Object(document_members(d))
}

/// Whether a JSON value reads as primary data: `null`, a resource, or an
/// array of resources.
pub open spec fn primary_valid(v: JValue) -> bool {
    match v {
        JValue::Null => true,
        JValue::Array(items) => forall|i: int| 0 <= i < items.len() ==> resource_valid(#[trigger] items[i]),
        _ => resource_valid(v),
    }
}

/// Whether `p` is what the JSON value `v` reads as.
pub open spec fn primary_decodes(v: JValue, p: PrimaryData<Resource>) -> bool {
    match v {
        JValue::Null => p is Null,
        JValue::Array(items) => p matches PrimaryData::Many(rs) && rs@.len() == items.len() && forall|
            i: int,
        | 0 <= i < items.len() ==> resource_decodes(#[trigger] items[i], rs@[i]),
        _ => p matches PrimaryData::Single(b) && resource_decodes(v, *b),
    }
}

/// Whether the optional top-level members `meta`, `jsonapi` and `links`
/// read well: an object, a `jsonapi` object, a link map.
pub open spec fn top_members_valid(m: Seq<(Seq<char>, JValue)>) -> bool {
    &&& match obj_get(m, "meta"@) {
        None => true,
        Some(x) => x is Object,
    }
    &&& match obj_get(m, "jsonapi"@) {
        None => true,
        Some(x) => jsonapi_valid(x),
    }
    &&& match obj_get(m, "links"@) {
        None => true,
        Some(x) => links_valid(x),
    }
}

/// Whether `jsonapi` and `links` are what the members read as.
pub open spec fn jsonapi_links_decode(
    m: Seq<(Seq<char>, JValue)>,
    jsonapi: Option<JsonApiObject>,
    links: Option<Links>,
) -> bool {
    &&& match obj_get(m, "jsonapi"@) {
        None => jsonapi is None,
        Some(x) => jsonapi matches Some(j) && jsonapi_decodes(x, j),
    }
    &&& match obj_get(m, "links"@) {
        None => links is None,
        Some(x) => links matches Some(l) && links_decodes(x, l),
    }
}

/// Whether `meta` is what the optional `meta` member reads as.
pub open spec fn meta_decodes(m: Seq<(Seq<char>, JValue)>, meta: Option<Meta>) -> bool {
    match obj_get(m, "meta"@) {
        None => meta is None,
        Some(x) => meta matches Some(mm) && x == JValue::Object(mm@),
    }
}

/// Whether a JSON value reads as a document: an object without both
/// `data` and `errors`, whose optional top-level members read well, and
/// which has primary data (and, if present, an array of included
/// resources), or an array of error objects, or else a `meta` object.
pub open spec fn document_valid(v: JValue) -> bool {
    match v {
        JValue::Object(m) => {
            &&& !(obj_get(m, "data"@) is Some && obj_get(m, "errors"@) is Some)
            &&& top_members_valid(m)
            &&& if obj_get(m, "data"@) is Some {
                &&& primary_valid(obj_get(m, "data"@).unwrap())
                &&& match obj_get(m, "included"@) {
                    None => true,
                    Some(JValue::Array(items)) => forall|i: int|
                        0 <= i < items.len() ==> resource_valid(#[trigger] items[i]),
                    Some(_) => false,
                }
            } else if obj_get(m, "errors"@) is Some {
                obj_get(m, "errors"@).unwrap() matches JValue::Array(items) && forall|i: int|
                    0 <= i < items.len() ==> api_error_valid(#[trigger] items[i])
            } else {
                obj_get(m, "meta"@) is Some
            }
        },
        _ => false,
    }
}

/// Whether `d` is what the JSON value `v` reads as.
pub open spec fn document_decodes(v: JValue, d: Document<Resource, Resource>) -> bool {
    match v {
        JValue::Object(m) => if obj_get(m, "data"@) is Some {
            &&& d matches Document::Data { data, included, meta, jsonapi, links }
            &&& primary_decodes(obj_get(m, "data"@).unwrap(), d->data)
            &&& match obj_get(m, "included"@) {
                Some(JValue::Array(items)) => d->included@.len() == items.len() && forall|i: int|
                    0 <= i < items.len() ==> resource_decodes(#[trigger] items[i], d->included@[i]),
                _ => d->included@.len() == 0,
            }
            &&& meta_decodes(m, d->Data_meta)
            &&& jsonapi_links_decode(m, d->Data_jsonapi, d->Data_links)
        } else if obj_get(m, "errors"@) is Some {
            &&& d is Errors
            &&& obj_get(m, "errors"@).unwrap() matches JValue::Array(items)
            &&& d->errors@.len() == items.len()
            &&& forall|i: int|
                0 <= i < items.len() ==> api_error_decodes(#[trigger] items[i], d->errors@[i])
            &&& meta_decodes(m, d->Errors_meta)
            &&& jsonapi_links_decode(m, d->Errors_jsonapi, d->Errors_links)
        } else {
            &&& d is Meta
            &&& obj_get(m, "meta"@) == Some(JValue::Object(d->Meta_meta@))
            &&& jsonapi_links_decode(m, d->Meta_jsonapi, d->Meta_links)
        },
        _ => false,
    }
}

/// A structural flaw found before decoding a document.
pub enum Flaw {
    /// A resource's wire `type` differs from the declared one.
    TypeMismatch {
        /// The wire-side `type`.
        got: Seq<char>,
        /// Where the resource is, e.g. `data[3]`.
        location: Seq<char>,
    },
    /// A relationship is malformed.
    MalformedRelationship {
        /// The relationship's name.
        name: Seq<char>,
        /// Where the resource carrying it is.
        location: Seq<char>,
        /// What is wrong.
        reason: Seq<char>,
    },
}

/// The reason given for relationship `data` of the wrong kind.
pub open spec fn data_kind_reason(kind: Seq<char>) -> Seq<char> {
    "`data` must be null, an object, or an array; got "@ + kind
}

/// The flaw of one relationship member, if any: it must be an object, whose
/// `data`, when present, is `null`, an object or an array.
pub open spec fn relationship_flaw(name: Seq<char>, rel: JValue, location: Seq<char>) -> Option<
    Flaw,
> {
    match rel {
        JValue::Object(o) => match obj_get(o, "data"@) {
            Some(JValue::Bool(_)) => Some(
                Flaw::MalformedRelationship {
                    name,
                    location,
                    reason: data_kind_reason("boolean"@),
                },
            ),
            Some(JValue::Number(_)) => Some(
                Flaw::MalformedRelationship { name, location, reason: data_kind_reason("number"@) },
            ),
            Some(JValue::Str(_)) => Some(
                Flaw::MalformedRelationship { name, location, reason: data_kind_reason("string"@) },
            ),
            _ => None,
        },
        _ => Some(
            Flaw::MalformedRelationship {
                name,
                location,
                reason: "relationship value must be an object"@,
            },
        ),
    }
}

/// The first flaw among relationship members, in order.
pub open spec fn relationships_flaw(rm: Seq<(Seq<char>, JValue)>, location: Seq<char>) -> Option<
    Flaw,
>
    decreases rm.len(),
{
    if rm.len() == 0 {
        None
    } else {
        match relationships_flaw(rm.drop_last(), location) {
            Some(f) => Some(f),
            None => relationship_flaw(rm.last().0, rm.last().1, location),
        }
    }
}

/// The flaw of one resource object, if any: with a non-empty declared type,
/// a string `type` that differs; then the first malformed relationship.
/// Values that are not objects are left to decoding.
pub open spec fn resource_flaw(item: JValue, location: Seq<char>, expected: Seq<char>) -> Option<
    Flaw,
> {
    match item {
        JValue::Object(m) => if expected.len() > 0 && obj_get(m, "type"@) is Some && obj_get(
            m,
            "type"@,
        ).unwrap() is Str && obj_get(m, "type"@).unwrap()->Str_0 != expected {
            Some(
                Flaw::TypeMismatch { got: obj_get(m, "type"@).unwrap()->Str_0, location: location },
            )
        } else {
            match obj_get(m, "relationships"@) {
                Some(JValue::Object(rm)) => relationships_flaw(rm, location),
                _ => None,
            }
        },
        _ => None,
    }
}

/// The location of the item at `i` of an array of primary data.
pub open spec fn item_location(i: nat) -> Seq<char> {
    "data["@ + crate::decimal::decimal(i) + "]"@
}

/// The first flaw among the first `n` items of primary data.
pub open spec fn items_flaw(items: Seq<JValue>, n: nat, expected: Seq<char>) -> Option<Flaw>
    decreases n,
{
    if n == 0 {
        None
    } else {
        match items_flaw(items, (n - 1) as nat, expected) {
            Some(f) => Some(f),
            None => resource_flaw(items[n - 1], item_location((n - 1) as nat), expected),
        }
    }
}

/// The first structural flaw of a document: in its primary data, a single
/// resource at `data` or each item at `data[i]`.
pub open spec fn document_flaw(v: JValue, expected: Seq<char>) -> Option<Flaw> {
    match v {
        JValue::Object(m) => match obj_get(m, "data"@) {
            Some(JValue::Object(o)) => resource_flaw(JValue::Object(o), "data"@, expected),
            Some(JValue::Array(items)) => items_flaw(items, items.len(), expected),
            _ => None,
        },
        _ => None,
    }
}

/// Whether `e` is the typed error reporting the flaw `f`.
pub open spec fn is_flaw_error(e: Error, f: Flaw, expected: Seq<char>) -> bool {
    match f {
        Flaw::TypeMismatch { got, location } => e matches Error::TypeMismatch {
            expected: x,
            got: g,
            location: l,
        } && x@ == expected && g@ == got && l@ == location,
        Flaw::MalformedRelationship { name, location, reason } => e matches Error::MalformedRelationship {
            name: n,
            location: l,
            reason: r,
        } && n@ == name && l@ == location && r@ == reason,
    }
}

fn check_relationship(name: &str, rel_value: &JsonValue, location: &str) -> (r: Result<()>)
    ensures
        match relationship_flaw(name@, rel_value@, location@) {
            None => r is Ok,
            Some(f) => r matches Err(e) && is_flaw_error(e, f, Seq::empty()),
        },
{
    let rel_obj = match rel_value.as_object() {
        Some(o) => o,
        None => {
            return Err(
                Error::MalformedRelationship {
                    name: owned(name),
                    location: owned(location),
                    reason: owned("relationship value must be an object"),
                },
            );
        },
    };
    let kind = match rel_obj.get("data") {
        Some(JsonValue::Bool(_)) => "boolean",
        Some(JsonValue::Number(_)) => "number",
        Some(JsonValue::String(_)) => "string",
        _ => return Ok(()),
    };
    let mut reason = owned("`data` must be null, an object, or an array; got ");
    push_str(&mut reason, kind);
    proof {
        reveal_strlit("boolean");
        reveal_strlit("number");
        reveal_strlit("string");
    }
    Err(Error::MalformedRelationship { name: owned(name), location: owned(location), reason })
}

fn check_resource(item: &JsonValue, location: &str, expected_type: &'static str) -> (r: Result<()>)
    ensures
        match resource_flaw(item@, location@, expected_type@) {
            None => r is Ok,
            Some(f) => r matches Err(e) && is_flaw_error(e, f, expected_type@),
        },
{
    let obj = match item.as_object() {
        Some(o) => o,
        None => return Ok(()),
    };
    if expected_type.unicode_len() > 0 {
        match obj.get("type") {
            Some(JsonValue::String(got)) => {
                if !str_eq(got.as_str(), expected_type) {
                    return Err(
                        Error::TypeMismatch {
                            expected: expected_type,
                            got: got.clone(),
                            location: owned(location),
                        },
                    );
                }
            },
            _ => {},
        }
    }
    assert(item@ == JValue::Object(obj@));
    match obj.get("relationships") {
        Some(JsonValue::Object(rels)) => {
            let ghost rm = rels@;
            assert(resource_flaw(item@, location@, expected_type@) == relationships_flaw(rm, location@));
            proof {
                crate::json::lemma_members_view(rels.members@);
            }
            let mut i: usize = 0;
            while i < rels.members.len()
                invariant
                    0 <= i <= rels.members@.len(),
                    rm == rels@,
                    rm.len() == rels.members@.len(),
                    forall|j: int|
                        0 <= j < rels.members@.len() ==> #[trigger] rm[j] == (
                            rels.members@[j].0@,
                            json_view(rels.members@[j].1),
                        ),
                    relationships_flaw(rm.take(i as int), location@) is None,
                    resource_flaw(item@, location@, expected_type@) == relationships_flaw(rm, location@),
                decreases rels.members@.len() - i,
            {
                assert(rm.take(i + 1).drop_last() =~= rm.take(i as int));
                assert(rm[i as int] == (rels.members@[i as int].0@, json_view(rels.members@[i as int].1)));
                match check_relationship(rels.members[i].0.as_str(), &rels.members[i].1, location) {
                    Ok(()) => {},
                    Err(e) => {
                        proof {
                            lemma_flaw_prefix(rm, location@, i + 1);
                        }
                        return Err(e);
                    },
                }
                i += 1;
            }
            assert(rm.take(i as int) =~= rm);
            Ok(())
        },
        _ => Ok(()),
    }
}

/// Once a prefix of the relationship members has a flaw, the members have
/// that flaw.
proof fn lemma_flaw_prefix(rm: Seq<(Seq<char>, JValue)>, location: Seq<char>, n: int)
    requires
        0 <= n <= rm.len(),
        relationships_flaw(rm.take(n), location) is Some,
    ensures
        relationships_flaw(rm, location) == relationships_flaw(rm.take(n), location),
    decreases rm.len() - n,
{
    if n < rm.len() {
        assert(rm.take(n + 1).drop_last() =~= rm.take(n));
        lemma_flaw_prefix(rm, location, n + 1);
    } else {
        assert(rm.take(n) =~= rm);
    }
}

/// Once some first items of primary data have a flaw, more items have that
/// flaw.
proof fn lemma_items_flaw_prefix(items: Seq<JValue>, expected: Seq<char>, n: nat, k: nat)
    requires
        n <= k,
        items_flaw(items, n, expected) is Some,
    ensures
        items_flaw(items, k, expected) == items_flaw(items, n, expected),
    decreases k - n,
{
    if n < k {
        lemma_items_flaw_prefix(items, expected, n, (k - 1) as nat);
    }
}

/// Structural pre-pass over a document: reports, as typed errors, the first
/// type mismatch against `expected_type` (skipped when it is empty) or
/// malformed relationship in the primary data (see [`document_flaw`]).
pub fn prevalidate(value: &JsonValue, expected_type: &'static str) -> (r: Result<()>)
    ensures
        match document_flaw(value@, expected_type@) {
            None => r is Ok,
            Some(f) => r matches Err(e) && is_flaw_error(e, f, expected_type@),
        },
{
    let obj = match value.as_object() {
        Some(o) => o,
        None => return Ok(()),
    };
    let data = match obj.get("data") {
        Some(d) => d,
        None => return Ok(()),
    };
    assert(value@ == JValue::Object(obj@));
    match data {
        JsonValue::Object(_) => check_resource(data, "data", expected_type),
        JsonValue::Array(items) => {
            proof {
                lemma_json_view_seq(items@);
            }
            let ghost iv = json_view_seq(items@);
            assert(value@ == JValue::Object(obj@));
            assert(document_flaw(value@, expected_type@) == items_flaw(iv, iv.len(), expected_type@));
            let mut i: usize = 0;
            while i < items.len()
                invariant
                    0 <= i <= items@.len(),
                    iv == json_view_seq(items@),
                    iv.len() == items@.len(),
                    forall|j: int| 0 <= j < items@.len() ==> #[trigger] iv[j] == items@[j]@,
                    items_flaw(iv, i as nat, expected_type@) is None,
                    document_flaw(value@, expected_type@) == items_flaw(iv, iv.len(), expected_type@),
                decreases items@.len() - i,
            {
                let mut location = owned("data[");
                push_decimal(&mut location, i as u64);
                push_str(&mut location, "]");
                proof {
                    reveal_strlit("data[");
                    reveal_strlit("]");
                    assert(location@ =~= item_location(i as nat));
                }
                assert(iv[i as int] == items@[i as int]@);
                match check_resource(&items[i], location.as_str(), expected_type) {
                    Ok(()) => {},
                    Err(e) => {
                        proof {
                            lemma_items_flaw_prefix(iv, expected_type@, (i + 1) as nat, iv.len());
                        }
                        return Err(e);
                    },
                }
                i += 1;
            }
            Ok(())
        },
        _ => Ok(()),
    }
}

/// The JSON forms of some resources, in order.
fn resources_to_json(rs: &Vec<Resource>) -> (r: Vec<JsonValue>)
    ensures
        json_view_seq(r@) == resources_json(rs@),
{
    let mut out: Vec<JsonValue> = Vec::new();
    let mut i: usize = 0;
    while i < rs.len()
        invariant
            0 <= i <= rs@.len(),
            json_view_seq(out@) == resources_json(rs@.take(i as int)),
        decreases rs@.len() - i,
    {
        let ghost before = out@;
        out.push(rs[i].to_json());
        assert(out@.drop_last() =~= before);
        assert(resources_json(rs@.take(i + 1)) =~= resources_json(rs@.take(i as int)).push(
            resource_json(rs@[i as int]),
        ));
        i += 1;
    }
    assert(rs@.take(i as int) =~= rs@);
    out
}

/// Reads resources from their JSON forms, in order.
fn resources_from_json(items: &Vec<JsonValue>) -> (r: Result<Vec<Resource>>)
    ensures
        match r {
            Ok(rs) => (forall|i: int|
                0 <= i < items@.len() ==> resource_valid(#[trigger] json_view_seq(items@)[i]))
                && rs@.len() == items@.len() && forall|i: int|
                0 <= i < items@.len() ==> resource_decodes(#[trigger] json_view_seq(items@)[i], rs@[i]),
            Err(e) => !(forall|i: int|
                0 <= i < items@.len() ==> resource_valid(#[trigger] json_view_seq(items@)[i])) && e is Json,
        },
{
    proof {
        lemma_json_view_seq(items@);
    }
    let ghost iv = json_view_seq(items@);
    let mut out: Vec<Resource> = Vec::new();
    let mut i: usize = 0;
    while i < items.len()
        invariant
            0 <= i <= items@.len(),
            iv == json_view_seq(items@),
            iv.len() == items@.len(),
            forall|j: int| 0 <= j < items@.len() ==> #[trigger] iv[j] == items@[j]@,
            out@.len() == i,
            forall|j: int| 0 <= j < i ==> resource_valid(#[trigger] iv[j]) && resource_decodes(iv[j], out@[j]),
        decreases items@.len() - i,
    {
        assert(iv[i as int] == items@[i as int]@);
        match Resource::from_json(&items[i]) {
            Ok(x) => out.push(x),
            Err(e) => {
                assert(!resource_valid(iv[i as int]));
                return Err(e);
            },
        }
        i += 1;
    }
    Ok(out)
}

impl PrimaryData<Resource> {
    /// The JSON form of the primary data.
    pub fn to_json(&self) -> (r: JsonValue)
        ensures
            r@ == primary_json(*self),
    {
        match self {
            PrimaryData::Null => JsonValue::Null,
            PrimaryData::Single(b) => b.to_json(),
            PrimaryData::Many(rs) => JsonValue::Array(resources_to_json(rs)),
        }
    }

    /// Read primary data from its JSON form (see [`primary_valid`]);
    /// anything else is a shape error.
    pub fn from_json(v: &JsonValue) -> (r: Result<PrimaryData<Resource>>)
        ensures
            match r {
                Ok(p) => primary_valid(v@) && primary_decodes(v@, p),
                Err(e) => !primary_valid(v@) && e is Json,
            },
    {
        match v {
            JsonValue::Null => {
                assert(v@ == JValue::Null);
                Ok(PrimaryData::Null)
            },
            JsonValue::Array(items) => {
                proof {
                    lemma_json_view_seq(items@);
                }
                let ghost iv = json_view_seq(items@);
                assert(v@ == JValue::Array(iv));
                match resources_from_json(items) {
                    Ok(rs) => {
                        assert(primary_decodes(v@, PrimaryData::Many(rs)));
                        assert(primary_valid(v@));
                        Ok(PrimaryData::Many(rs))
                    },
                    Err(e) => {
                        let ghost w = choose|i: int| 0 <= i < items@.len() && !resource_valid(iv[i]);
                        assert(!resource_valid(iv[w]));
                        assert(v@->Array_0 == iv);
                        Err(e)
                    },
                }
            },
            _ => {
                assert(!(v@ is Null) && !(v@ is Array));
                match Resource::from_json(v) {
                    Ok(r) => Ok(PrimaryData::Single(Box::new(r))),
                    Err(e) => Err(e),
                }
            },
        }
    }
}

/// Writes the optional `jsonapi` and `links` members.
fn write_jsonapi_links(m: &mut JsonObject, jsonapi: &Option<JsonApiObject>, links: &Option<Links>)
    ensures
        final(m)@ == with_jsonapi_links(old(m)@, *jsonapi, *links),
{
    match jsonapi {
        Some(j) => m.insert(owned("jsonapi"), j.to_json()),
        None => {},
    }
    match links {
        Some(l) => m.insert(owned("links"), l.to_json()),
        None => {},
    }
}

/// Writes the optional `meta` member.
fn write_meta(m: &mut JsonObject, meta: &Option<Meta>)
    ensures
        final(m)@ == set_opt_object(old(m)@, "meta"@, opt_members(*meta)),
{
    crate::json::write_opt_object(m, "meta", meta);
}

/// Reads the optional `jsonapi` member.
fn read_jsonapi(o: &JsonObject) -> (r: Result<Option<JsonApiObject>>)
    ensures
        match r {
            Ok(x) => (match obj_get(o@, "jsonapi"@) {
                None => x is None,
                Some(v) => jsonapi_valid(v) && (x matches Some(j) && jsonapi_decodes(v, j)),
            }),
            Err(e) => (obj_get(o@, "jsonapi"@) matches Some(v) && !jsonapi_valid(v)) && e is Json,
        },
{
    match o.get("jsonapi") {
        Some(v) => Ok(Some(JsonApiObject::from_json(v)?)),
        None => Ok(None),
    }
}

/// Reads the optional `links` member.
fn read_links(o: &JsonObject) -> (r: Result<Option<Links>>)
    ensures
        match r {
            Ok(x) => (match obj_get(o@, "links"@) {
                None => x is None,
                Some(v) => links_valid(v) && (x matches Some(l) && links_decodes(v, l)),
            }),
            Err(e) => (obj_get(o@, "links"@) matches Some(v) && !links_valid(v)) && e is Json,
        },
{
    match o.get("links") {
        Some(v) => Ok(Some(Links::from_json(v)?)),
        None => Ok(None),
    }
}

/// Reads the optional `meta` member.
fn read_meta(o: &JsonObject) -> (r: Result<Option<Meta>>)
    ensures
        match r {
            Ok(x) => (match obj_get(o@, "meta"@) {
                None => x is None,
                Some(v) => x matches Some(mm) && v == JValue::Object(mm@),
            }),
            Err(e) => (obj_get(o@, "meta"@) matches Some(v) && !(v is Object)) && e is Json,
        },
{
    match o.get("meta") {
        Some(JsonValue::Object(mm)) => Ok(Some(copy_object(mm))),
        Some(_) => Err(shape_error("`meta` must be an object")),
        None => Ok(None),
    }
}

/// Reads error objects from their JSON forms, in order.
fn errors_from_json(items: &Vec<JsonValue>) -> (r: Result<Vec<ApiError>>)
    ensures
        match r {
            Ok(es) => es@.len() == items@.len() && forall|i: int|
                0 <= i < items@.len() ==> api_error_valid(#[trigger] json_view_seq(items@)[i])
                    && api_error_decodes(json_view_seq(items@)[i], es@[i]),
            Err(e) => !(forall|i: int|
                0 <= i < items@.len() ==> api_error_valid(#[trigger] json_view_seq(items@)[i])) && e is Json,
        },
{
    proof {
        lemma_json_view_seq(items@);
    }
    let ghost iv = json_view_seq(items@);
    let mut out: Vec<ApiError> = Vec::new();
    let mut i: usize = 0;
    while i < items.len()
        invariant
            0 <= i <= items@.len(),
            iv == json_view_seq(items@),
            iv.len() == items@.len(),
            forall|j: int| 0 <= j < items@.len() ==> #[trigger] iv[j] == items@[j]@,
            out@.len() == i,
            forall|j: int| 0 <= j < i ==> api_error_valid(#[trigger] iv[j]) && api_error_decodes(iv[j], out@[j]),
        decreases items@.len() - i,
    {
        assert(iv[i as int] == items@[i as int]@);
        match ApiError::from_json(&items[i]) {
            Ok(x) => out.push(x),
            Err(e) => {
                assert(!api_error_valid(iv[i as int]));
                return Err(e);
            },
        }
        i += 1;
    }
    Ok(out)
}

/// The JSON form of some error objects, in order.
fn errors_to_json(es: &Vec<ApiError>) -> (r: Vec<JsonValue>)
    ensures
        json_view_seq(r@) == es@.map_values(|e: ApiError| api_error_json(e)),
{
    let mut out: Vec<JsonValue> = Vec::new();
    let mut i: usize = 0;
    while i < es.len()
        invariant
            0 <= i <= es@.len(),
            json_view_seq(out@) == es@.take(i as int).map_values(|e: ApiError| api_error_json(e)),
        decreases es@.len() - i,
    {
        let ghost before = out@;
        out.push(es[i].to_json());
        assert(out@.drop_last() =~= before);
        assert(es@.take(i + 1).map_values(|e: ApiError| api_error_json(e)) =~= es@.take(
            i as int,
        ).map_values(|e: ApiError| api_error_json(e)).push(api_error_json(es@[i as int])));
        i += 1;
    }
    assert(es@.take(i as int) =~= es@);
    out
}

impl Document<Resource, Resource> {
    /// The JSON form of the document (see [`document_members`]).
    pub fn to_json(&self) -> (r: JsonValue)
        ensures
            r@ == document_json(*self),
    {
        let mut m = JsonObject::new();
        match self {
            Document::Data { data, included, meta, jsonapi, links } => {
                m.insert(owned("data"), data.to_json());
                if included.len() > 0 {
                    m.insert(owned("included"), JsonValue::Array(resources_to_json(included)));
                }
                write_meta(&mut m, meta);
                write_jsonapi_links(&mut m, jsonapi, links);
            },
            Document::Errors { errors, meta, jsonapi, links } => {
                m.insert(owned("errors"), JsonValue::Array(errors_to_json(errors)));
                write_meta(&mut m, meta);
                write_jsonapi_links(&mut m, jsonapi, links);
            },
            Document::Meta { meta, jsonapi, links } => {
                m.insert(owned("meta"), JsonValue::Object(copy_object(meta)));
                write_jsonapi_links(&mut m, jsonapi, links);
            },
        }
        JsonValue::Object(m)
    }

    /// Read a document from its JSON form (see [`document_valid`] and
    /// [`document_decodes`]); anything else is a shape error.
    pub fn from_json(v: &JsonValue) -> (r: Result<Document<Resource, Resource>>)
        ensures
            match r {
                Ok(d) => document_valid(v@) && document_decodes(v@, d),
                Err(e) => !document_valid(v@) && e is Json,
            },
    {
        let o = match v.as_object() {
            Some(o) => o,
            None => return Err(shape_error("document must be a JSON object")),
        };
        let ghost m = o@;
        assert(v@ == JValue::Object(m));
        let has_data = o.contains_key("data");
        let has_errors = o.contains_key("errors");
        if has_data && has_errors {
            return Err(shape_error("document must not contain both `data` and `errors`"));
        }
        let meta = read_meta(o)?;
        let jsonapi = read_jsonapi(o)?;
        let links = read_links(o)?;
        assert(top_members_valid(m));
        if has_data {
            let data = match o.get("data") {
                Some(d) => match PrimaryData::from_json(d) {
                    Ok(p) => p,
                    Err(e) => return Err(e),
                },
                None => return Err(shape_error("missing `data`")),
            };
            let included = match o.get("included") {
                Some(JsonValue::Array(items)) => {
                    proof {
                        lemma_json_view_seq(items@);
                    }
                    assert(obj_get(m, "included"@) == Some(JValue::Array(json_view_seq(items@))));
                    match resources_from_json(items) {
                        Ok(rs) => rs,
                        Err(e) => {
                            let ghost iv = json_view_seq(items@);
                            let ghost w = choose|i: int| 0 <= i < items@.len() && !resource_valid(iv[i]);
                            assert(!resource_valid(iv[w]));
                            assert(obj_get(m, "included"@)->Some_0->Array_0 == iv);
                            return Err(e);
                        },
                    }
                },
                Some(_) => return Err(shape_error("`included` must be a JSON array")),
                None => Vec::new(),
            };
            let d = Document::Data { data, included, meta, jsonapi, links };
            assert(document_decodes(v@, d));
            Ok(d)
        } else if has_errors {
            let errors = match o.get("errors") {
                Some(JsonValue::Array(items)) => {
                    proof {
                        lemma_json_view_seq(items@);
                    }
                    assert(obj_get(m, "errors"@) == Some(JValue::Array(json_view_seq(items@))));
                    match errors_from_json(items) {
                        Ok(es) => es,
                        Err(e) => {
                            let ghost iv = json_view_seq(items@);
                            let ghost w = choose|i: int| 0 <= i < items@.len() && !api_error_valid(iv[i]);
                            assert(!api_error_valid(iv[w]));
                            assert(obj_get(m, "errors"@)->Some_0->Array_0 == iv);
                            return Err(e);
                        },
                    }
                },
                _ => return Err(shape_error("`errors` must be an array")),
            };
            let d = Document::Errors { errors, meta, jsonapi, links };
            assert(document_decodes(v@, d));
            Ok(d)
        } else {
            match meta {
                Some(mm) => Ok(Document::Meta { meta: mm, jsonapi, links }),
                None => Err(shape_error("document must contain `data`, `errors`, or `meta`")),
            }
        }
    }

    /// Read a document from a JSON value with the structural pre-pass: a
    /// malformed relationship in the primary data is
    /// [`Error::MalformedRelationship`] (see [`prevalidate`]); otherwise
    /// the value is read as [`Document::from_json`] reads it.
    pub fn from_value(value: JsonValue) -> (r: Result<Document<Resource, Resource>>)
        ensures
            value_read(value@, r),
    {
        proof {
            reveal_strlit("");
        }
        assert(""@ =~= Seq::<char>::empty());
        match prevalidate(&value, "") {
            Ok(()) => Document::from_json(&value),
            Err(e) => Err(e),
        }
    }

    /// Read a document from JSON text: text that is not JSON is
    /// [`Error::Json`]; the value it parses to is read as
    /// [`Document::from_value`] reads it.
    pub fn from_str(s: &str) -> (r: Result<Document<Resource, Resource>>)
        ensures
            match json_text_value(s@) {
                None => r matches Err(e) && e is Json,
                Some(v) => value_read(v, r),
            },
    {
        match parse_json_text(s) {
            Ok(v) => Document::from_value(v),
            Err(e) => Err(e),
        }
    }

    /// Read a document from JSON bytes: bytes that are not JSON are
    /// [`Error::Json`]; the value they parse to is read as
    /// [`Document::from_value`] reads it.
    pub fn from_slice(b: &[u8]) -> (r: Result<Document<Resource, Resource>>)
        ensures
            match json_bytes_value(b@) {
                None => r matches Err(e) && e is Json,
                Some(v) => value_read(v, r),
            },
    {
        match parse_json_bytes(b) {
            Ok(v) => Document::from_value(v),
            Err(e) => Err(e),
        }
    }
}

/// What reading the JSON value `v` as a document gives: the error of its
/// first structural flaw (see [`document_flaw`]), else the document it
/// reads as (see [`document_valid`] and [`document_decodes`]), else a
/// shape error.
pub open spec fn value_read(v: JValue, r: Result<Document<Resource, Resource>>) -> bool {
    match document_flaw(v, Seq::empty()) {
        Some(f) => r matches Err(e) && is_flaw_error(e, f, Seq::empty()),
        None => match r {
            Ok(d) => document_valid(v) && document_decodes(v, d),
            Err(e) => !document_valid(v) && e is Json,
        },
    }
}

/// The top-level member names of documents differ from one another.
proof fn lemma_document_names()
    ensures
        "data"@ != "included"@,
        "data"@ != "meta"@,
        "data"@ != "jsonapi"@,
        "data"@ != "links"@,
        "data"@ != "errors"@,
        "included"@ != "meta"@,
        "included"@ != "jsonapi"@,
        "included"@ != "links"@,
        "included"@ != "errors"@,
        "meta"@ != "jsonapi"@,
        "meta"@ != "links"@,
        "meta"@ != "errors"@,
        "jsonapi"@ != "links"@,
        "jsonapi"@ != "errors"@,
        "links"@ != "errors"@,
{
    reveal_strlit("data");
    reveal_strlit("included");
    reveal_strlit("meta");
    reveal_strlit("jsonapi");
    reveal_strlit("links");
    reveal_strlit("errors");
    assert("data"@.len() != "included"@.len());
    assert("data"@[0] != "meta"@[0]);
    assert("data"@.len() != "jsonapi"@.len());
    assert("data"@.len() != "links"@.len());
    assert("data"@.len() != "errors"@.len());
    assert("included"@.len() != "meta"@.len());
    assert("included"@.len() != "jsonapi"@.len());
    assert("included"@.len() != "links"@.len());
    assert("included"@.len() != "errors"@.len());
    assert("meta"@.len() != "jsonapi"@.len());
    assert("meta"@.len() != "links"@.len());
    assert("meta"@.len() != "errors"@.len());
    assert("jsonapi"@.len() != "links"@.len());
    assert("jsonapi"@.len() != "errors"@.len());
    assert("links"@.len() != "errors"@.len());
}

/// The members of a document's JSON form, member by member.
#[verifier::spinoff_prover]
#[verifier::rlimit(40)]
proof fn lemma_document_members(d: Document<Resource, Resource>)
    ensures
        obj_get(document_members(d), "data"@) == match d {
            Document::Data { data, .. } => Some(primary_json(data)),
            _ => None::<JValue>,
        },
        obj_get(document_members(d), "included"@) == match d {
            Document::Data { included, .. } => if included@.len() == 0 {
                None::<JValue>
            } else {
                Some(JValue::Array(resources_json(included@)))
            },
            _ => None::<JValue>,
        },
        obj_get(document_members(d), "errors"@) == match d {
            Document::Errors { errors, .. } => Some(
                JValue::Array(errors@.map_values(|e: ApiError| api_error_json(e))),
            ),
            _ => None::<JValue>,
        },
        obj_get(document_members(d), "meta"@) == match d {
            Document::Data { meta, .. } => match opt_members(meta) {
                Some(x) => Some(JValue::Object(x)),
                None => None::<JValue>,
            },
            Document::Errors { meta, .. } => match opt_members(meta) {
                Some(x) => Some(JValue::Object(x)),
                None => None::<JValue>,
            },
            Document::Meta { meta, .. } => Some(JValue::Object(meta@)),
        },
        obj_get(document_members(d), "jsonapi"@) == match d {
            Document::Data { jsonapi, .. } => match jsonapi {
                Some(j) => Some(jsonapi_json(j)),
                None => None::<JValue>,
            },
            Document::Errors { jsonapi, .. } => match jsonapi {
                Some(j) => Some(jsonapi_json(j)),
                None => None::<JValue>,
            },
            Document::Meta { jsonapi, .. } => match jsonapi {
                Some(j) => Some(jsonapi_json(j)),
                None => None::<JValue>,
            },
        },
        obj_get(document_members(d), "links"@) == match d {
            Document::Data { links, .. } => match links {
                Some(l) => Some(links_json(l)),
                None => None::<JValue>,
            },
            Document::Errors { links, .. } => match links {
                Some(l) => Some(links_json(l)),
                None => None::<JValue>,
            },
            Document::Meta { links, .. } => match links {
                Some(l) => Some(links_json(l)),
                None => None::<JValue>,
            },
        },
{
    lemma_document_names();
    match d {
        Document::Data { data, included, meta, jsonapi, links } => {
            let m0 = obj_set(Seq::empty(), "data"@, primary_json(data));
            let m1 = if included@.len() == 0 {
                m0
            } else {
                obj_set(m0, "included"@, JValue::Array(resources_json(included@)))
            };
            let m2 = set_opt_object(m1, "meta"@, opt_members(meta));
            lemma_obj_get_set(Seq::empty(), "data"@, primary_json(data), "data"@);
            lemma_obj_get_set(Seq::empty(), "data"@, primary_json(data), "included"@);
            lemma_obj_get_set(Seq::empty(), "data"@, primary_json(data), "meta"@);
            lemma_obj_get_set(Seq::empty(), "data"@, primary_json(data), "jsonapi"@);
            lemma_obj_get_set(Seq::empty(), "data"@, primary_json(data), "links"@);
            lemma_obj_get_set(Seq::empty(), "data"@, primary_json(data), "errors"@);
            if included@.len() != 0 {
                lemma_obj_get_set(m0, "included"@, JValue::Array(resources_json(included@)), "data"@);
                lemma_obj_get_set(m0, "included"@, JValue::Array(resources_json(included@)), "included"@);
                lemma_obj_get_set(m0, "included"@, JValue::Array(resources_json(included@)), "meta"@);
                lemma_obj_get_set(m0, "included"@, JValue::Array(resources_json(included@)), "jsonapi"@);
                lemma_obj_get_set(m0, "included"@, JValue::Array(resources_json(included@)), "links"@);
                lemma_obj_get_set(m0, "included"@, JValue::Array(resources_json(included@)), "errors"@);
            }
            if let Some(x) = opt_members(meta) {
                lemma_obj_get_set(m1, "meta"@, JValue::Object(x), "data"@);
                lemma_obj_get_set(m1, "meta"@, JValue::Object(x), "included"@);
                lemma_obj_get_set(m1, "meta"@, JValue::Object(x), "meta"@);
                lemma_obj_get_set(m1, "meta"@, JValue::Object(x), "jsonapi"@);
                lemma_obj_get_set(m1, "meta"@, JValue::Object(x), "links"@);
                lemma_obj_get_set(m1, "meta"@, JValue::Object(x), "errors"@);
            }
            let mj = match jsonapi {
                Some(j) => obj_set(m2, "jsonapi"@, jsonapi_json(j)),
                None => m2,
            };
            if let Some(x) = jsonapi {
                lemma_obj_get_set(m2, "jsonapi"@, jsonapi_json(x), "data"@);
                lemma_obj_get_set(m2, "jsonapi"@, jsonapi_json(x), "included"@);
                lemma_obj_get_set(m2, "jsonapi"@, jsonapi_json(x), "meta"@);
                lemma_obj_get_set(m2, "jsonapi"@, jsonapi_json(x), "jsonapi"@);
                lemma_obj_get_set(m2, "jsonapi"@, jsonapi_json(x), "links"@);
                lemma_obj_get_set(m2, "jsonapi"@, jsonapi_json(x), "errors"@);
            }
            if let Some(x) = links {
                lemma_obj_get_set(mj, "links"@, links_json(x), "data"@);
                lemma_obj_get_set(mj, "links"@, links_json(x), "included"@);
                lemma_obj_get_set(mj, "links"@, links_json(x), "meta"@);
                lemma_obj_get_set(mj, "links"@, links_json(x), "jsonapi"@);
                lemma_obj_get_set(mj, "links"@, links_json(x), "links"@);
                lemma_obj_get_set(mj, "links"@, links_json(x), "errors"@);
            }
        },
        Document::Errors { errors, meta, jsonapi, links } => {
            let m0 = obj_set(
                Seq::empty(),
                "errors"@,
                JValue::Array(errors@.map_values(|e: ApiError| api_error_json(e))),
            );
            let m2 = set_opt_object(m0, "meta"@, opt_members(meta));
            lemma_obj_get_set(Seq::empty(), "errors"@, JValue::Array(errors@.map_values(|e: ApiError| api_error_json(e))), "data"@);
            lemma_obj_get_set(Seq::empty(), "errors"@, JValue::Array(errors@.map_values(|e: ApiError| api_error_json(e))), "included"@);
            lemma_obj_get_set(Seq::empty(), "errors"@, JValue::Array(errors@.map_values(|e: ApiError| api_error_json(e))), "meta"@);
            lemma_obj_get_set(Seq::empty(), "errors"@, JValue::Array(errors@.map_values(|e: ApiError| api_error_json(e))), "jsonapi"@);
            lemma_obj_get_set(Seq::empty(), "errors"@, JValue::Array(errors@.map_values(|e: ApiError| api_error_json(e))), "links"@);
            lemma_obj_get_set(Seq::empty(), "errors"@, JValue::Array(errors@.map_values(|e: ApiError| api_error_json(e))), "errors"@);
            if let Some(x) = opt_members(meta) {
                lemma_obj_get_set(m0, "meta"@, JValue::Object(x), "data"@);
                lemma_obj_get_set(m0, "meta"@, JValue::Object(x), "included"@);
                lemma_obj_get_set(m0, "meta"@, JValue::Object(x), "meta"@);
                lemma_obj_get_set(m0, "meta"@, JValue::Object(x), "jsonapi"@);
                lemma_obj_get_set(m0, "meta"@, JValue::Object(x), "links"@);
                lemma_obj_get_set(m0, "meta"@, JValue::Object(x), "errors"@);
            }
            let mj = match jsonapi {
                Some(j) => obj_set(m2, "jsonapi"@, jsonapi_json(j)),
                None => m2,
            };
            if let Some(x) = jsonapi {
                lemma_obj_get_set(m2, "jsonapi"@, jsonapi_json(x), "data"@);
                lemma_obj_get_set(m2, "jsonapi"@, jsonapi_json(x), "included"@);
                lemma_obj_get_set(m2, "jsonapi"@, jsonapi_json(x), "meta"@);
                lemma_obj_get_set(m2, "jsonapi"@, jsonapi_json(x), "jsonapi"@);
                lemma_obj_get_set(m2, "jsonapi"@, jsonapi_json(x), "links"@);
                lemma_obj_get_set(m2, "jsonapi"@, jsonapi_json(x), "errors"@);
            }
            if let Some(x) = links {
                lemma_obj_get_set(mj, "links"@, links_json(x), "data"@);
                lemma_obj_get_set(mj, "links"@, links_json(x), "included"@);
                lemma_obj_get_set(mj, "links"@, links_json(x), "meta"@);
                lemma_obj_get_set(mj, "links"@, links_json(x), "jsonapi"@);
                lemma_obj_get_set(mj, "links"@, links_json(x), "links"@);
                lemma_obj_get_set(mj, "links"@, links_json(x), "errors"@);
            }
        },
        Document::Meta { meta, jsonapi, links } => {
            let m2 = obj_set(Seq::empty(), "meta"@, JValue::Object(meta@));
            lemma_obj_get_set(Seq::empty(), "meta"@, JValue::Object(meta@), "data"@);
            lemma_obj_get_set(Seq::empty(), "meta"@, JValue::Object(meta@), "included"@);
            lemma_obj_get_set(Seq::empty(), "meta"@, JValue::Object(meta@), "meta"@);
            lemma_obj_get_set(Seq::empty(), "meta"@, JValue::Object(meta@), "jsonapi"@);
            lemma_obj_get_set(Seq::empty(), "meta"@, JValue::Object(meta@), "links"@);
            lemma_obj_get_set(Seq::empty(), "meta"@, JValue::Object(meta@), "errors"@);
            let mj = match jsonapi {
                Some(j) => obj_set(m2, "jsonapi"@, jsonapi_json(j)),
                None => m2,
            };
            if let Some(x) = jsonapi {
                lemma_obj_get_set(m2, "jsonapi"@, jsonapi_json(x), "data"@);
                lemma_obj_get_set(m2, "jsonapi"@, jsonapi_json(x), "included"@);
                lemma_obj_get_set(m2, "jsonapi"@, jsonapi_json(x), "meta"@);
                lemma_obj_get_set(m2, "jsonapi"@, jsonapi_json(x), "jsonapi"@);
                lemma_obj_get_set(m2, "jsonapi"@, jsonapi_json(x), "links"@);
                lemma_obj_get_set(m2, "jsonapi"@, jsonapi_json(x), "errors"@);
            }
            if let Some(x) = links {
                lemma_obj_get_set(mj, "links"@, links_json(x), "data"@);
                lemma_obj_get_set(mj, "links"@, links_json(x), "included"@);
                lemma_obj_get_set(mj, "links"@, links_json(x), "meta"@);
                lemma_obj_get_set(mj, "links"@, links_json(x), "jsonapi"@);
                lemma_obj_get_set(mj, "links"@, links_json(x), "links"@);
                lemma_obj_get_set(mj, "links"@, links_json(x), "errors"@);
            }
        },
    }
}

/// Whether every map in a document is well formed (see [`resource_wf`]),
/// as in every document built by this library's operations.
pub open spec fn document_wf(d: Document<Resource, Resource>) -> bool {
    let links_ok = |l: Option<Links>| match l {
        Some(x) => crate::str_map::StrMap::<Option<crate::model::link::Link>>::sorted(x.0.pairs()),
        None => true,
    };
    match d {
        Document::Data { data, included, links, .. } => {
            &&& match data {
                PrimaryData::Single(b) => resource_wf(*b),
                PrimaryData::Many(v) => forall|i: int| 0 <= i < v@.len() ==> resource_wf(#[trigger] v@[i]),
                PrimaryData::Null => true,
            }
            &&& forall|i: int| 0 <= i < included@.len() ==> resource_wf(#[trigger] included@[i])
            &&& links_ok(links)
        },
        Document::Errors { links, .. } => links_ok(links),
        Document::Meta { links, .. } => links_ok(links),
    }
}

/// The JSON form of a resource has no structural flaw.
proof fn lemma_resource_json_flawless(r: Resource, location: Seq<char>)
    ensures
        resource_flaw(resource_json(r), location, Seq::empty()) is None,
{
    crate::model::resource::lemma_resource_members_relationships(r);
    if r.relationships.pairs().len() != 0 {
        let pairs = r.relationships.pairs();
        let rm = pairs.map_values(
            |e: (Seq<char>, RelationshipData)| (e.0, crate::model::resource::rel_object_json(e.1)),
        );
        assert forall|i: int| 0 <= i < rm.len() implies relationship_flaw(
            #[trigger] rm[i].0,
            rm[i].1,
            location,
        ) is None by {
            lemma_obj_get_set(Seq::empty(), "data"@, crate::model::relationship::rel_data_json(pairs[i].1), "data"@);
        }
        lemma_relationships_flawless(rm, location);
    }
}

/// Relationship members none of which is flawed have no flaw.
proof fn lemma_relationships_flawless(rm: Seq<(Seq<char>, JValue)>, location: Seq<char>)
    requires
        forall|i: int| 0 <= i < rm.len() ==> relationship_flaw(#[trigger] rm[i].0, rm[i].1, location) is None,
    ensures
        relationships_flaw(rm, location) is None,
    decreases rm.len(),
{
    if rm.len() > 0 {
        let d = rm.drop_last();
        assert forall|i: int| 0 <= i < d.len() implies relationship_flaw(#[trigger] d[i].0, d[i].1, location) is None by {
            assert(d[i] == rm[i]);
        }
        lemma_relationships_flawless(d, location);
        assert(rm.last() == rm[rm.len() - 1]);
    }
}

/// The JSON forms of resources have no structural flaw.
proof fn lemma_items_flawless(rs: Seq<Resource>, n: nat)
    requires
        n <= rs.len(),
    ensures
        items_flaw(resources_json(rs), n, Seq::empty()) is None,
    decreases n,
{
    if n > 0 {
        lemma_items_flawless(rs, (n - 1) as nat);
        lemma_resource_json_flawless(rs[n - 1], item_location((n - 1) as nat));
    }
}

/// Reading back the JSON form of a well-formed document gives the
/// document, and the structural pre-pass finds nothing in it.
#[verifier::spinoff_prover]
#[verifier::rlimit(40)]
pub proof fn lemma_document_round_trip(d: Document<Resource, Resource>)
    requires
        document_wf(d),
    ensures
        document_valid(document_json(d)),
        document_decodes(document_json(d), d),
        document_flaw(document_json(d), Seq::empty()) is None,
{
    lemma_document_members(d);
    let m = document_members(d);
    match d {
        Document::Data { data, included, meta, jsonapi, links } => {
            match data {
                PrimaryData::Single(b) => {
                    lemma_resource_round_trip(*b);
                    lemma_resource_json_flawless(*b, "data"@);
                },
                PrimaryData::Many(v) => {
                    let items = resources_json(v@);
                    assert forall|i: int| 0 <= i < v@.len() implies resource_valid(#[trigger] items[i])
                        && resource_decodes(items[i], v@[i]) by {
                        lemma_resource_round_trip(v@[i]);
                    }
                    lemma_items_flawless(v@, v@.len());
                    assert(primary_json(data)->Array_0 == items);
                },
                PrimaryData::Null => {},
            }
            let inc = resources_json(included@);
            assert forall|i: int| 0 <= i < included@.len() implies resource_valid(#[trigger] inc[i])
                && resource_decodes(inc[i], included@[i]) by {
                lemma_resource_round_trip(included@[i]);
            }
            if included@.len() != 0 {
                assert(obj_get(m, "included"@)->Some_0->Array_0 == inc);
            }
            if let Some(j) = jsonapi {
                lemma_jsonapi_round_trip(j);
            }
            if let Some(l) = links {
                lemma_links_round_trip(l);
            }
        },
        Document::Errors { errors, meta, jsonapi, links } => {
            let items = errors@.map_values(|e: ApiError| api_error_json(e));
            assert forall|i: int| 0 <= i < errors@.len() implies api_error_valid(#[trigger] items[i])
                && api_error_decodes(items[i], errors@[i]) by {
                lemma_api_error_round_trip(errors@[i]);
            }
            assert(obj_get(m, "errors"@)->Some_0->Array_0 == items);
            if let Some(j) = jsonapi {
                lemma_jsonapi_round_trip(j);
            }
            if let Some(l) = links {
                lemma_links_round_trip(l);
            }
        },
        Document::Meta { meta, jsonapi, links } => {
            if let Some(j) = jsonapi {
                lemma_jsonapi_round_trip(j);
            }
            if let Some(l) = links {
                lemma_links_round_trip(l);
            }
        },
    }
}

} // verus!
