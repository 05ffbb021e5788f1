//! Self- and related-link assembly.
//!
//! Builds the URL strings (and convenient [`Links`] maps) of resources,
//! collections and relationships from a base URL plus the resource `type`,
//! `id` and relationship name. The resource `id` is percent-encoded as a
//! single path segment; `type` and relationship names are member names
//! (already restricted to path-safe characters) and are emitted verbatim.
use crate::encoding::{percent_encode, percent_encoded, EncodeSet};
use crate::model::link::{Link, Links};
use crate::text::{chars_of, owned, push_str};
use vstd::prelude::*;
use vstd::utf8::encode_utf8;

verus! {

/// `base` without one trailing `/`.
pub open spec fn trimmed_base(base: Seq<char>) -> Seq<char> {
    if base.len() > 0 && base.last() == '/' {
        base.drop_last()
    } else {
        base
    }
}

/// `id` percent-encoded as one path segment.
pub open spec fn path_segment(id: Seq<char>) -> Seq<char> {
    percent_encoded(EncodeSet::PathSegment, encode_utf8(id))
}

/// `{base}/{type}`.
pub open spec fn collection_self_url(base: Seq<char>, type_: Seq<char>) -> Seq<char> {
    trimmed_base(base) + "/"@ + type_
}

/// `{base}/{type}/{id}`.
pub open spec fn resource_self_url(base: Seq<char>, type_: Seq<char>, id: Seq<char>) -> Seq<char> {
    trimmed_base(base) + "/"@ + type_ + "/"@ + path_segment(id)
}

/// `{base}/{type}/{id}/relationships/{name}`.
pub open spec fn relationship_self_url(
    base: Seq<char>,
    type_: Seq<char>,
    id: Seq<char>,
    name: Seq<char>,
) -> Seq<char> {
    resource_self_url(base, type_, id) + "/relationships/"@ + name
}

/// `{base}/{type}/{id}/{name}`.
pub open spec fn relationship_related_url(
    base: Seq<char>,
    type_: Seq<char>,
    id: Seq<char>,
    name: Seq<char>,
) -> Seq<char> {
    resource_self_url(base, type_, id) + "/"@ + name
}

/// A link map holding exactly one string link `rel` with value `url`.
pub open spec fn is_single_link(links: Links, rel: Seq<char>, url: Seq<char>) -> bool {
    &&& links.0.lookup(rel) matches Some(Some(Link::String(s))) && s@ == url
    &&& forall|k: Seq<char>| k != rel ==> #[trigger] links.0.lookup(k) is None
}

/// Trim a single trailing `/` from a base URL so joins never double the slash.
fn trim_base(base: &str) -> (r: &str)
    ensures
        r@ == trimmed_base(base@),
{
    let v = chars_of(base);
    let n = v.len();
    if n > 0 && v[n - 1] == '/' {
        assert(base@.drop_last() =~= base@.subrange(0, n - 1));
        base.substring_char(0, n - 1)
    } else {
        base
    }
}

/// Collection self link: `{base}/{type}`.
pub fn collection_self(base: &str, type_: &str) -> (r: String)
    ensures
        r@ == collection_self_url(base@, type_@),
{
    let mut s = owned(trim_base(base));
    push_str(&mut s, "/");
    push_str(&mut s, type_);
    s
}

/// Resource self link: `{base}/{type}/{id}`.
pub fn resource_self(base: &str, type_: &str, id: &str) -> (r: String)
    ensures
        r@ == resource_self_url(base@, type_@, id@),
{
    let mut s = collection_self(base, type_);
    push_str(&mut s, "/");
    let seg = percent_encode(id, EncodeSet::PathSegment);
    push_str(&mut s, seg.as_str());
    s
}

/// Relationship self link: `{base}/{type}/{id}/relationships/{name}` — the
/// endpoint operating on the relationship's linkage.
pub fn relationship_self(base: &str, type_: &str, id: &str, name: &str) -> (r: String)
    ensures
        r@ == relationship_self_url(base@, type_@, id@, name@),
{
    let mut s = resource_self(base, type_, id);
    push_str(&mut s, "/relationships/");
    push_str(&mut s, name);
    s
}

/// Relationship related link: `{base}/{type}/{id}/{name}` — the endpoint
/// returning the related resource(s).
pub fn relationship_related(base: &str, type_: &str, id: &str, name: &str) -> (r: String)
    ensures
        r@ == relationship_related_url(base@, type_@, id@, name@),
{
    let mut s = resource_self(base, type_, id);
    push_str(&mut s, "/");
    push_str(&mut s, name);
    s
}

/// A `{ "self": … }` [`Links`] map for a resource.
pub fn resource_self_links(base: &str, type_: &str, id: &str) -> (r: Links)
    ensures
        is_single_link(r, "self"@, resource_self_url(base@, type_@, id@)),
{
    let mut links = Links::new();
    links.insert("self", Some(Link::String(resource_self(base, type_, id))));
    links
}

/// A `{ "self": … }` [`Links`] map for a collection.
pub fn collection_self_links(base: &str, type_: &str) -> (r: Links)
    ensures
        is_single_link(r, "self"@, collection_self_url(base@, type_@)),
{
    let mut links = Links::new();
    links.insert("self", Some(Link::String(collection_self(base, type_))));
    links
}

/// A `{ "self": …, "related": … }` [`Links`] map for a relationship.
pub fn relationship_links(base: &str, type_: &str, id: &str, name: &str) -> (r: Links)
    ensures
        r.0.lookup("self"@) matches Some(Some(Link::String(s))) && s@ == relationship_self_url(
            base@,
            type_@,
            id@,
            name@,
        ),
        r.0.lookup("related"@) matches Some(Some(Link::String(s))) && s@
            == relationship_related_url(base@, type_@, id@, name@),
        forall|k: Seq<char>| k != "self"@ && k != "related"@ ==> #[trigger] r.0.lookup(k) is None,
{
    let mut links = Links::new();
    links.insert("self", Some(Link::String(relationship_self(base, type_, id, name))));
    links.insert("related", Some(Link::String(relationship_related(base, type_, id, name))));
    proof {
        reveal_strlit("self");
        reveal_strlit("related");
        assert("self"@ != "related"@) by {
            assert("self"@.len() != "related"@.len());
        }
    }
    links
}

} // verus!
