//! Links: bare URL strings or link objects, and name → link maps.
use crate::error::{shape_error, Result};
use crate::json::{
    copy_object, json_view, json_view_seq, lemma_json_view_seq, lemma_members_view,
    lemma_obj_get_push, lemma_obj_get_set, lemma_obj_index, member_index, members_view, obj_get,
    obj_index, obj_set, opt_members, opt_text, set_opt_object, set_opt_str, write_opt_object,
    write_opt_str, JValue, JsonObject, JsonValue, Meta,
};
use crate::record::{
    is_record, object_field, present, read_object_field, read_str_field, record_shape, slot,
    slot_of, str_field,
};
use crate::str_map::{lemma_lex_irreflexive, StrMap};
use crate::text::owned;
use vstd::prelude::*;

verus! {

/// Language tag(s) for a link — single string or array.
#[non_exhaustive]
#[derive(Debug, Clone, PartialEq, Eq)]
pub enum Hreflang {
    /// A single language tag (e.g. `"en"`).
    Single(String),
    /// Multiple language tags (e.g. `["en", "fr"]`).
    Multiple(Vec<String>),
}

/// JSON:API link object (as opposed to a bare URL string).
#[derive(Debug, PartialEq)]
pub struct LinkObject {
    /// The link's URI.
    pub href: String,
    /// The link's relation type (RFC 8288).
    pub rel: Option<String>,
    /// A link that describes the target resource.
    pub describedby: Option<Box<Link>>,
    /// Human-readable label for the link.
    pub title: Option<String>,
    /// Media type hint for the target resource.
    pub type_: Option<String>,
    /// Language tag(s) for the target resource (RFC 5646).
    pub hreflang: Option<Hreflang>,
    /// Link-level meta information.
    pub meta: Option<Meta>,
}

/// A link value: either a bare URL string or a link object.
#[non_exhaustive]
#[derive(Debug, PartialEq)]
pub enum Link {
    /// A bare URL string.
    String(String),
    /// A full link object with optional metadata.
    Object(LinkObject),
}

fn copy_opt_string(s: &Option<String>) -> (r: Option<String>)
    ensures
        r == *s,
{
    match s {
        Some(x) => Some(x.clone()),
        None => None,
    }
}

fn copy_hreflang(h: &Hreflang) -> (r: Hreflang)
    ensures
        same_hreflang(*h, r),
{
    match h {
        Hreflang::Single(x) => Hreflang::Single(x.clone()),
        Hreflang::Multiple(v) => {
            let mut out: Vec<String> = Vec::new();
            let mut i: usize = 0;
            while i < v.len()
                invariant
                    0 <= i <= v@.len(),
                    out@ == v@.take(i as int),
                decreases v@.len() - i,
            {
                out.push(v[i].clone());
                assert(out@ =~= v@.take(i + 1));
                i += 1;
            }
            assert(out@ =~= v@);
            Hreflang::Multiple(out)
        },
    }
}

/// A copy of a link.
fn copy_link(l: &Link) -> (r: Link)
    ensures
        same_link(*l, r),
    decreases l,
{
    match l {
        Link::String(s) => Link::String(s.clone()),
        Link::Object(o) => Link::Object(copy_link_object(o)),
    }
}

/// A copy of a link object.
fn copy_link_object(o: &LinkObject) -> (r: LinkObject)
    ensures
        same_link_object(*o, r),
    decreases o,
{
    LinkObject {
        href: o.href.clone(),
        rel: copy_opt_string(&o.rel),
        describedby: match &o.describedby {
            Some(b) => Some(Box::new(copy_link(b))),
            None => None,
        },
        title: copy_opt_string(&o.title),
        type_: copy_opt_string(&o.type_),
        hreflang: match &o.hreflang {
            Some(h) => Some(copy_hreflang(h)),
            None => None,
        },
        meta: match &o.meta {
            Some(m) => Some(copy_object(m)),
            None => None,
        },
    }
}

/// `b` holds the same language tags as `a`, in the same order.
pub open spec fn same_hreflang(a: Hreflang, b: Hreflang) -> bool {
    match a {
        Hreflang::Single(x) => b matches Hreflang::Single(y) && x == y,
        Hreflang::Multiple(xs) => b matches Hreflang::Multiple(ys) && xs@ == ys@,
    }
}

/// `b` is the same link as `a`: the same URL string, or a link object with
/// the same members (see [`same_link_object`]).
pub open spec fn same_link(a: Link, b: Link) -> bool
    decreases a,
{
    match a {
        Link::String(x) => b matches Link::String(y) && x == y,
        Link::Object(o) => b matches Link::Object(p) && same_link_object(o, p),
    }
}

/// `p` is the same link object as `o`: equal `href`, `rel`, `title` and
/// `type`, the same `describedby` link and language tags when set, and a
/// `meta` object with the same members.
pub open spec fn same_link_object(o: LinkObject, p: LinkObject) -> bool
    decreases o,
{
    &&& o.href == p.href
    &&& o.rel == p.rel
    &&& o.title == p.title
    &&& o.type_ == p.type_
    &&& match o.describedby {
        None => p.describedby is None,
        Some(d) => p.describedby matches Some(e) && same_link(*d, *e),
    }
    &&& match o.hreflang {
        None => p.hreflang is None,
        Some(h) => p.hreflang matches Some(k) && same_hreflang(h, k),
    }
    &&& opt_members(o.meta) == opt_members(p.meta)
}

impl Clone for Link {
    fn clone(&self) -> Self {
        copy_link(self)
    }
}

impl Clone for LinkObject {
    fn clone(&self) -> Self {
        copy_link_object(self)
    }
}

/// Map of link names to link values. Null links are represented as `None`.
/// Names are kept in lexicographic order.
#[derive(Debug, Clone, PartialEq)]
pub struct Links(pub StrMap<Option<Link>>);

/// `links` holds exactly the names of `urls`, each with a bare string link
/// to its URL.
pub open spec fn holds_string_links(links: Links, urls: Map<Seq<char>, Seq<char>>) -> bool {
    forall|k: Seq<char>|
        match #[trigger] links.0.lookup(k) {
            None => !urls.contains_key(k),
            Some(Some(Link::String(s))) => urls.contains_key(k) && s@ == urls[k],
            Some(_) => false,
        }
}

impl Default for Links {
    /// An empty link map.
    fn default() -> (r: Self)
        ensures
            r.0.pairs().len() == 0,
    {
        Links(StrMap::new())
    }
}

impl Links {
    /// Construct an empty link map.
    pub fn new() -> (r: Self)
        ensures
            r.0.pairs().len() == 0,
            forall|k: Seq<char>| #[trigger] r.0.lookup(k) is None,
    {
        Links(StrMap::new())
    }

    /// Store `link` (or a `null` link) under `rel`, replacing any previous entry.
    pub fn insert(&mut self, rel: &str, link: Option<Link>)
        ensures
            final(self).0.lookup(rel@) == Some(link),
            forall|k: Seq<char>| k != rel@ ==> #[trigger] final(self).0.lookup(k) == old(self).0.lookup(k),
    {
        self.0.insert(owned(rel), link);
    }

    /// `true` if the map contains the given link name, regardless of whether
    /// the link itself is `null`.
    pub fn contains(&self, rel: &str) -> (b: bool)
        ensures
            b == self.0.has(rel@),
    {
        self.0.contains_key(rel)
    }

    /// Borrow the link for `rel` if it is present *and* non-null; `None` for
    /// both "key absent" and "key present, value `null`".
    pub fn get(&self, rel: &str) -> (r: Option<&Link>)
        ensures
            match r {
                Some(l) => self.0.lookup(rel@) == Some(Some(*l)),
                None => self.0.lookup(rel@) is None || self.0.lookup(rel@) == Some(None::<Link>),
            },
    {
        match self.0.get(rel) {
            Some(Some(l)) => Some(l),
            _ => None,
        }
    }

    /// The `(name, link)` pairs in name order, skipping `null` links.
    pub fn iter(&self) -> (r: Vec<(&str, &Link)>)
        ensures
            r@.map_values(|e: (&str, &Link)| (e.0@, Some(*e.1))) == self.0.pairs().filter(
                |e: (Seq<char>, Option<Link>)| e.1 is Some,
            ),
    {
        let entries = self.0.entries();
        let ghost pairs = self.0.pairs();
        let mut r: Vec<(&str, &Link)> = Vec::new();
        let mut i: usize = 0;
        while i < entries.len()
            invariant
                0 <= i <= entries@.len(),
                entries@.map_values(|e: (String, Option<Link>)| (e.0@, e.1)) == pairs,
                r@.map_values(|e: (&str, &Link)| (e.0@, Some(*e.1))) == pairs.take(i as int).filter(
                    |e: (Seq<char>, Option<Link>)| e.1 is Some,
                ),
            decreases entries@.len() - i,
        {
            let ghost before = r@.map_values(|e: (&str, &Link)| (e.0@, Some(*e.1)));
            assert(pairs.take(i + 1).drop_last() =~= pairs.take(i as int));
            assert(pairs[i as int] == (entries@[i as int].0@, entries@[i as int].1));
            proof {
                reveal_with_fuel(Seq::filter, 1);
            }
            match &entries[i].1 {
                Some(l) => {
                    r.push((entries[i].0.as_str(), l));
                    assert(r@.map_values(|e: (&str, &Link)| (e.0@, Some(*e.1))) =~= before.push(
                        pairs[i as int],
                    ));
                },
                None => {
                    assert(r@.map_values(|e: (&str, &Link)| (e.0@, Some(*e.1))) =~= before);
                },
            }
            i += 1;
        }
        assert(pairs.take(i as int) =~= pairs);
        r
    }

    /// The link names in lexicographic order, `null` links included.
    pub fn keys(&self) -> (r: Vec<&str>)
        ensures
            r@.map_values(|s: &str| s@) == self.0.keys_view(),
    {
        self.0.keys()
    }

    /// Total number of entries (counts `null`-valued entries too).
    pub fn len(&self) -> (n: usize)
        ensures
            n == self.0.pairs().len(),
    {
        self.0.len()
    }

    /// `true` if there are no entries at all.
    pub fn is_empty(&self) -> (b: bool)
        ensures
            b == (self.0.pairs().len() == 0),
    {
        self.0.is_empty()
    }
}

/// The JSON form of language tags: a string or an array of strings.
pub open spec fn hreflang_json(h: Hreflang) -> JValue {
    match h {
        Hreflang::Single(s) => JValue::Str(s@),
        Hreflang::Multiple(v) => JValue::Array(v@.map_values(|s: String| JValue::Str(s@))),
    }
}

/// Whether a JSON value reads as language tags.
pub open spec fn hreflang_valid(v: JValue) -> bool {
    match v {
        JValue::Str(_) => true,
        JValue::Array(items) => forall|i: int| 0 <= i < items.len() ==> (#[trigger] items[i]) is Str,
        _ => false,
    }
}

/// Whether `h` is what the JSON value `v` reads as.
pub open spec fn hreflang_decodes(v: JValue, h: Hreflang) -> bool {
    match v {
        JValue::Str(s) => h matches Hreflang::Single(x) && x@ == s,
        JValue::Array(items) => h matches Hreflang::Multiple(xs) && xs@.len() == items.len()
            && forall|i: int| 0 <= i < items.len() ==> #[trigger] items[i] == JValue::Str(xs@[i]@),
        _ => false,
    }
}

/// The JSON form of a link: the URL string, or the link object's members.
pub open spec fn link_json(l: Link) -> JValue
    decreases l,
{
    match l {
        Link::String(s) => JValue::Str(s@),
        Link::Object(o) => JValue::Object(link_object_members(o)),
    }
}

/// The members of a link object's JSON form: `href`, then each optional
/// member that is present.
pub open spec fn link_object_members(o: LinkObject) -> Seq<(Seq<char>, JValue)>
    decreases o,
{
    let m0 = obj_set(Seq::empty(), "href"@, JValue::Str(o.href@));
    let m1 = set_opt_str(m0, "rel"@, opt_text(o.rel));
    let m2 = match o.describedby {
        Some(b) => obj_set(m1, "describedby"@, link_json(*b)),
        None => m1,
    };
    let m3 = set_opt_str(m2, "title"@, opt_text(o.title));
    let m4 = set_opt_str(m3, "type"@, opt_text(o.type_));
    let m5 = match o.hreflang {
        Some(h) => obj_set(m4, "hreflang"@, hreflang_json(h)),
        None => m4,
    };
    set_opt_object(m5, "meta"@, opt_members(o.meta))
}

/// Whether the fields of a link object other than `describedby` read from
/// `v`: a record of seven fields (an object, or an array of exactly seven
/// elements in the order `href`, `rel`, `describedby`, `title`, `type`,
/// `hreflang`, `meta`) with a string `href`, optional strings `rel`,
/// `title`, `type`, optional language tags `hreflang` and an optional
/// object `meta` (absent and `null` alike count as missing).
pub open spec fn link_fields_valid(v: JValue) -> bool {
    &&& record_shape(v, 7, 7)
    &&& slot(v, "href"@, 0) matches Some(JValue::Str(_))
    &&& str_field(slot(v, "rel"@, 1)) is Some
    &&& str_field(slot(v, "title"@, 3)) is Some
    &&& str_field(slot(v, "type"@, 4)) is Some
    &&& match present(slot(v, "hreflang"@, 5)) {
        None => true,
        Some(h) => hreflang_valid(h),
    }
    &&& object_field(slot(v, "meta"@, 6)) is Some
}

/// Whether the fields of `o` other than `describedby` are what `v` reads as.
pub open spec fn link_fields_decode(v: JValue, o: LinkObject) -> bool {
    &&& slot(v, "href"@, 0) == Some(JValue::Str(o.href@))
    &&& str_field(slot(v, "rel"@, 1)) == Some(opt_text(o.rel))
    &&& str_field(slot(v, "title"@, 3)) == Some(opt_text(o.title))
    &&& str_field(slot(v, "type"@, 4)) == Some(opt_text(o.type_))
    &&& match present(slot(v, "hreflang"@, 5)) {
        None => o.hreflang is None,
        Some(h) => o.hreflang matches Some(x) && hreflang_decodes(h, x),
    }
    &&& object_field(slot(v, "meta"@, 6)) == Some(opt_members(o.meta))
}

/// Whether a JSON value reads as a link: a string, or a link object whose
/// fields read (see [`link_fields_valid`]) and whose `describedby`, when
/// present and not `null`, reads as a link.
pub open spec fn link_valid(v: JValue) -> bool
    decreases v,
{
    match v {
        JValue::Str(_) => true,
        JValue::Object(m) => {
            let i = obj_index(m, "describedby"@);
            &&& link_fields_valid(v)
            &&& (0 <= i < m.len() && !(m[i].1 is Null)) ==> link_valid(m[i].1)
        },
        JValue::Array(items) => {
            &&& link_fields_valid(v)
            &&& (items.len() == 7 && !(items[2] is Null)) ==> link_valid(items[2])
        },
        _ => false,
    }
}

/// Whether `l` is what the JSON value `v` reads as.
pub open spec fn link_decodes(v: JValue, l: Link) -> bool
    decreases v,
{
    match v {
        JValue::Str(s) => l matches Link::String(x) && x@ == s,
        JValue::Object(m) => {
            let i = obj_index(m, "describedby"@);
            &&& l is Object
            &&& link_fields_decode(v, l->Object_0)
            &&& if 0 <= i < m.len() && !(m[i].1 is Null) {
                l->Object_0.describedby matches Some(b) && link_decodes(m[i].1, *b)
            } else {
                l->Object_0.describedby is None
            }
        },
        JValue::Array(items) => {
            &&& l is Object
            &&& link_fields_decode(v, l->Object_0)
            &&& if items.len() == 7 && !(items[2] is Null) {
                l->Object_0.describedby matches Some(b) && link_decodes(items[2], *b)
            } else {
                l->Object_0.describedby is None
            }
        },
        _ => false,
    }
}

/// The JSON form of a possibly-`null` link.
pub open spec fn opt_link_json(o: Option<Link>) -> JValue {
    match o {
        Some(l) => link_json(l),
        None => JValue::Null,
    }
}

/// The JSON form of a link map: an object with one member per name.
pub open spec fn links_json(l: Links) -> JValue {
    JValue::Object(
        l.0.pairs().map_values(|e: (Seq<char>, Option<Link>)| (e.0, opt_link_json(e.1))),
    )
}

/// Whether a JSON value reads as a link map: an object whose members are
/// `null` or links.
pub open spec fn links_valid(v: JValue) -> bool {
    match v {
        JValue::Object(m) => forall|i: int|
            0 <= i < m.len() ==> (#[trigger] m[i]).1 is Null || link_valid(m[i].1),
        _ => false,
    }
}

/// Whether the link map `l` is what the JSON value `v` reads as: each
/// member's name maps to `None` for `null`, to the link it reads as
/// otherwise.
pub open spec fn links_decodes(v: JValue, l: Links) -> bool {
    match v {
        JValue::Object(m) => forall|k: Seq<char>|
            match #[trigger] obj_get(m, k) {
                None => l.0.lookup(k) is None,
                Some(JValue::Null) => l.0.lookup(k) == Some(None::<Link>),
                Some(x) => l.0.lookup(k) matches Some(Some(y)) && link_decodes(x, y),
            },
        _ => false,
    }
}

impl Hreflang {
    /// The JSON form of the language tags.
    pub fn to_json(&self) -> (r: JsonValue)
        ensures
            r@ == hreflang_json(*self),
    {
        match self {
            Hreflang::Single(s) => JsonValue::String(s.clone()),
            Hreflang::Multiple(v) => {
                let mut items: Vec<JsonValue> = Vec::new();
                let mut i: usize = 0;
                while i < v.len()
                    invariant
                        0 <= i <= v@.len(),
                        json_view_seq(items@) == v@.take(i as int).map_values(
                            |s: String| JValue::Str(s@),
                        ),
                    decreases v@.len() - i,
                {
                    let ghost before = items@;
                    items.push(JsonValue::String(v[i].clone()));
                    assert(items@.drop_last() =~= before);
                    assert(items@.last() == JsonValue::String(v@[i as int]));
                    assert(json_view(items@.last()) == JValue::Str(v@[i as int]@));
                    assert(json_view_seq(items@) == json_view_seq(before).push(JValue::Str(v@[i as int]@)));
                    assert(v@.take(i + 1).map_values(|s: String| JValue::Str(s@)) =~= v@.take(
                        i as int,
                    ).map_values(|s: String| JValue::Str(s@)).push(JValue::Str(v@[i as int]@)));
                    i += 1;
                }
                assert(v@.take(i as int) =~= v@);
                JsonValue::Array(items)
            },
        }
    }

    /// Read language tags from their JSON form.
    pub fn from_json(v: &JsonValue) -> (r: Result<Hreflang>)
        ensures
            match r {
                Ok(h) => hreflang_valid(v@) && hreflang_decodes(v@, h),
                Err(e) => !hreflang_valid(v@) && e is Json,
            },
    {
        match v {
            JsonValue::String(s) => Ok(Hreflang::Single(s.clone())),
            JsonValue::Array(items) => {
                proof {
                    lemma_json_view_seq(items@);
                }
                let ghost iv = json_view_seq(items@);
                let mut out: Vec<String> = Vec::new();
                let mut i: usize = 0;
                while i < items.len()
                    invariant
                        0 <= i <= items@.len(),
                        iv == json_view_seq(items@),
                        v@ == JValue::Array(iv),
                        iv.len() == items@.len(),
                        forall|j: int| 0 <= j < items@.len() ==> #[trigger] iv[j] == items@[j]@,
                        out@.len() == i,
                        forall|j: int| 0 <= j < i ==> #[trigger] iv[j] == JValue::Str(out@[j]@),
                    decreases items@.len() - i,
                {
                    assert(iv[i as int] == items@[i as int]@);
                    match &items[i] {
                        JsonValue::String(s) => out.push(s.clone()),
                        _ => {
                            assert(!(iv[i as int] is Str));
                            assert(hreflang_valid(v@) ==> iv[i as int] is Str);
                            return Err(shape_error("hreflang must be a string or an array of strings"));
                        },
                    }
                    i += 1;
                }
                Ok(Hreflang::Multiple(out))
            },
            _ => Err(shape_error("hreflang must be a string or an array of strings")),
        }
    }
}

impl Link {
    /// The JSON form of the link.
    pub fn to_json(&self) -> (r: JsonValue)
        ensures
            r@ == link_json(*self),
        decreases self,
    {
        match self {
            Link::String(s) => JsonValue::String(s.clone()),
            Link::Object(o) => {
                let mut m = JsonObject::new();
                m.insert(owned("href"), JsonValue::String(o.href.clone()));
                write_opt_str(&mut m, "rel", &o.rel);
                match &o.describedby {
                    Some(b) => {
                        let d = (&**b).to_json();
                        m.insert(owned("describedby"), d);
                    },
                    None => {},
                }
                write_opt_str(&mut m, "title", &o.title);
                write_opt_str(&mut m, "type", &o.type_);
                match &o.hreflang {
                    Some(h) => m.insert(owned("hreflang"), h.to_json()),
                    None => {},
                }
                write_opt_object(&mut m, "meta", &o.meta);
                JsonValue::Object(m)
            },
        }
    }

    /// Read a link from its JSON form (see [`link_valid`]); anything else is
    /// a shape error.
    pub fn from_json(v: &JsonValue) -> (r: Result<Link>)
        ensures
            match r {
                Ok(l) => link_valid(v@) && link_decodes(v@, l),
                Err(e) => !link_valid(v@) && e is Json,
            },
        decreases v,
    {
        match v {
            JsonValue::String(s) => Ok(Link::String(s.clone())),
            JsonValue::Object(_) | JsonValue::Array(_) => {
                if !is_record(v, 7, 7) {
                    return Err(shape_error("a link object must be an object or an array of seven fields"));
                }
                let href = match slot_of(v, "href", 0) {
                    Some(JsonValue::String(h)) => h.clone(),
                    _ => return Err(shape_error("link object must have an `href` string")),
                };
                let rel = read_str_field(v, "rel", 1)?;
                let describedby = match v {
                    JsonValue::Object(o) => {
                        let ghost m = o@;
                        proof {
                            lemma_members_view(o.members@);
                        }
                        let ghost di = obj_index(m, "describedby"@);
                        match member_index(o, "describedby") {
                            Some(i) => {
                                proof {
                                    broadcast use vstd::std_specs::vec::axiom_vec_index_decreases;

                                    assert(decreases_to!(o.members => o.members[i as int]));
                                }
                                let d = &o.members[i].1;
                                assert(m[di].1 == d@);
                                if d.is_null() {
                                    None
                                } else {
                                    match Link::from_json(d) {
                                        Ok(x) => Some(Box::new(x)),
                                        Err(e) => {
                                            assert(!link_valid(m[di].1));
                                            return Err(e);
                                        },
                                    }
                                }
                            },
                            None => None,
                        }
                    },
                    JsonValue::Array(items) => {
                        proof {
                            lemma_json_view_seq(items@);
                            broadcast use vstd::std_specs::vec::axiom_vec_index_decreases;

                            assert(decreases_to!(items => items[2]));
                        }
                        let d = &items[2];
                        assert(json_view_seq(items@)[2] == d@);
                        if d.is_null() {
                            None
                        } else {
                            match Link::from_json(d) {
                                Ok(x) => Some(Box::new(x)),
                                Err(e) => {
                                    assert(!link_valid(json_view_seq(items@)[2]));
                                    return Err(e);
                                },
                            }
                        }
                    },
                    _ => None,
                };
                let title = read_str_field(v, "title", 3)?;
                let type_ = read_str_field(v, "type", 4)?;
                let hreflang = match slot_of(v, "hreflang", 5) {
                    None => None,
                    Some(JsonValue::Null) => None,
                    Some(h) => Some(Hreflang::from_json(h)?),
                };
                let meta = read_object_field(v, "meta", 6)?;
                Ok(
                    Link::Object(
                        LinkObject { href, rel, describedby, title, type_, hreflang, meta },
                    ),
                )
            },
            _ => Err(shape_error("a link must be a string or a link object")),
        }
    }
}

impl Links {
    /// The JSON form of the link map.
    pub fn to_json(&self) -> (r: JsonValue)
        ensures
            r@ == links_json(*self),
    {
        let entries = self.0.entries();
        let ghost pairs = self.0.pairs();
        let ghost f = |e: (Seq<char>, Option<Link>)| (e.0, opt_link_json(e.1));
        let mut members: Vec<(String, JsonValue)> = Vec::new();
        let mut i: usize = 0;
        while i < entries.len()
            invariant
                0 <= i <= entries@.len(),
                entries@.map_values(|e: (String, Option<Link>)| (e.0@, e.1)) == pairs,
                f == (|e: (Seq<char>, Option<Link>)| (e.0, opt_link_json(e.1))),
                members_view(members@) == pairs.take(i as int).map_values(f),
            decreases entries@.len() - i,
        {
            let ghost before = members@;
            assert(pairs[i as int] == (entries@[i as int].0@, entries@[i as int].1));
            let v = match &entries[i].1 {
                Some(l) => l.to_json(),
                None => JsonValue::Null,
            };
            members.push((entries[i].0.clone(), v));
            assert(members@.drop_last() =~= before);
            assert(pairs.take(i + 1).map_values(f) =~= pairs.take(i as int).map_values(f).push(
                f(pairs[i as int]),
            ));
            i += 1;
        }
        assert(pairs.take(i as int) =~= pairs);
        JsonValue::Object(JsonObject { members })
    }

    /// Read a link map from its JSON form (see [`links_valid`]); anything
    /// else is a shape error.
    pub fn from_json(v: &JsonValue) -> (r: Result<Links>)
        ensures
            match r {
                Ok(l) => links_valid(v@) && links_decodes(v@, l),
                Err(e) => !links_valid(v@) && e is Json,
            },
    {
        let o = match v.as_object() {
            Some(o) => o,
            None => return Err(shape_error("links must be an object")),
        };
        let ghost m = o@;
        proof {
            lemma_members_view(o.members@);
        }
        let mut links = Links::new();
        let mut i: usize = 0;
        while i < o.members.len()
            invariant
                0 <= i <= o.members@.len(),
                v@ == JValue::Object(m),
                m == o@,
                m.len() == o.members@.len(),
                forall|j: int|
                    0 <= j < o.members@.len() ==> #[trigger] m[j] == (
                        o.members@[j].0@,
                        json_view(o.members@[j].1),
                    ),
                forall|j: int| 0 <= j < i ==> (#[trigger] m[j]).1 is Null || link_valid(m[j].1),
                forall|k: Seq<char>|
                    match #[trigger] obj_get(m.take(i as int), k) {
                        None => links.0.lookup(k) is None,
                        Some(JValue::Null) => links.0.lookup(k) == Some(None::<Link>),
                        Some(x) => links.0.lookup(k) matches Some(Some(y)) && link_decodes(x, y),
                    },
            decreases o.members@.len() - i,
        {
            let ghost e = m[i as int];
            assert(e == (o.members@[i as int].0@, json_view(o.members@[i as int].1)));
            assert(m.take(i + 1) =~= m.take(i as int).push(e));
            let ghost prev = links;
            let val = &o.members[i].1;
            if val.is_null() {
                links.insert(o.members[i].0.as_str(), None);
            } else {
                match Link::from_json(val) {
                    Ok(l) => links.insert(o.members[i].0.as_str(), Some(l)),
                    Err(err) => {
                        assert(!link_valid(m[i as int].1));
                        assert(links_valid(v@) ==> (m[i as int].1 is Null || link_valid(m[i as int].1)));
                        return Err(err);
                    },
                }
            }
            assert forall|k: Seq<char>|
                match #[trigger] obj_get(m.take(i + 1), k) {
                    None => links.0.lookup(k) is None,
                    Some(JValue::Null) => links.0.lookup(k) == Some(None::<Link>),
                    Some(x) => links.0.lookup(k) matches Some(Some(y)) && link_decodes(x, y),
                } by {
                lemma_obj_get_push(m.take(i as int), e, k);
                if k != e.0 {
                    assert(links.0.lookup(k) == prev.0.lookup(k));
                }
            }
            i += 1;
        }
        assert(m.take(i as int) =~= m);
        Ok(links)
    }
}

/// The member names of link objects differ from one another.
proof fn lemma_link_names()
    ensures
        "href"@ != "rel"@,
        "href"@ != "describedby"@,
        "href"@ != "title"@,
        "href"@ != "type"@,
        "href"@ != "hreflang"@,
        "href"@ != "meta"@,
        "rel"@ != "describedby"@,
        "rel"@ != "title"@,
        "rel"@ != "type"@,
        "rel"@ != "hreflang"@,
        "rel"@ != "meta"@,
        "describedby"@ != "title"@,
        "describedby"@ != "type"@,
        "describedby"@ != "hreflang"@,
        "describedby"@ != "meta"@,
        "title"@ != "type"@,
        "title"@ != "hreflang"@,
        "title"@ != "meta"@,
        "type"@ != "hreflang"@,
        "type"@ != "meta"@,
        "hreflang"@ != "meta"@,
{
    reveal_strlit("href");
    reveal_strlit("rel");
    reveal_strlit("describedby");
    reveal_strlit("title");
    reveal_strlit("type");
    reveal_strlit("hreflang");
    reveal_strlit("meta");
    assert("href"@[0] != "rel"@[0]);
    assert("href"@[0] != "describedby"@[0]);
    assert("href"@[0] != "title"@[0]);
    assert("href"@[0] != "type"@[0]);
    assert("href"@[0] != "meta"@[0]);
    assert("href"@.len() != "hreflang"@.len());
    assert("rel"@[0] != "describedby"@[0]);
    assert("rel"@[0] != "title"@[0]);
    assert("rel"@[0] != "type"@[0]);
    assert("rel"@[0] != "hreflang"@[0]);
    assert("rel"@[0] != "meta"@[0]);
    assert("describedby"@[0] != "title"@[0]);
    assert("describedby"@[0] != "type"@[0]);
    assert("describedby"@[0] != "hreflang"@[0]);
    assert("describedby"@[0] != "meta"@[0]);
    assert("title"@[1] != "type"@[1]);
    assert("title"@[0] != "hreflang"@[0]);
    assert("title"@[0] != "meta"@[0]);
    assert("type"@[0] != "hreflang"@[0]);
    assert("type"@[0] != "meta"@[0]);
    assert("hreflang"@[0] != "meta"@[0]);
}

/// Whether an optional link map is well formed (sorted by name).
pub open spec fn opt_links_wf(l: Option<Links>) -> bool {
    match l {
        Some(x) => StrMap::<Option<Link>>::sorted(x.0.pairs()),
        None => true,
    }
}

/// Reads an optional link map field: absent and `null` are unset.
pub(crate) fn read_opt_links(v: &JsonValue, key: &str, pos: usize) -> (r: Result<Option<Links>>)
    ensures
        match r {
            Ok(x) => match present(slot(v@, key@, pos as int)) {
                None => x is None,
                Some(f) => links_valid(f) && (x matches Some(l) && links_decodes(f, l)),
            },
            Err(e) => (present(slot(v@, key@, pos as int)) matches Some(f) && !links_valid(f))
                && e is Json,
        },
{
    match slot_of(v, key, pos) {
        None => Ok(None),
        Some(JsonValue::Null) => Ok(None),
        Some(f) => Ok(Some(Links::from_json(f)?)),
    }
}

/// Writes the optional `links` member.
pub(crate) fn write_opt_links(o: &mut JsonObject, links: &Option<Links>)
    ensures
        final(o)@ == match *links {
            Some(l) => obj_set(old(o)@, "links"@, links_json(l)),
            None => old(o)@,
        },
{
    match links {
        Some(l) => o.insert(owned("links"), l.to_json()),
        None => {},
    }
}

/// Reading back the JSON form of language tags gives the tags.
pub proof fn lemma_hreflang_round_trip(h: Hreflang)
    ensures
        hreflang_valid(hreflang_json(h)),
        hreflang_decodes(hreflang_json(h), h),
{
}

/// The members of a link object's JSON form, member by member.
proof fn lemma_link_object_members(o: LinkObject)
    ensures
        obj_get(link_object_members(o), "href"@) == Some(JValue::Str(o.href@)),
        obj_get(link_object_members(o), "rel"@) == match opt_text(o.rel) {
            Some(x) => Some(JValue::Str(x)),
            None => None::<JValue>,
        },
        obj_get(link_object_members(o), "describedby"@) == match o.describedby {
            Some(b) => Some(link_json(*b)),
            None => None::<JValue>,
        },
        obj_get(link_object_members(o), "title"@) == match opt_text(o.title) {
            Some(x) => Some(JValue::Str(x)),
            None => None::<JValue>,
        },
        obj_get(link_object_members(o), "type"@) == match opt_text(o.type_) {
            Some(x) => Some(JValue::Str(x)),
            None => None::<JValue>,
        },
        obj_get(link_object_members(o), "hreflang"@) == match o.hreflang {
            Some(h) => Some(hreflang_json(h)),
            None => None::<JValue>,
        },
        obj_get(link_object_members(o), "meta"@) == match opt_members(o.meta) {
            Some(x) => Some(JValue::Object(x)),
            None => None::<JValue>,
        },
{
    lemma_link_names();
    let m0 = obj_set(Seq::empty(), "href"@, JValue::Str(o.href@));
    let m1 = set_opt_str(m0, "rel"@, opt_text(o.rel));
    let m2 = match o.describedby {
        Some(b) => obj_set(m1, "describedby"@, link_json(*b)),
        None => m1,
    };
    let m3 = set_opt_str(m2, "title"@, opt_text(o.title));
    let m4 = set_opt_str(m3, "type"@, opt_text(o.type_));
    let m5 = match o.hreflang {
        Some(h) => obj_set(m4, "hreflang"@, hreflang_json(h)),
        None => m4,
    };
    lemma_obj_get_set(Seq::empty(), "href"@, JValue::Str(o.href@), "href"@);
    lemma_obj_get_set(Seq::empty(), "href"@, JValue::Str(o.href@), "rel"@);
    lemma_obj_get_set(Seq::empty(), "href"@, JValue::Str(o.href@), "describedby"@);
    lemma_obj_get_set(Seq::empty(), "href"@, JValue::Str(o.href@), "title"@);
    lemma_obj_get_set(Seq::empty(), "href"@, JValue::Str(o.href@), "type"@);
    lemma_obj_get_set(Seq::empty(), "href"@, JValue::Str(o.href@), "hreflang"@);
    lemma_obj_get_set(Seq::empty(), "href"@, JValue::Str(o.href@), "meta"@);
    if let Some(x) = opt_text(o.rel) {
        lemma_obj_get_set(m0, "rel"@, JValue::Str(x), "href"@);
        lemma_obj_get_set(m0, "rel"@, JValue::Str(x), "rel"@);
        lemma_obj_get_set(m0, "rel"@, JValue::Str(x), "describedby"@);
        lemma_obj_get_set(m0, "rel"@, JValue::Str(x), "title"@);
        lemma_obj_get_set(m0, "rel"@, JValue::Str(x), "type"@);
        lemma_obj_get_set(m0, "rel"@, JValue::Str(x), "hreflang"@);
        lemma_obj_get_set(m0, "rel"@, JValue::Str(x), "meta"@);
    }
    match o.describedby {
        Some(b) => {
            lemma_obj_get_set(m1, "describedby"@, link_json(*b), "href"@);
            lemma_obj_get_set(m1, "describedby"@, link_json(*b), "rel"@);
            lemma_obj_get_set(m1, "describedby"@, link_json(*b), "describedby"@);
            lemma_obj_get_set(m1, "describedby"@, link_json(*b), "title"@);
            lemma_obj_get_set(m1, "describedby"@, link_json(*b), "type"@);
            lemma_obj_get_set(m1, "describedby"@, link_json(*b), "hreflang"@);
            lemma_obj_get_set(m1, "describedby"@, link_json(*b), "meta"@);
        },
        None => {},
    }
    if let Some(x) = opt_text(o.title) {
        lemma_obj_get_set(m2, "title"@, JValue::Str(x), "href"@);
        lemma_obj_get_set(m2, "title"@, JValue::Str(x), "rel"@);
        lemma_obj_get_set(m2, "title"@, JValue::Str(x), "describedby"@);
        lemma_obj_get_set(m2, "title"@, JValue::Str(x), "title"@);
        lemma_obj_get_set(m2, "title"@, JValue::Str(x), "type"@);
        lemma_obj_get_set(m2, "title"@, JValue::Str(x), "hreflang"@);
        lemma_obj_get_set(m2, "title"@, JValue::Str(x), "meta"@);
    }
    if let Some(x) = opt_text(o.type_) {
        lemma_obj_get_set(m3, "type"@, JValue::Str(x), "href"@);
        lemma_obj_get_set(m3, "type"@, JValue::Str(x), "rel"@);
        lemma_obj_get_set(m3, "type"@, JValue::Str(x), "describedby"@);
        lemma_obj_get_set(m3, "type"@, JValue::Str(x), "title"@);
        lemma_obj_get_set(m3, "type"@, JValue::Str(x), "type"@);
        lemma_obj_get_set(m3, "type"@, JValue::Str(x), "hreflang"@);
        lemma_obj_get_set(m3, "type"@, JValue::Str(x), "meta"@);
    }
    match o.hreflang {
        Some(h) => {
            lemma_obj_get_set(m4, "hreflang"@, hreflang_json(h), "href"@);
            lemma_obj_get_set(m4, "hreflang"@, hreflang_json(h), "rel"@);
            lemma_obj_get_set(m4, "hreflang"@, hreflang_json(h), "describedby"@);
            lemma_obj_get_set(m4, "hreflang"@, hreflang_json(h), "title"@);
            lemma_obj_get_set(m4, "hreflang"@, hreflang_json(h), "type"@);
            lemma_obj_get_set(m4, "hreflang"@, hreflang_json(h), "hreflang"@);
            lemma_obj_get_set(m4, "hreflang"@, hreflang_json(h), "meta"@);
        },
        None => {},
    }
    if let Some(x) = opt_members(o.meta) {
        lemma_obj_get_set(m5, "meta"@, JValue::Object(x), "href"@);
        lemma_obj_get_set(m5, "meta"@, JValue::Object(x), "rel"@);
        lemma_obj_get_set(m5, "meta"@, JValue::Object(x), "describedby"@);
        lemma_obj_get_set(m5, "meta"@, JValue::Object(x), "title"@);
        lemma_obj_get_set(m5, "meta"@, JValue::Object(x), "type"@);
        lemma_obj_get_set(m5, "meta"@, JValue::Object(x), "hreflang"@);
        lemma_obj_get_set(m5, "meta"@, JValue::Object(x), "meta"@);
    }
}

/// Reading back the JSON form of a link gives the link.
#[verifier::spinoff_prover]
pub proof fn lemma_link_round_trip(l: Link)
    ensures
        link_valid(link_json(l)),
        link_decodes(link_json(l), l),
    decreases l,
{
    match l {
        Link::String(_) => {},
        Link::Object(o) => {
            let m = link_object_members(o);
            lemma_link_object_members(o);
            lemma_obj_index(m, "describedby"@);
            match o.describedby {
                Some(b) => lemma_link_round_trip(*b),
                None => {},
            }
            match o.hreflang {
                Some(h) => lemma_hreflang_round_trip(h),
                None => {},
            }
        },
    }
}

/// Reading back the JSON form of a link map gives the map.
pub proof fn lemma_links_round_trip(l: Links)
    requires
        StrMap::<Option<Link>>::sorted(l.0.pairs()),
    ensures
        links_valid(links_json(l)),
        links_decodes(links_json(l), l),
{
    let pairs = l.0.pairs();
    let f = |e: (Seq<char>, Option<Link>)| (e.0, opt_link_json(e.1));
    let m = pairs.map_values(f);
    assert forall|i: int| 0 <= i < m.len() implies (#[trigger] m[i]).1 is Null || link_valid(
        m[i].1,
    ) by {
        if let Some(x) = pairs[i].1 {
            lemma_link_round_trip(x);
        }
    }
    assert forall|k: Seq<char>|
        match #[trigger] obj_get(m, k) {
            None => l.0.lookup(k) is None,
            Some(JValue::Null) => l.0.lookup(k) == Some(None::<Link>),
            Some(x) => l.0.lookup(k) matches Some(Some(y)) && link_decodes(x, y),
        } by {
        lemma_obj_index(m, k);
        let oi = obj_index(m, k);
        if l.0.has(k) {
            let j = choose|j: int| 0 <= j < pairs.len() && #[trigger] pairs[j].0 == k;
            l.0.lemma_lookup_at(j);
            assert(m[j].0 == k);
            if oi > j {
                assert(m[oi].0 == k);
                assert(crate::str_map::lex_lt(pairs[j].0, pairs[oi].0));
                lemma_lex_irreflexive(k);
            }
            assert(oi == j);
            if let Some(x) = pairs[j].1 {
                lemma_link_round_trip(x);
                assert(!(link_json(x) is Null));
            }
        } else {
            if oi >= 0 {
                assert(pairs[oi].0 == k);
            }
        }
    }
}

} // verus!
