//! Resource objects: the [`ResourceObject`] trait and the dynamic
//! [`Resource`], with its JSON form.
use crate::error::{shape_error, Result};
use crate::json::{
    copy_object, copy_value, lemma_members_view, lemma_obj_get_push, lemma_obj_get_set,
    lemma_obj_index, members_view, obj_get, obj_index, obj_set, opt_members, opt_text,
    set_opt_object, set_opt_str, write_opt_object, write_opt_str, JValue, JsonObject, JsonValue,
    Meta, json_view,
};
use crate::model::link::{lemma_links_round_trip, links_decodes, links_json, links_valid, Links};
use crate::model::relationship::{
    lemma_rel_data_round_trip, rel_data_decodes, rel_data_json, rel_data_valid, RelationshipData,
};
use crate::str_map::{lemma_lex_irreflexive, lex_lt, StrMap};
use crate::text::owned;
use vstd::prelude::*;

verus! {

/// The view of an optional string slice.
pub open spec fn opt_str_text(o: Option<&str>) -> Option<Seq<char>> {
    match o {
        Some(s) => Some(s@),
        None => None,
    }
}

/// Unifying trait for typed resources and the dynamic [`Resource`].
pub trait ResourceObject {
    /// The resource's `type`.
    spec fn type_view(&self) -> Seq<char>;

    /// The resource's server-assigned `id`, if any.
    spec fn id_view(&self) -> Option<Seq<char>>;

    /// The resource's client-local `lid`, if any.
    spec fn lid_view(&self) -> Option<Seq<char>>;

    /// The JSON:API type string (e.g. `"articles"`).
    fn resource_type(&self) -> (r: &str)
        ensures
            r@ == self.type_view(),
    ;

    /// The server-assigned identifier.
    fn resource_id(&self) -> (r: Option<&str>)
        ensures
            opt_str_text(r) == self.id_view(),
    ;

    /// The local identifier (JSON:API 1.1).
    fn resource_lid(&self) -> (r: Option<&str>)
        ensures
            opt_str_text(r) == self.lid_view(),
    ;

    /// Field names for sparse fieldset support.
    fn field_names() -> &'static [&'static str];
}

/// Read access to a resource's resource-level `links` block.
pub trait HasLinks {
    /// Borrow the resource's `links` block, if present.
    fn links(&self) -> Option<&Links>;
}

/// Read access to a resource's resource-level `meta` block.
pub trait HasMeta {
    /// Borrow the resource's `meta` block, if present.
    fn meta(&self) -> Option<&Meta>;
}

/// Dynamic fallback for resources whose type is not known at compile time.
#[derive(Debug, Clone, PartialEq)]
pub struct Resource {
    /// The JSON:API type string (e.g. `"articles"`).
    pub type_: String,
    /// Server-assigned identifier. `None` for create payloads.
    pub id: Option<String>,
    /// Client-generated local identifier (JSON:API 1.1).
    pub lid: Option<String>,
    /// Resource attributes as a raw JSON value.
    pub attributes: JsonValue,
    /// Relationship linkage data, keyed by relationship name.
    pub relationships: StrMap<RelationshipData>,
    /// Resource-level links.
    pub links: Option<Links>,
    /// Resource-level meta information.
    pub meta: Option<Meta>,
}

impl ResourceObject for Resource {
    open spec fn type_view(&self) -> Seq<char> {
        self.type_@
    }

    open spec fn id_view(&self) -> Option<Seq<char>> {
        opt_text(self.id)
    }

    open spec fn lid_view(&self) -> Option<Seq<char>> {
        opt_text(self.lid)
    }

    fn resource_type(&self) -> (r: &str) {
        self.type_.as_str()
    }

    fn resource_id(&self) -> (r: Option<&str>) {
        match &self.id {
            Some(s) => Some(s.as_str()),
            None => None,
        }
    }

    fn resource_lid(&self) -> (r: Option<&str>) {
        match &self.lid {
            Some(s) => Some(s.as_str()),
            None => None,
        }
    }

    /// Dynamic: the fields are not known at compile time.
    fn field_names() -> (r: &'static [&'static str])
        ensures
            r@.len() == 0,
    {
        &[]
    }
}

impl HasLinks for Resource {
    fn links(&self) -> (r: Option<&Links>)
        ensures
            match r {
                Some(l) => self.links == Some(*l),
                None => self.links is None,
            },
    {
        self.links.as_ref()
    }
}

impl HasMeta for Resource {
    fn meta(&self) -> (r: Option<&Meta>)
        ensures
            match r {
                Some(m) => self.meta == Some(*m),
                None => self.meta is None,
            },
    {
        self.meta.as_ref()
    }
}

/// The JSON form of one relationship: an object holding its linkage as
/// `data`.
pub open spec fn rel_object_json(d: RelationshipData) -> JValue {
    JValue::Object(obj_set(Seq::empty(), "data"@, rel_data_json(d)))
}

/// The JSON form of a resource's relationships: one member per name.
pub open spec fn rels_json(rels: StrMap<RelationshipData>) -> JValue {
    JValue::Object(
        rels.pairs().map_values(
            |e: (Seq<char>, RelationshipData)| (e.0, rel_object_json(e.1)),
        ),
    )
}

/// The members of a resource's JSON form: `type`; `id` and `lid` when
/// present; `attributes` unless `null`; `relationships` unless there are
/// none; `links` and `meta` when present.
pub open spec fn resource_members(r: Resource) -> Seq<(Seq<char>, JValue)> {
    let m0 = obj_set(Seq::empty(), "type"@, JValue::Str(r.type_@));
    let m1 = set_opt_str(m0, "id"@, opt_text(r.id));
    let m2 = set_opt_str(m1, "lid"@, opt_text(r.lid));
    let m3 = if r.attributes@ is Null {
        m2
    } else {
        obj_set(m2, "attributes"@, r.attributes@)
    };
    let m4 = if r.relationships.pairs().len() == 0 {
        m3
    } else {
        obj_set(m3, "relationships"@, rels_json(r.relationships))
    };
    let m5 = match r.links {
        Some(l) => obj_set(m4, "links"@, links_json(l)),
        None => m4,
    };
    set_opt_object(m5, "meta"@, opt_members(r.meta))
}

/// The JSON form of a resource.
pub open spec fn resource_json(r: Resource) -> JValue {
    JValue::Object(resource_members(r))
}

/// Whether a relationship member reads well: an object, whose `data`, when
/// present, reads as linkage.
pub open spec fn rel_member_valid(v: JValue) -> bool {
    match v {
        JValue::Object(o) => match obj_get(o, "data"@) {
            Some(d) => rel_data_valid(d),
            None => true,
        },
        _ => false,
    }
}

/// The linkage read for the relationship `k`: the `data` of the last
/// member named `k` that has one.
pub open spec fn rel_entry(rm: Seq<(Seq<char>, JValue)>, k: Seq<char>) -> Option<JValue>
    decreases rm.len(),
{
    if rm.len() == 0 {
        None
    } else if rm.last().0 == k && rm.last().1 is Object && obj_get(
        rm.last().1->Object_0,
        "data"@,
    ) is Some {
        obj_get(rm.last().1->Object_0, "data"@)
    } else {
        rel_entry(rm.drop_last(), k)
    }
}

/// The relationship members of a resource object (none without
/// `relationships`).
pub open spec fn rel_members(m: Seq<(Seq<char>, JValue)>) -> Seq<(Seq<char>, JValue)> {
    match obj_get(m, "relationships"@) {
        Some(JValue::Object(rm)) => rm,
        _ => Seq::empty(),
    }
}

/// The optional string read from a member: the string when it is one,
/// nothing otherwise.
pub open spec fn loose_str(o: Option<JValue>) -> Option<Seq<char>> {
    match o {
        Some(JValue::Str(s)) => Some(s),
        _ => None,
    }
}

/// Whether a JSON value reads as a resource: an object with a string
/// `type`; `relationships`, when present, an object of relationship objects
/// whose `data` reads as linkage; `links`, when present, a link map; `meta`,
/// when present, an object.
pub open spec fn resource_valid(v: JValue) -> bool {
    match v {
        JValue::Object(m) => {
            &&& obj_get(m, "type"@) matches Some(JValue::Str(_))
            &&& match obj_get(m, "relationships"@) {
                None => true,
                Some(JValue::Object(rm)) => forall|i: int|
                    0 <= i < rm.len() ==> rel_member_valid(#[trigger] rm[i].1),
                Some(_) => false,
            }
            &&& match obj_get(m, "links"@) {
                None => true,
                Some(x) => links_valid(x),
            }
            &&& match obj_get(m, "meta"@) {
                None => true,
                Some(x) => x is Object,
            }
        },
        _ => false,
    }
}

/// Whether `r` is what the JSON value `v` reads as: `id` and `lid` are kept
/// only when they are strings, missing `attributes` read as `null`, each
/// relationship name maps to the linkage its `data` reads as.
pub open spec fn resource_decodes(v: JValue, r: Resource) -> bool {
    match v {
        JValue::Object(m) => {
            &&& obj_get(m, "type"@) == Some(JValue::Str(r.type_@))
            &&& opt_text(r.id) == loose_str(obj_get(m, "id"@))
            &&& opt_text(r.lid) == loose_str(obj_get(m, "lid"@))
            &&& r.attributes@ == match obj_get(m, "attributes"@) {
                Some(a) => a,
                None => JValue::Null,
            }
            &&& forall|k: Seq<char>|
                match #[trigger] rel_entry(rel_members(m), k) {
                    None => r.relationships.lookup(k) is None,
                    Some(d) => r.relationships.lookup(k) matches Some(x) && rel_data_decodes(d, x),
                }
            &&& match obj_get(m, "links"@) {
                None => r.links is None,
                Some(x) => r.links matches Some(l) && links_decodes(x, l),
            }
            &&& match obj_get(m, "meta"@) {
                None => r.meta is None,
                Some(x) => r.meta matches Some(mm) && x == JValue::Object(mm@),
            }
        },
        _ => false,
    }
}

/// The JSON form of a relationship map.
fn rels_to_json(rels: &StrMap<RelationshipData>) -> (r: JsonValue)
    ensures
        r@ == rels_json(*rels),
{
    let entries = rels.entries();
    let ghost pairs = rels.pairs();
    let ghost f = |e: (Seq<char>, RelationshipData)| (e.0, rel_object_json(e.1));
    let mut members: Vec<(String, JsonValue)> = Vec::new();
    let mut i: usize = 0;
    while i < entries.len()
        invariant
            0 <= i <= entries@.len(),
            entries@.map_values(|e: (String, RelationshipData)| (e.0@, e.1)) == pairs,
            f == (|e: (Seq<char>, RelationshipData)| (e.0, rel_object_json(e.1))),
            members_view(members@) == pairs.take(i as int).map_values(f),
        decreases entries@.len() - i,
    {
        let ghost before = members@;
        assert(pairs[i as int] == (entries@[i as int].0@, entries@[i as int].1));
        let mut rel = JsonObject::new();
        rel.insert(owned("data"), entries[i].1.to_json());
        assert(JsonValue::Object(rel)@ == rel_object_json(entries@[i as int].1));
        let k = entries[i].0.clone();
        let ghost kv = k@;
        members.push((k, JsonValue::Object(rel)));
        assert(members@.drop_last() =~= before);
        assert(members_view(members@) == members_view(before).push(
            (kv, rel_object_json(entries@[i as int].1)),
        ));
        assert(pairs.take(i + 1).map_values(f) =~= pairs.take(i as int).map_values(f).push(
            f(pairs[i as int]),
        ));
        i += 1;
    }
    assert(pairs.take(i as int) =~= pairs);
    JsonValue::Object(JsonObject { members })
}

/// Reads the relationship map of a resource from its `relationships`
/// members.
fn rels_from_json(rm: &JsonObject) -> (r: Result<StrMap<RelationshipData>>)
    ensures
        match r {
            Ok(rels) => (forall|i: int| 0 <= i < rm@.len() ==> rel_member_valid(#[trigger] rm@[i].1))
                && forall|k: Seq<char>|
                match #[trigger] rel_entry(rm@, k) {
                    None => rels.lookup(k) is None,
                    Some(d) => rels.lookup(k) matches Some(x) && rel_data_decodes(d, x),
                },
            Err(e) => !(forall|i: int| 0 <= i < rm@.len() ==> rel_member_valid(#[trigger] rm@[i].1))
                && e is Json,
        },
{
    let ghost m = rm@;
    proof {
        lemma_members_view(rm.members@);
    }
    let mut rels: StrMap<RelationshipData> = StrMap::new();
    let mut i: usize = 0;
    while i < rm.members.len()
        invariant
            0 <= i <= rm.members@.len(),
            m == rm@,
            m.len() == rm.members@.len(),
            forall|j: int|
                0 <= j < rm.members@.len() ==> #[trigger] m[j] == (
                    rm.members@[j].0@,
                    json_view(rm.members@[j].1),
                ),
            forall|j: int| 0 <= j < i ==> rel_member_valid(#[trigger] m[j].1),
            forall|k: Seq<char>|
                match #[trigger] rel_entry(m.take(i as int), k) {
                    None => rels.lookup(k) is None,
                    Some(d) => rels.lookup(k) matches Some(x) && rel_data_decodes(d, x),
                },
        decreases rm.members@.len() - i,
    {
        let ghost e = m[i as int];
        assert(e == (rm.members@[i as int].0@, json_view(rm.members@[i as int].1)));
        assert(m.take(i + 1).drop_last() =~= m.take(i as int));
        assert(m.take(i + 1).last() == e);
        let ghost prev = rels;
        let ghost took = m.take(i + 1);
        let rel = match rm.members[i].1.as_object() {
            Some(o) => o,
            None => {
                assert(!rel_member_valid(m[i as int].1));
                return Err(shape_error("each relationship must be an object"));
            },
        };
        match rel.get("data") {
            Some(d) => match RelationshipData::from_json(d) {
                Ok(data) => {
                    rels.insert(rm.members[i].0.clone(), data);
                },
                Err(err) => {
                    assert(!rel_member_valid(m[i as int].1));
                    return Err(err);
                },
            },
            None => {},
        }
        assert(e.1 == JValue::Object(rel@));
        assert forall|k: Seq<char>|
            match #[trigger] rel_entry(m.take(i + 1), k) {
                None => rels.lookup(k) is None,
                Some(d) => rels.lookup(k) matches Some(x) && rel_data_decodes(d, x),
            } by {
            assert(took.drop_last() == m.take(i as int));
            assert(took.last() == e);
            if k == e.0 && obj_get(rel@, "data"@) is Some {
                assert(rel_entry(took, k) == obj_get(rel@, "data"@));
            } else {
                assert(rel_entry(took, k) == rel_entry(m.take(i as int), k));
                if k != e.0 {
                    assert(rels.lookup(k) == prev.lookup(k));
                }
            }
        }
        i += 1;
    }
    assert(m.take(i as int) =~= m);
    Ok(rels)
}

impl Resource {
    /// The JSON form of the resource (see [`resource_members`]).
    pub fn to_json(&self) -> (r: JsonValue)
        ensures
            r@ == resource_json(*self),
    {
        let mut m = JsonObject::new();
        m.insert(owned("type"), JsonValue::String(self.type_.clone()));
        write_opt_str(&mut m, "id", &self.id);
        write_opt_str(&mut m, "lid", &self.lid);
        if !self.attributes.is_null() {
            m.insert(owned("attributes"), copy_value(&self.attributes));
        }
        if !self.relationships.is_empty() {
            m.insert(owned("relationships"), rels_to_json(&self.relationships));
        }
        match &self.links {
            Some(l) => m.insert(owned("links"), l.to_json()),
            None => {},
        }
        write_opt_object(&mut m, "meta", &self.meta);
        JsonValue::Object(m)
    }

    /// Read a resource from its JSON form (see [`resource_valid`] and
    /// [`resource_decodes`]); anything else is a shape error.
    pub fn from_json(v: &JsonValue) -> (r: Result<Resource>)
        ensures
            match r {
                Ok(x) => resource_valid(v@) && resource_decodes(v@, x),
                Err(e) => !resource_valid(v@) && e is Json,
            },
    {
        let o = match v.as_object() {
            Some(o) => o,
            None => return Err(shape_error("resource must be a JSON object")),
        };
        let ghost m = o@;
        let type_ = match o.get("type") {
            Some(JsonValue::String(t)) => t.clone(),
            _ => return Err(shape_error("resource must have a `type` string")),
        };
        let id = match o.get("id") {
            Some(JsonValue::String(s)) => Some(s.clone()),
            _ => None,
        };
        let lid = match o.get("lid") {
            Some(JsonValue::String(s)) => Some(s.clone()),
            _ => None,
        };
        let attributes = match o.get("attributes") {
            Some(a) => copy_value(a),
            None => JsonValue::Null,
        };
        let relationships = match o.get("relationships") {
            Some(rv) => match rv.as_object() {
                Some(rm) => rels_from_json(rm)?,
                None => return Err(shape_error("`relationships` must be an object")),
            },
            None => {
                let empty = StrMap::new();
                assert(forall|k: Seq<char>| #[trigger] rel_entry(rel_members(m), k) is None) by {
                    assert(rel_members(m) =~= Seq::<(Seq<char>, JValue)>::empty());
                }
                empty
            },
        };
        let links = match o.get("links") {
            Some(lv) => Some(Links::from_json(lv)?),
            None => None,
        };
        let meta = match o.get("meta") {
            Some(JsonValue::Object(mm)) => Some(copy_object(mm)),
            Some(_) => return Err(shape_error("`meta` must be an object")),
            None => None,
        };
        Ok(Resource { type_, id, lid, attributes, relationships, links, meta })
    }
}

/// A member of the JSON object of a sorted map's pairs is the image of the
/// map's value under that name.
pub proof fn lemma_obj_get_of_map<V>(sm: StrMap<V>, f: spec_fn(V) -> JValue, k: Seq<char>)
    requires
        StrMap::<V>::sorted(sm.pairs()),
    ensures
        obj_get(sm.pairs().map_values(|e: (Seq<char>, V)| (e.0, f(e.1))), k) == match sm.lookup(k) {
            Some(v) => Some(f(v)),
            None => None,
        },
{
    let pairs = sm.pairs();
    let m = pairs.map_values(|e: (Seq<char>, V)| (e.0, f(e.1)));
    lemma_obj_index(m, k);
    let oi = obj_index(m, k);
    if sm.has(k) {
        let j = choose|j: int| 0 <= j < pairs.len() && #[trigger] pairs[j].0 == k;
        sm.lemma_lookup_at(j);
        assert(m[j].0 == k);
        if oi > j {
            assert(m[oi].0 == k);
            assert(lex_lt(pairs[j].0, pairs[oi].0));
            lemma_lex_irreflexive(k);
        }
        assert(oi == j);
    } else {
        if oi >= 0 {
            assert(pairs[oi].0 == k);
        }
    }
}

/// In relationship members that all carry `data`, the linkage read for a
/// name is the `data` of the member of that name.
proof fn lemma_rel_entry_all_data(rm: Seq<(Seq<char>, JValue)>, k: Seq<char>)
    requires
        forall|i: int|
            0 <= i < rm.len() ==> (#[trigger] rm[i]).1 is Object && obj_get(
                rm[i].1->Object_0,
                "data"@,
            ) is Some,
    ensures
        rel_entry(rm, k) == match obj_get(rm, k) {
            Some(x) => obj_get(x->Object_0, "data"@),
            None => None,
        },
    decreases rm.len(),
{
    if rm.len() > 0 {
        let d = rm.drop_last();
        assert forall|i: int| 0 <= i < d.len() implies (#[trigger] d[i]).1 is Object && obj_get(
            d[i].1->Object_0,
            "data"@,
        ) is Some by {
            assert(d[i] == rm[i]);
        }
        lemma_rel_entry_all_data(d, k);
        assert(rm =~= d.push(rm.last()));
        lemma_obj_get_push(d, rm.last(), k);
        assert(rm[rm.len() - 1] == rm.last());
    }
}

/// The member names of resources differ from one another.
proof fn lemma_resource_names()
    ensures
        "type"@ != "id"@,
        "type"@ != "lid"@,
        "type"@ != "attributes"@,
        "type"@ != "relationships"@,
        "type"@ != "links"@,
        "type"@ != "meta"@,
        "id"@ != "lid"@,
        "id"@ != "attributes"@,
        "id"@ != "relationships"@,
        "id"@ != "links"@,
        "id"@ != "meta"@,
        "lid"@ != "attributes"@,
        "lid"@ != "relationships"@,
        "lid"@ != "links"@,
        "lid"@ != "meta"@,
        "attributes"@ != "relationships"@,
        "attributes"@ != "links"@,
        "attributes"@ != "meta"@,
        "relationships"@ != "links"@,
        "relationships"@ != "meta"@,
        "links"@ != "meta"@,
{
    reveal_strlit("type");
    reveal_strlit("id");
    reveal_strlit("lid");
    reveal_strlit("attributes");
    reveal_strlit("relationships");
    reveal_strlit("links");
    reveal_strlit("meta");
    assert("type"@[0] != "meta"@[0]);
    assert("type"@[0] != "lid"@[0]);
    assert("type"@[0] != "attributes"@[0]);
    assert("type"@[0] != "relationships"@[0]);
    assert("type"@[0] != "links"@[0]);
    assert("id"@[0] != "lid"@[0]);
    assert("lid"@[0] != "attributes"@[0]);
    assert("lid"@[0] != "relationships"@[0]);
    assert("lid"@[2] != "links"@[2]);
    assert("lid"@[0] != "meta"@[0]);
    assert("attributes"@[0] != "relationships"@[0]);
    assert("attributes"@[0] != "links"@[0]);
    assert("attributes"@[0] != "meta"@[0]);
    assert("relationships"@[0] != "links"@[0]);
    assert("relationships"@[0] != "meta"@[0]);
    assert("links"@[0] != "meta"@[0]);
}

/// The members of a resource's JSON form, member by member.
proof fn lemma_resource_members(r: Resource)
    ensures
        obj_get(resource_members(r), "type"@) == Some(JValue::Str(r.type_@)),
        loose_str(obj_get(resource_members(r), "id"@)) == opt_text(r.id),
        loose_str(obj_get(resource_members(r), "lid"@)) == opt_text(r.lid),
        obj_get(resource_members(r), "attributes"@) == if r.attributes@ is Null {
            None
        } else {
            Some(r.attributes@)
        },
        obj_get(resource_members(r), "relationships"@) == if r.relationships.pairs().len() == 0 {
            None
        } else {
            Some(rels_json(r.relationships))
        },
        obj_get(resource_members(r), "links"@) == match r.links {
            Some(l) => Some(links_json(l)),
            None => None::<JValue>,
        },
        obj_get(resource_members(r), "meta"@) == match opt_members(r.meta) {
            Some(x) => Some(JValue::Object(x)),
            None => None::<JValue>,
        },
{
    lemma_resource_names();
    let m0 = obj_set(Seq::empty(), "type"@, JValue::Str(r.type_@));
    let m1 = set_opt_str(m0, "id"@, opt_text(r.id));
    let m2 = set_opt_str(m1, "lid"@, opt_text(r.lid));
    let m3 = if r.attributes@ is Null {
        m2
    } else {
        obj_set(m2, "attributes"@, r.attributes@)
    };
    let m4 = if r.relationships.pairs().len() == 0 {
        m3
    } else {
        obj_set(m3, "relationships"@, rels_json(r.relationships))
    };
    let m5 = match r.links {
        Some(l) => obj_set(m4, "links"@, links_json(l)),
        None => m4,
    };
    lemma_obj_get_set(Seq::empty(), "type"@, JValue::Str(r.type_@), "type"@);
    lemma_obj_get_set(Seq::empty(), "type"@, JValue::Str(r.type_@), "id"@);
    lemma_obj_get_set(Seq::empty(), "type"@, JValue::Str(r.type_@), "lid"@);
    lemma_obj_get_set(Seq::empty(), "type"@, JValue::Str(r.type_@), "attributes"@);
    lemma_obj_get_set(Seq::empty(), "type"@, JValue::Str(r.type_@), "relationships"@);
    lemma_obj_get_set(Seq::empty(), "type"@, JValue::Str(r.type_@), "links"@);
    lemma_obj_get_set(Seq::empty(), "type"@, JValue::Str(r.type_@), "meta"@);
    if let Some(x) = opt_text(r.id) {
        lemma_obj_get_set(m0, "id"@, JValue::Str(x), "type"@);
        lemma_obj_get_set(m0, "id"@, JValue::Str(x), "id"@);
        lemma_obj_get_set(m0, "id"@, JValue::Str(x), "lid"@);
        lemma_obj_get_set(m0, "id"@, JValue::Str(x), "attributes"@);
        lemma_obj_get_set(m0, "id"@, JValue::Str(x), "relationships"@);
        lemma_obj_get_set(m0, "id"@, JValue::Str(x), "links"@);
        lemma_obj_get_set(m0, "id"@, JValue::Str(x), "meta"@);
    }
    if let Some(x) = opt_text(r.lid) {
        lemma_obj_get_set(m1, "lid"@, JValue::Str(x), "type"@);
        lemma_obj_get_set(m1, "lid"@, JValue::Str(x), "id"@);
        lemma_obj_get_set(m1, "lid"@, JValue::Str(x), "lid"@);
        lemma_obj_get_set(m1, "lid"@, JValue::Str(x), "attributes"@);
        lemma_obj_get_set(m1, "lid"@, JValue::Str(x), "relationships"@);
        lemma_obj_get_set(m1, "lid"@, JValue::Str(x), "links"@);
        lemma_obj_get_set(m1, "lid"@, JValue::Str(x), "meta"@);
    }
    if !(r.attributes@ is Null) {
        lemma_obj_get_set(m2, "attributes"@, r.attributes@, "type"@);
        lemma_obj_get_set(m2, "attributes"@, r.attributes@, "id"@);
        lemma_obj_get_set(m2, "attributes"@, r.attributes@, "lid"@);
        lemma_obj_get_set(m2, "attributes"@, r.attributes@, "attributes"@);
        lemma_obj_get_set(m2, "attributes"@, r.attributes@, "relationships"@);
        lemma_obj_get_set(m2, "attributes"@, r.attributes@, "links"@);
        lemma_obj_get_set(m2, "attributes"@, r.attributes@, "meta"@);
    }
    if r.relationships.pairs().len() != 0 {
        lemma_obj_get_set(m3, "relationships"@, rels_json(r.relationships), "type"@);
        lemma_obj_get_set(m3, "relationships"@, rels_json(r.relationships), "id"@);
        lemma_obj_get_set(m3, "relationships"@, rels_json(r.relationships), "lid"@);
        lemma_obj_get_set(m3, "relationships"@, rels_json(r.relationships), "attributes"@);
        lemma_obj_get_set(m3, "relationships"@, rels_json(r.relationships), "relationships"@);
        lemma_obj_get_set(m3, "relationships"@, rels_json(r.relationships), "links"@);
        lemma_obj_get_set(m3, "relationships"@, rels_json(r.relationships), "meta"@);
    }
    if let Some(l) = r.links {
        lemma_obj_get_set(m4, "links"@, links_json(l), "type"@);
        lemma_obj_get_set(m4, "links"@, links_json(l), "id"@);
        lemma_obj_get_set(m4, "links"@, links_json(l), "lid"@);
        lemma_obj_get_set(m4, "links"@, links_json(l), "attributes"@);
        lemma_obj_get_set(m4, "links"@, links_json(l), "relationships"@);
        lemma_obj_get_set(m4, "links"@, links_json(l), "links"@);
        lemma_obj_get_set(m4, "links"@, links_json(l), "meta"@);
    }
    if let Some(x) = opt_members(r.meta) {
        lemma_obj_get_set(m5, "meta"@, JValue::Object(x), "type"@);
        lemma_obj_get_set(m5, "meta"@, JValue::Object(x), "id"@);
        lemma_obj_get_set(m5, "meta"@, JValue::Object(x), "lid"@);
        lemma_obj_get_set(m5, "meta"@, JValue::Object(x), "attributes"@);
        lemma_obj_get_set(m5, "meta"@, JValue::Object(x), "relationships"@);
        lemma_obj_get_set(m5, "meta"@, JValue::Object(x), "links"@);
        lemma_obj_get_set(m5, "meta"@, JValue::Object(x), "meta"@);
    }
}

/// Whether a resource's maps are well formed (sorted, hence with unique
/// names), as every resource built by this library's operations is.
pub open spec fn resource_wf(r: Resource) -> bool {
    &&& StrMap::<RelationshipData>::sorted(r.relationships.pairs())
    &&& match r.links {
        Some(l) => StrMap::<Option<crate::model::link::Link>>::sorted(l.0.pairs()),
        None => true,
    }
}

/// Reading back the JSON form of a resource gives the resource.
#[verifier::spinoff_prover]
pub proof fn lemma_resource_round_trip(r: Resource)
    requires
        resource_wf(r),
    ensures
        resource_valid(resource_json(r)),
        resource_decodes(resource_json(r), r),
{
    lemma_resource_members(r);
    let m = resource_members(r);
    if let Some(l) = r.links {
        lemma_links_round_trip(l);
    }
    if r.relationships.pairs().len() == 0 {
        assert(rel_members(m) =~= Seq::<(Seq<char>, JValue)>::empty());
        assert forall|k: Seq<char>| !r.relationships.has(k) by {}
    } else {
        let pairs = r.relationships.pairs();
        let rm = pairs.map_values(|e: (Seq<char>, RelationshipData)| (e.0, rel_object_json(e.1)));
        assert(rel_members(m) == rm);
        assert forall|i: int| 0 <= i < rm.len() implies (#[trigger] rm[i]).1 is Object && obj_get(
            rm[i].1->Object_0,
            "data"@,
        ) == Some(rel_data_json(pairs[i].1)) && rel_member_valid(rm[i].1) by {
            lemma_obj_get_set(Seq::empty(), "data"@, rel_data_json(pairs[i].1), "data"@);
            lemma_rel_data_round_trip(pairs[i].1);
        }
        assert forall|k: Seq<char>|
            match #[trigger] rel_entry(rel_members(m), k) {
                None => r.relationships.lookup(k) is None,
                Some(d) => r.relationships.lookup(k) matches Some(x) && rel_data_decodes(d, x),
            } by {
            lemma_rel_entry_all_data(rm, k);
            lemma_obj_get_of_map(r.relationships, |d: RelationshipData| rel_object_json(d), k);
            assert(rm =~= pairs.map_values(
                |e: (Seq<char>, RelationshipData)|
                    (e.0, (|d: RelationshipData| rel_object_json(d))(e.1)),
            ));
            if let Some(x) = r.relationships.lookup(k) {
                lemma_obj_get_set(Seq::empty(), "data"@, rel_data_json(x), "data"@);
                lemma_rel_data_round_trip(x);
            }
        }
    }
}

/// The `relationships` member of a resource's JSON form.
pub proof fn lemma_resource_members_relationships(r: Resource)
    ensures
        obj_get(resource_members(r), "relationships"@) == if r.relationships.pairs().len() == 0 {
            None
        } else {
            Some(rels_json(r.relationships))
        },
        obj_get(resource_members(r), "type"@) == Some(JValue::Str(r.type_@)),
{
    lemma_resource_members(r);
}

} // verus!
