//! Relationships: resource linkage (to-one or to-many) with optional links
//! and meta.
use crate::error::{shape_error, Result};
use crate::json::{
    json_view_seq, lemma_json_view_seq, lemma_obj_get_set, obj_set, opt_members, set_opt_object,
    write_opt_object, JValue, JsonObject, JsonValue, Meta,
};
use crate::model::identifier::{
    lemma_rid_round_trip, rid_decodes, rid_json, rid_valid, Identity, ResourceIdentifier,
};
use crate::model::link::{
    lemma_links_round_trip, links_decodes, links_json, links_valid, opt_links_wf, read_opt_links,
    write_opt_links, Links,
};
use crate::record::{
    is_record, object_field, present, read_object_field, record_shape, slot, slot_of,
};
use crate::text::owned;
use std::marker::PhantomData;
use vstd::prelude::*;

verus! {

/// Resource linkage inside a relationship.
#[non_exhaustive]
#[derive(Debug, Clone, PartialEq)]
pub enum RelationshipData {
    /// To-one: `null` (empty) or a single resource identifier.
    ToOne(Option<ResourceIdentifier>),
    /// To-many: an array of resource identifiers (may be empty).
    ToMany(Vec<ResourceIdentifier>),
}

impl RelationshipData {
    /// Every identifier of the linkage, whatever its cardinality.
    pub open spec fn identifiers_view(self) -> Seq<ResourceIdentifier> {
        match self {
            RelationshipData::ToOne(None) => Seq::empty(),
            RelationshipData::ToOne(Some(rid)) => seq![rid],
            RelationshipData::ToMany(rids) => rids@,
        }
    }
}

/// The server-assigned ids among some identifiers, in order.
pub open spec fn ids_of(rids: Seq<ResourceIdentifier>) -> Seq<Seq<char>>
    decreases rids.len(),
{
    if rids.len() == 0 {
        Seq::empty()
    } else {
        ids_of(rids.drop_last()) + match rids.last().identity {
            Identity::Id(id) => seq![id@],
            _ => Seq::empty(),
        }
    }
}

/// A one-element slice (`std::slice::from_ref`).
#[verifier::external_body]
pub(crate) fn slice_of_one<T>(x: &T) -> (r: &[T])
    ensures
        r@ == seq![*x],
{
    std::slice::from_ref(x)
}

/// Typed relationship reference. Carries the target type as a phantom
/// for type-safe registry lookups.
#[derive(Debug, PartialEq)]
pub struct Relationship<T> {
    /// The relationship linkage data.
    pub data: RelationshipData,
    /// Relationship-level links.
    pub links: Option<Links>,
    /// Relationship-level meta information.
    pub meta: Option<Meta>,
    /// Marks the target resource type.
    pub _phantom: PhantomData<T>,
}

impl<T> Clone for Relationship<T> {
    fn clone(&self) -> Self {
        Relationship {
            data: self.data.clone(),
            links: self.links.clone(),
            meta: self.meta.clone(),
            _phantom: PhantomData,
        }
    }
}

impl<T> Relationship<T> {
    /// Create a new relationship with the given linkage data.
    pub fn new(data: RelationshipData) -> (r: Self)
        ensures
            r.data == data,
            r.links is None,
            r.meta is None,
    {
        Relationship { data, links: None, meta: None, _phantom: PhantomData }
    }

    /// Unified slice view of every identifier inside the relationship,
    /// regardless of cardinality: empty for a null to-one, one element for
    /// a to-one, the whole list for a to-many.
    pub fn identifiers(&self) -> (r: &[ResourceIdentifier])
        ensures
            r@ == self.data.identifiers_view(),
    {
        match &self.data {
            RelationshipData::ToOne(None) => {
                let empty: &[ResourceIdentifier] = &[];
                assert(empty@ =~= Seq::<ResourceIdentifier>::empty());
                empty
            },
            RelationshipData::ToOne(Some(rid)) => slice_of_one(rid),
            RelationshipData::ToMany(rids) => rids.as_slice(),
        }
    }

    /// The server-assigned IDs, in order, regardless of cardinality. Skips
    /// `Lid` identifiers and null to-one relationships.
    pub fn ids(&self) -> (r: Vec<&str>)
        ensures
            r@.map_values(|s: &str| s@) == ids_of(self.data.identifiers_view()),
    {
        let rids = self.identifiers();
        let ghost all = self.data.identifiers_view();
        let mut r: Vec<&str> = Vec::new();
        let mut i: usize = 0;
        while i < rids.len()
            invariant
                0 <= i <= rids@.len(),
                rids@ == all,
                r@.map_values(|s: &str| s@) == ids_of(all.take(i as int)),
            decreases rids@.len() - i,
        {
            assert(all.take(i + 1).drop_last() =~= all.take(i as int));
            let ghost before = r@.map_values(|s: &str| s@);
            match rids[i].identity.as_id() {
                Some(id) => {
                    r.push(id);
                    assert(r@.map_values(|s: &str| s@) =~= before.push(id@));
                },
                None => {},
            }
            assert(r@.map_values(|s: &str| s@) =~= ids_of(all.take(i + 1)));
            i += 1;
        }
        assert(all.take(i as int) =~= all);
        r
    }

    /// The first server-assigned ID in the relationship, or `None` if the
    /// relationship is null-to-one, empty-to-many, or contains only local
    /// identifiers.
    pub fn first_id(&self) -> (r: Option<&str>)
        ensures
            match r {
                Some(s) => ids_of(self.data.identifiers_view()).len() > 0 && s@ == ids_of(
                    self.data.identifiers_view(),
                )[0],
                None => ids_of(self.data.identifiers_view()).len() == 0,
            },
    {
        let ids = self.ids();
        if ids.len() > 0 {
            Some(ids[0])
        } else {
            None
        }
    }

    /// The first identifier — server-assigned `id` or client-local `lid` —
    /// as a `&str`. Returns `None` for null-to-one or empty-to-many.
    pub fn first_id_or_lid(&self) -> (r: Option<&str>)
        ensures
            match r {
                Some(s) => self.data.identifiers_view().len() > 0 && match self.data.identifiers_view()[0].identity {
                    Identity::Id(x) => s@ == x@,
                    Identity::Lid(x) => s@ == x@,
                },
                None => self.data.identifiers_view().len() == 0,
            },
    {
        let rids = self.identifiers();
        if rids.len() == 0 {
            return None;
        }
        match &rids[0].identity {
            Identity::Id(x) => Some(x.as_str()),
            Identity::Lid(x) => Some(x.as_str()),
        }
    }
}

/// The JSON form of relationship linkage: `null`, one identifier, or an
/// array of identifiers.
pub open spec fn rel_data_json(d: RelationshipData) -> JValue {
    match d {
        RelationshipData::ToOne(None) => JValue::Null,
        RelationshipData::ToOne(Some(r)) => rid_json(r),
        RelationshipData::ToMany(rs) => JValue::Array(
            rs@.map_values(|r: ResourceIdentifier| rid_json(r)),
        ),
    }
}

/// Whether a JSON value reads as relationship linkage: `null`, an
/// identifier object, or an array of identifier objects.
pub open spec fn rel_data_valid(v: JValue) -> bool {
    match v {
        JValue::Null => true,
        JValue::Object(_) => rid_valid(v),
        JValue::Array(items) => forall|i: int| 0 <= i < items.len() ==> rid_valid(#[trigger] items[i]),
        _ => false,
    }
}

/// Whether `d` is what the JSON value `v` reads as.
pub open spec fn rel_data_decodes(v: JValue, d: RelationshipData) -> bool {
    match v {
        JValue::Null => d matches RelationshipData::ToOne(None),
        JValue::Object(_) => d matches RelationshipData::ToOne(Some(r)) && rid_decodes(v, r),
        JValue::Array(items) => d matches RelationshipData::ToMany(rs) && rs@.len() == items.len()
            && forall|i: int| 0 <= i < items.len() ==> rid_decodes(#[trigger] items[i], rs@[i]),
        _ => false,
    }
}

/// Reading back the JSON form of linkage gives the linkage.
pub proof fn lemma_rel_data_round_trip(d: RelationshipData)
    ensures
        rel_data_valid(rel_data_json(d)),
        rel_data_decodes(rel_data_json(d), d),
{
    match d {
        RelationshipData::ToOne(Some(r)) => lemma_rid_round_trip(r),
        RelationshipData::ToMany(rs) => {
            let items = rs@.map_values(|r: ResourceIdentifier| rid_json(r));
            assert forall|i: int| 0 <= i < rs@.len() implies rid_valid(#[trigger] items[i])
                && rid_decodes(items[i], rs@[i]) by {
                lemma_rid_round_trip(rs@[i]);
            }
        },
        _ => {},
    }
}

impl RelationshipData {
    /// The JSON form of the linkage.
    pub fn to_json(&self) -> (r: JsonValue)
        ensures
            r@ == rel_data_json(*self),
    {
        match self {
            RelationshipData::ToOne(None) => JsonValue::Null,
            RelationshipData::ToOne(Some(rid)) => rid.to_json(),
            RelationshipData::ToMany(rids) => {
                let mut items: Vec<JsonValue> = Vec::new();
                let mut i: usize = 0;
                while i < rids.len()
                    invariant
                        0 <= i <= rids@.len(),
                        json_view_seq(items@) == rids@.take(i as int).map_values(
                            |r: ResourceIdentifier| rid_json(r),
                        ),
                    decreases rids@.len() - i,
                {
                    let ghost before = items@;
                    items.push(rids[i].to_json());
                    assert(items@.drop_last() =~= before);
                    assert(rids@.take(i + 1).map_values(|r: ResourceIdentifier| rid_json(r))
                        =~= rids@.take(i as int).map_values(|r: ResourceIdentifier| rid_json(r)).push(
                        rid_json(rids@[i as int]),
                    ));
                    i += 1;
                }
                assert(rids@.take(i as int) =~= rids@);
                JsonValue::Array(items)
            },
        }
    }

    /// Read linkage from its JSON form; anything else than `null`, an
    /// identifier object or an array of them is a shape error.
    pub fn from_json(v: &JsonValue) -> (r: Result<RelationshipData>)
        ensures
            match r {
                Ok(d) => rel_data_valid(v@) && rel_data_decodes(v@, d),
                Err(e) => !rel_data_valid(v@) && e is Json,
            },
    {
        match v {
            JsonValue::Null => Ok(RelationshipData::ToOne(None)),
            JsonValue::Object(_) => {
                let rid = ResourceIdentifier::from_json(v)?;
                Ok(RelationshipData::ToOne(Some(rid)))
            },
            JsonValue::Array(items) => {
                proof {
                    lemma_json_view_seq(items@);
                }
                let ghost iv = json_view_seq(items@);
                let mut rids: Vec<ResourceIdentifier> = Vec::new();
                let mut i: usize = 0;
                while i < items.len()
                    invariant
                        0 <= i <= items@.len(),
                        iv == json_view_seq(items@),
                        v@ == JValue::Array(iv),
                        iv.len() == items@.len(),
                        forall|j: int| 0 <= j < items@.len() ==> #[trigger] iv[j] == items@[j]@,
                        rids@.len() == i,
                        forall|j: int| 0 <= j < i ==> rid_valid(#[trigger] iv[j]) && rid_decodes(iv[j], rids@[j]),
                    decreases items@.len() - i,
                {
                    assert(iv[i as int] == items@[i as int]@);
                    match ResourceIdentifier::from_json(&items[i]) {
                        Ok(rid) => rids.push(rid),
                        Err(e) => {
                            assert(!rid_valid(iv[i as int]));
                            assert(v@ is Array);
                            assert(v@->Array_0 == iv);
                            assert(rel_data_valid(v@) ==> rid_valid(iv[i as int]));
                            assert(!rel_data_valid(v@));
                            return Err(e);
                        },
                    }
                    i += 1;
                }
                Ok(RelationshipData::ToMany(rids))
            },
            _ => Err(shape_error("relationship data must be null, object, or array")),
        }
    }
}

/// The JSON form of a relationship: `data`, then `links` and `meta`, each
/// when it is set.
pub open spec fn relationship_json<T>(r: Relationship<T>) -> JValue {
    let m0 = obj_set(Seq::empty(), "data"@, rel_data_json(r.data));
    let m1 = match r.links {
        Some(l) => obj_set(m0, "links"@, links_json(l)),
        None => m0,
    };
    JValue::Object(set_opt_object(m1, "meta"@, opt_members(r.meta)))
}

/// Whether a JSON value reads as a relationship: a record of three fields
/// (an object, or an array of exactly three elements in the order `data`,
/// `links`, `meta`) whose `data` is present and reads as linkage (`null`
/// included), whose `links`, unless absent or `null`, reads as a link map,
/// and whose `meta`, unless absent or `null`, is an object.
pub open spec fn relationship_valid(v: JValue) -> bool {
    &&& record_shape(v, 3, 3)
    &&& match slot(v, "data"@, 0) {
        Some(d) => rel_data_valid(d),
        None => false,
    }
    &&& match present(slot(v, "links"@, 1)) {
        None => true,
        Some(x) => links_valid(x),
    }
    &&& object_field(slot(v, "meta"@, 2)) is Some
}

/// Whether `r` is the relationship that the JSON value `v` reads as.
pub open spec fn relationship_decodes<T>(v: JValue, r: Relationship<T>) -> bool {
    &&& match slot(v, "data"@, 0) {
        Some(d) => rel_data_decodes(d, r.data),
        None => false,
    }
    &&& match present(slot(v, "links"@, 1)) {
        None => r.links is None,
        Some(x) => r.links matches Some(l) && links_decodes(x, l),
    }
    &&& object_field(slot(v, "meta"@, 2)) == Some(opt_members(r.meta))
}

impl<T> Relationship<T> {
    /// The JSON form of the relationship.
    pub fn to_json(&self) -> (r: JsonValue)
        ensures
            r@ == relationship_json(*self),
    {
        let mut o = JsonObject::new();
        o.insert(owned("data"), self.data.to_json());
        write_opt_links(&mut o, &self.links);
        write_opt_object(&mut o, "meta", &self.meta);
        JsonValue::Object(o)
    }

    /// Read a relationship from its JSON form (see [`relationship_valid`]);
    /// anything else is a shape error.
    pub fn from_json(v: &JsonValue) -> (r: Result<Relationship<T>>)
        ensures
            match r {
                Ok(x) => relationship_valid(v@) && relationship_decodes(v@, x),
                Err(e) => !relationship_valid(v@) && e is Json,
            },
    {
        if !is_record(v, 3, 3) {
            return Err(shape_error("relationship must be an object or an array of three fields"));
        }
        let data = match slot_of(v, "data", 0) {
            Some(d) => RelationshipData::from_json(d)?,
            None => return Err(shape_error("missing field `data`")),
        };
        let links = read_opt_links(v, "links", 1)?;
        let meta = read_object_field(v, "meta", 2)?;
        Ok(Relationship { data, links, meta, _phantom: PhantomData })
    }
}

/// Reading back the JSON form of a relationship whose link map is well
/// formed gives the relationship.
pub proof fn lemma_relationship_round_trip<T>(r: Relationship<T>)
    requires
        opt_links_wf(r.links),
    ensures
        relationship_valid(relationship_json(r)),
        relationship_decodes(relationship_json(r), r),
{
    reveal_strlit("data");
    reveal_strlit("links");
    reveal_strlit("meta");
    assert("data"@[0] != "links"@[0]);
    assert("data"@[0] != "meta"@[0]);
    assert("links"@[0] != "meta"@[0]);
    lemma_rel_data_round_trip(r.data);
    let d = rel_data_json(r.data);
    let m0 = obj_set(Seq::empty(), "data"@, d);
    let m1 = match r.links {
        Some(l) => obj_set(m0, "links"@, links_json(l)),
        None => m0,
    };
    lemma_obj_get_set(Seq::empty(), "data"@, d, "data"@);
    lemma_obj_get_set(Seq::empty(), "data"@, d, "links"@);
    lemma_obj_get_set(Seq::empty(), "data"@, d, "meta"@);
    if let Some(l) = r.links {
        lemma_links_round_trip(l);
        lemma_obj_get_set(m0, "links"@, links_json(l), "data"@);
        lemma_obj_get_set(m0, "links"@, links_json(l), "links"@);
        lemma_obj_get_set(m0, "links"@, links_json(l), "meta"@);
    }
    if let Some(x) = r.meta {
        lemma_obj_get_set(m1, "meta"@, JValue::Object(x@), "data"@);
        lemma_obj_get_set(m1, "meta"@, JValue::Object(x@), "links"@);
        lemma_obj_get_set(m1, "meta"@, JValue::Object(x@), "meta"@);
    }
}

} // verus!
