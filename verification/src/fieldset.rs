//! Sparse fieldsets: which fields to include per resource type (the
//! `?fields[type]=field1,field2` query parameter).
use crate::json::{
    copy_value, json_view, json_view_seq, lemma_json_view_seq, lemma_members_view,
    named_otherwise, obj_get, obj_set, JValue, JsonObject, JsonValue,
};
use crate::model::resource::{resource_json, Resource, ResourceObject};
use crate::str_map::StrMap;
use crate::text::owned;
use vstd::prelude::*;

verus! {

/// Configuration for sparse fieldset filtering. Types without an entry pass
/// through unfiltered.
#[derive(Debug, Clone, PartialEq)]
pub struct FieldsetConfig {
    fields: StrMap<Vec<String>>,
}

impl View for FieldsetConfig {
    type V = Map<Seq<char>, Set<Seq<char>>>;

    closed spec fn view(&self) -> Map<Seq<char>, Set<Seq<char>>> {
        self.fields.as_map().map_values(|v: Vec<String>| v.deep_view().to_set())
    }
}

/// Whether `field` of type `type_` is kept under `config`.
pub open spec fn spec_is_included(
    config: Map<Seq<char>, Set<Seq<char>>>,
    type_: Seq<char>,
    field: Seq<char>,
) -> bool {
    !config.contains_key(type_) || config[type_].contains(field)
}

/// The views of a list of string slices, as a set.
pub open spec fn str_set(s: Seq<&str>) -> Set<Seq<char>> {
    s.map_values(|x: &str| x@).to_set()
}

impl FieldsetConfig {
    /// Create an empty fieldset configuration.
    pub fn new() -> (r: Self)
        ensures
            r@ == Map::<Seq<char>, Set<Seq<char>>>::empty(),
    {
        let r = FieldsetConfig { fields: StrMap::new() };
        assert(r@ =~= Map::<Seq<char>, Set<Seq<char>>>::empty());
        r
    }

    /// Specify which fields to include for a resource type, replacing any
    /// earlier entry for that type.
    pub fn fields(self, type_: &str, fields: &[&str]) -> (r: Self)
        ensures
            r@ == self@.insert(type_@, str_set(fields@)),
    {
        let ghost before = self@;
        let mut names: Vec<String> = Vec::new();
        let mut i: usize = 0;
        while i < fields.len()
            invariant
                0 <= i <= fields@.len(),
                names.deep_view() == fields@.take(i as int).map_values(|x: &str| x@),
            decreases fields@.len() - i,
        {
            let ghost prev = names.deep_view();
            names.push(owned(fields[i]));
            assert(names.deep_view() =~= prev.push(fields@[i as int]@));
            assert(fields@.take(i + 1).map_values(|x: &str| x@) =~= fields@.take(i as int).map_values(
                |x: &str| x@,
            ).push(fields@[i as int]@));
            i += 1;
        }
        assert(fields@.take(i as int) =~= fields@);
        let mut map = self.fields;
        let ghost old_map = map;
        map.insert(owned(type_), names);
        let r = FieldsetConfig { fields: map };
        proof {
            assert(r@ =~= before.insert(type_@, str_set(fields@))) by {
                assert forall|k: Seq<char>| #[trigger] r@.contains_key(k) == before.insert(
                    type_@,
                    str_set(fields@),
                ).contains_key(k) by {
                    if k != type_@ {
                        assert(map.has(k) == old_map.has(k));
                    }
                }
                assert forall|k: Seq<char>| #[trigger] r@.contains_key(k) implies r@[k]
                    == before.insert(type_@, str_set(fields@))[k] by {
                    if k != type_@ {
                        assert(map.has(k) == old_map.has(k));
                        assert(map.lookup(k) == old_map.lookup(k));
                    }
                }
            }
        }
        r
    }

    /// Check whether this config has an entry for the given type.
    pub fn has_type(&self, type_: &str) -> (b: bool)
        ensures
            b == self@.contains_key(type_@),
    {
        self.fields.contains_key(type_)
    }

    /// Returns true if the type has no fieldset entry, or the field is in
    /// the type's fieldset list.
    pub fn is_included(&self, type_: &str, field_name: &str) -> (b: bool)
        ensures
            b == spec_is_included(self@, type_@, field_name@),
    {
        match self.fields.get(type_) {
            None => {
                assert(!self@.contains_key(type_@));
                true
            },
            Some(allowed) => {
                assert(self.fields.has(type_@));
                assert(self@.contains_key(type_@));
                assert(self@[type_@] == allowed.deep_view().to_set());
                let mut i: usize = 0;
                while i < allowed.len()
                    invariant
                        0 <= i <= allowed@.len(),
                        self@.contains_key(type_@),
                        self@[type_@] == allowed.deep_view().to_set(),
                        forall|j: int| 0 <= j < i ==> allowed.deep_view()[j] != field_name@,
                    decreases allowed@.len() - i,
                {
                    if crate::text::str_eq(allowed[i].as_str(), field_name) {
                        assert(allowed.deep_view()[i as int] == field_name@);
                        assert(allowed.deep_view().to_set().contains(field_name@));
                        return true;
                    }
                    i += 1;
                }
                proof {
                    if allowed.deep_view().to_set().contains(field_name@) {
                        assert(allowed.deep_view().contains(field_name@));
                    }
                }
                false
            },
        }
    }
}

impl Default for FieldsetConfig {
    /// An empty configuration.
    fn default() -> (r: Self)
        ensures
            r@ == Map::<Seq<char>, Set<Seq<char>>>::empty(),
    {
        FieldsetConfig::new()
    }
}

/// The members whose names are kept for type `t`.
pub open spec fn kept_fields(
    m: Seq<(Seq<char>, JValue)>,
    config: Map<Seq<char>, Set<Seq<char>>>,
    t: Seq<char>,
) -> Seq<(Seq<char>, JValue)> {
    m.filter(|e: (Seq<char>, JValue)| spec_is_included(config, t, e.0))
}

/// `m` with the object member `k` narrowed to the kept names, and dropped
/// when nothing is left of it.
pub open spec fn narrow_member(
    m: Seq<(Seq<char>, JValue)>,
    k: Seq<char>,
    config: Map<Seq<char>, Set<Seq<char>>>,
    t: Seq<char>,
) -> Seq<(Seq<char>, JValue)> {
    match obj_get(m, k) {
        Some(JValue::Object(a)) => if kept_fields(a, config, t).len() == 0 {
            m.filter(named_otherwise(k))
        } else {
            obj_set(m, k, JValue::Object(kept_fields(a, config, t)))
        },
        _ => m,
    }
}

/// A resource object's members with `attributes` and `relationships`
/// narrowed to the names kept for type `t`.
pub open spec fn narrow_fields(
    m: Seq<(Seq<char>, JValue)>,
    config: Map<Seq<char>, Set<Seq<char>>>,
    t: Seq<char>,
) -> Seq<(Seq<char>, JValue)> {
    narrow_member(narrow_member(m, "attributes"@, config, t), "relationships"@, config, t)
}

/// A resource's JSON narrowed when its string `type` has a fieldset entry;
/// anything else is left as it is.
pub open spec fn sparse_resource(v: JValue, config: Map<Seq<char>, Set<Seq<char>>>) -> JValue {
    match v {
        JValue::Object(m) => match obj_get(m, "type"@) {
            Some(JValue::Str(t)) => if config.contains_key(t) {
                JValue::Object(narrow_fields(m, config, t))
            } else {
                v
            },
            _ => v,
        },
        _ => v,
    }
}

/// Primary data narrowed: each resource of an array, or the one resource.
pub open spec fn sparse_data(v: JValue, config: Map<Seq<char>, Set<Seq<char>>>) -> JValue {
    match v {
        JValue::Array(items) => JValue::Array(
            items.map_values(|x: JValue| sparse_resource(x, config)),
        ),
        JValue::Object(_) => sparse_resource(v, config),
        _ => v,
    }
}

/// A document narrowed: its primary data and its included resources.
pub open spec fn sparse_document(doc: JValue, config: Map<Seq<char>, Set<Seq<char>>>) -> JValue {
    match doc {
        JValue::Object(m) => {
            let m1 = match obj_get(m, "data"@) {
                Some(d) => obj_set(m, "data"@, sparse_data(d, config)),
                None => m,
            };
            let m2 = match obj_get(m1, "included"@) {
                Some(JValue::Array(items)) => obj_set(
                    m1,
                    "included"@,
                    JValue::Array(items.map_values(|x: JValue| sparse_resource(x, config))),
                ),
                _ => m1,
            };
            JValue::Object(m2)
        },
        _ => doc,
    }
}

/// The members of `a` kept for type `t`.
fn keep_fields(a: &JsonObject, config: &FieldsetConfig, t: &str) -> (r: JsonObject)
    ensures
        r@ == kept_fields(a@, config@, t@),
{
    let ghost f = |e: (Seq<char>, JValue)| spec_is_included(config@, t@, e.0);
    proof {
        lemma_members_view(a.members@);
    }
    let ghost av = a@;
    let mut kept: Vec<(String, JsonValue)> = Vec::new();
    let mut i: usize = 0;
    while i < a.members.len()
        invariant
            0 <= i <= a.members@.len(),
            av == a@,
            av.len() == a.members@.len(),
            f == (|e: (Seq<char>, JValue)| spec_is_included(config@, t@, e.0)),
            forall|j: int|
                0 <= j < a.members@.len() ==> #[trigger] av[j] == (
                    a.members@[j].0@,
                    json_view(a.members@[j].1),
                ),
            crate::json::members_view(kept@) == av.take(i as int).filter(f),
        decreases a.members@.len() - i,
    {
        let ghost kept_before = kept@;
        proof {
            reveal_with_fuel(Seq::filter, 1);
            assert(av.take(i + 1).drop_last() =~= av.take(i as int));
        }
        let ghost e = av[i as int];
        assert(e == (a.members@[i as int].0@, json_view(a.members@[i as int].1)));
        if config.is_included(t, a.members[i].0.as_str()) {
            kept.push((a.members[i].0.clone(), copy_value(&a.members[i].1)));
            proof {
                assert(kept@.drop_last() =~= kept_before);
                assert(crate::json::members_view(kept@) == crate::json::members_view(
                    kept@.drop_last(),
                ).push((kept@.last().0@, json_view(kept@.last().1))));
                assert(av.take(i + 1).filter(f) == av.take(i as int).filter(f).push(e));
            }
        } else {
            assert(av.take(i + 1).filter(f) == av.take(i as int).filter(f));
        }
        i += 1;
    }
    assert(av.take(i as int) =~= av);
    JsonObject { members: kept }
}

/// Narrows the object member `key` to the names kept for type `t`,
/// dropping it when nothing is left.
fn narrow(obj: &mut JsonObject, key: &str, t: &str, config: &FieldsetConfig)
    ensures
        final(obj)@ == narrow_member(old(obj)@, key@, config@, t@),
{
    let narrowed = match obj.get(key) {
        Some(JsonValue::Object(a)) => keep_fields(a, config, t),
        _ => return,
    };
    if narrowed.is_empty() {
        obj.remove(key);
    } else {
        obj.insert(owned(key), JsonValue::Object(narrowed));
    }
}

fn filter_resource_fields(obj: &mut JsonObject, t: &str, config: &FieldsetConfig)
    ensures
        final(obj)@ == narrow_fields(old(obj)@, config@, t@),
{
    narrow(obj, "attributes", t, config);
    narrow(obj, "relationships", t, config);
}

fn filter_single_resource(value: &JsonValue, config: &FieldsetConfig) -> (r: JsonValue)
    ensures
        r@ == sparse_resource(value@, config@),
{
    let obj = match value.as_object() {
        Some(o) => o,
        None => return copy_value(value),
    };
    let t = match obj.get("type") {
        Some(JsonValue::String(t)) => t,
        _ => return copy_value(value),
    };
    if !config.has_type(t.as_str()) {
        return copy_value(value);
    }
    let mut out = crate::json::copy_object(obj);
    filter_resource_fields(&mut out, t.as_str(), config);
    JsonValue::Object(out)
}

/// Each resource of `items` narrowed, in order.
fn filter_resources(items: &Vec<JsonValue>, config: &FieldsetConfig) -> (r: Vec<JsonValue>)
    ensures
        json_view_seq(r@) == json_view_seq(items@).map_values(|x: JValue| sparse_resource(x, config@)),
{
    proof {
        lemma_json_view_seq(items@);
    }
    let ghost iv = json_view_seq(items@);
    let mut out: Vec<JsonValue> = Vec::new();
    let mut i: usize = 0;
    while i < items.len()
        invariant
            0 <= i <= items@.len(),
            iv == json_view_seq(items@),
            iv.len() == items@.len(),
            forall|j: int| 0 <= j < items@.len() ==> #[trigger] iv[j] == items@[j]@,
            json_view_seq(out@) == iv.take(i as int).map_values(|x: JValue| sparse_resource(x, config@)),
        decreases items@.len() - i,
    {
        let ghost before = out@;
        assert(iv[i as int] == items@[i as int]@);
        out.push(filter_single_resource(&items[i], config));
        assert(out@.drop_last() =~= before);
        assert(iv.take(i + 1).map_values(|x: JValue| sparse_resource(x, config@)) =~= iv.take(
            i as int,
        ).map_values(|x: JValue| sparse_resource(x, config@)).push(sparse_resource(iv[i as int], config@)));
        i += 1;
    }
    assert(iv.take(i as int) =~= iv);
    out
}

fn filter_resource_or_array(value: &JsonValue, config: &FieldsetConfig) -> (r: JsonValue)
    ensures
        r@ == sparse_data(value@, config@),
{
    match value {
        JsonValue::Array(items) => JsonValue::Array(filter_resources(items, config)),
        JsonValue::Object(_) => filter_single_resource(value, config),
        _ => copy_value(value),
    }
}

/// Sparse-fieldset filtering of a raw document: in the primary data and
/// the included resources, each resource whose type has a fieldset entry
/// keeps only the listed attributes and relationships (an emptied
/// `attributes` or `relationships` object is dropped); everything else is
/// copied as it is.
pub fn sparse_filter(document: &JsonValue, config: &FieldsetConfig) -> (r: JsonValue)
    ensures
        r@ == sparse_document(document@, config@),
{
    let obj = match document.as_object() {
        Some(o) => o,
        None => return copy_value(document),
    };
    let mut out = crate::json::copy_object(obj);
    match obj.get("data") {
        Some(d) => out.insert(owned("data"), filter_resource_or_array(d, config)),
        None => {},
    }
    proof {
        reveal_strlit("data");
        reveal_strlit("included");
        crate::json::lemma_obj_get_set(obj@, "data"@, JValue::Null, "included"@);
        if let Some(d) = obj_get(obj@, "data"@) {
            crate::json::lemma_obj_get_set(obj@, "data"@, sparse_data(d, config@), "included"@);
        }
    }
    match out.get("included") {
        Some(JsonValue::Array(items)) => {
            let filtered = filter_resources(items, config);
            out.insert(owned("included"), JsonValue::Array(filtered));
        },
        _ => {},
    }
    JsonValue::Object(out)
}

/// Serializes one resource through a fieldset: a resource whose type has a
/// fieldset entry keeps only the listed attributes and relationships.
#[derive(Debug)]
pub struct SparseSerializer<'a, T: ResourceObject> {
    resource: &'a T,
    config: &'a FieldsetConfig,
}

impl<'a, T: ResourceObject> SparseSerializer<'a, T> {
    /// Wrap a resource and a fieldset configuration.
    pub fn new(resource: &'a T, config: &'a FieldsetConfig) -> (r: Self)
        ensures
            *r.resource() == *resource,
            r.config()@ == config@,
    {
        SparseSerializer { resource, config }
    }

    /// The wrapped resource.
    pub closed spec fn resource(&self) -> &'a T {
        self.resource
    }

    /// The wrapped configuration.
    pub closed spec fn config(&self) -> &'a FieldsetConfig {
        self.config
    }
}

impl<'a> SparseSerializer<'a, Resource> {
    /// The resource's JSON form, narrowed when its type has a fieldset
    /// entry.
    pub fn to_json(&self) -> (r: JsonValue)
        ensures
            r@ == if self.config()@.contains_key(self.resource().type_@) {
                JValue::Object(
                    narrow_fields(
                        crate::model::resource::resource_members(*self.resource()),
                        self.config()@,
                        self.resource().type_@,
                    ),
                )
            } else {
                resource_json(*self.resource())
            },
    {
        let v = self.resource.to_json();
        if !self.config.has_type(self.resource.type_.as_str()) {
            return v;
        }
        match v {
            JsonValue::Object(mut obj) => {
                filter_resource_fields(&mut obj, self.resource.type_.as_str(), self.config);
                JsonValue::Object(obj)
            },
            _ => v,
        }
    }
}

} // verus!
