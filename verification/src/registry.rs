//! Included resource registry and recursive resolver.
//!
//! The [`Registry`] is a lookup table populated from a document's
//! `included` array, keyed by type then id. It gives lookups by
//! relationship reference or explicit `(type, id)`, and a resolver that
//! flattens a resource (attributes hoisted, relationships replaced by the
//! resources they reference) with cycle detection.
use crate::error::{Error, Result};
use crate::json::{
    copy_value, json_view, json_view_seq, lemma_json_view_seq, lemma_members_view,
    lemma_obj_get_push, lemma_obj_get_set, lemma_obj_index, obj_get, obj_index, obj_set, JValue,
    JsonObject, JsonValue,
};
use crate::model::document::Document;
use crate::model::identifier::{Identity, ResourceIdentifier};
use crate::model::relationship::{Relationship, RelationshipData};
use crate::model::resource::{
    lemma_resource_round_trip, resource_decodes, resource_json, resource_valid, resource_wf, Resource,
};
use crate::str_map::{lex_lt, StrMap};
use crate::text::{owned, str_eq};
use vstd::prelude::*;

verus! {

/// Lookup table populated from the `included` array, keyed by type then id.
#[derive(Debug)]
pub struct Registry {
    resources: StrMap<StrMap<JsonValue>>,
}

/// Configuration for recursive resolution.
#[derive(Debug, Clone)]
pub struct ResolveConfig {
    /// Maximum recursion depth. Default: 10.
    pub max_depth: usize,
}

impl Default for ResolveConfig {
    /// A maximum depth of 10.
    fn default() -> (r: Self)
        ensures
            r.max_depth == 10,
    {
        ResolveConfig { max_depth: 10 }
    }
}

impl View for Registry {
    /// The JSON form of the resource stored under each `(type, id)`.
    type V = Map<(Seq<char>, Seq<char>), JValue>;

    closed spec fn view(&self) -> Map<(Seq<char>, Seq<char>), JValue> {
        Map::new(
            |k: (Seq<char>, Seq<char>)|
                self.resources.has(k.0) && self.resources.lookup(k.0).unwrap().has(k.1),
            |k: (Seq<char>, Seq<char>)| self.resources.lookup(k.0).unwrap().lookup(k.1).unwrap()@,
        )
    }
}

/// The entries of a registry built from `rs`: the JSON form of each
/// resource with an `id`, under its `(type, id)`; the last one wins.
pub open spec fn included_entries(rs: Seq<Resource>) -> Map<(Seq<char>, Seq<char>), JValue>
    decreases rs.len(),
{
    if rs.len() == 0 {
        Map::empty()
    } else {
        let m = included_entries(rs.drop_last());
        let r = rs.last();
        match r.id {
            Some(id) => m.insert((r.type_@, id@), resource_json(r)),
            None => m,
        }
    }
}

/// Whether `e` is the lookup error for `(t, id)`.
pub open spec fn is_lookup_error(e: Error, t: Seq<char>, id: Seq<char>) -> bool {
    e matches Error::RegistryLookup { type_: x, id: y } && x@ == t && y@ == id
}

/// What a lookup by `(t, id)` gives: the resource the stored JSON reads as,
/// a shape error when it does not read as one, a lookup error when nothing
/// is stored.
pub open spec fn lookup_outcome(
    reg: Map<(Seq<char>, Seq<char>), JValue>,
    t: Seq<char>,
    id: Seq<char>,
    r: Result<Resource>,
) -> bool {
    if reg.contains_key((t, id)) {
        match r {
            Ok(x) => resource_valid(reg[(t, id)]) && resource_decodes(reg[(t, id)], x),
            Err(e) => !resource_valid(reg[(t, id)]) && e is Json,
        }
    } else {
        r matches Err(e) && is_lookup_error(e, t, id)
    }
}

/// Whether an identifier resolves in the registry: a server `id` whose
/// stored JSON reads as a resource.
pub open spec fn rid_resolves(reg: Map<(Seq<char>, Seq<char>), JValue>, rid: ResourceIdentifier) -> bool {
    match rid.identity {
        Identity::Id(id) => reg.contains_key((rid.type_@, id@)) && resource_valid(
            reg[(rid.type_@, id@)],
        ),
        Identity::Lid(_) => false,
    }
}

/// The error a lookup by an identifier that does not resolve reports.
pub open spec fn rid_error(reg: Map<(Seq<char>, Seq<char>), JValue>, rid: ResourceIdentifier, e: Error) -> bool {
    match rid.identity {
        Identity::Lid(_) => e is LidNotIndexed,
        Identity::Id(id) => if reg.contains_key((rid.type_@, id@)) {
            e is Json
        } else {
            is_lookup_error(e, rid.type_@, id@)
        },
    }
}

/// The resources stored under type `t`, in ascending id order.
pub open spec fn values_in_id_order(
    reg: Map<(Seq<char>, Seq<char>), JValue>,
    t: Seq<char>,
    ids: Seq<Seq<char>>,
) -> bool {
    &&& forall|i: int, j: int| 0 <= i < j < ids.len() ==> lex_lt(#[trigger] ids[i], #[trigger] ids[j])
    &&& forall|id: Seq<char>| ids.contains(id) <==> reg.contains_key((t, id))
}

/// Whether `rs` are, in order, the resources that the values read as,
/// skipping those that do not read as one.
pub open spec fn decoded_in_order(vals: Seq<JValue>, rs: Seq<Resource>) -> bool {
    let ok = vals.filter(|v: JValue| resource_valid(v));
    rs.len() == ok.len() && forall|i: int| 0 <= i < ok.len() ==> resource_decodes(#[trigger] ok[i], rs[i])
}

impl Default for Registry {
    /// An empty registry.
    fn default() -> (r: Self)
        ensures
            r@ == Map::<(Seq<char>, Seq<char>), JValue>::empty(),
    {
        Registry::new()
    }
}

impl Registry {
    /// Create an empty registry.
    pub fn new() -> (r: Self)
        ensures
            r@ == Map::<(Seq<char>, Seq<char>), JValue>::empty(),
    {
        let r = Registry { resources: StrMap::new() };
        assert(r@ =~= Map::<(Seq<char>, Seq<char>), JValue>::empty());
        r
    }

    /// The JSON stored under `(type_, id)`.
    fn lookup(&self, type_: &str, id: &str) -> (r: Option<&JsonValue>)
        ensures
            match r {
                Some(v) => self@.contains_key((type_@, id@)) && self@[(type_@, id@)] == v@,
                None => !self@.contains_key((type_@, id@)),
            },
    {
        match self.resources.get(type_) {
            Some(by_id) => match by_id.get(id) {
                Some(v) => Some(v),
                None => None,
            },
            None => None,
        }
    }

    /// Build from the included array of a document: every resource that has
    /// an `id` is stored, as JSON, under its `(type, id)` (the last one
    /// wins). Always succeeds.
    pub fn from_included(included: &[Resource]) -> (r: Result<Registry>)
        ensures
            r matches Ok(reg) && reg@ == included_entries(included@),
    {
        let mut reg = Registry::new();
        let mut i: usize = 0;
        while i < included.len()
            invariant
                0 <= i <= included@.len(),
                reg@ == included_entries(included@.take(i as int)),
            decreases included@.len() - i,
        {
            let item = &included[i];
            assert(included@.take(i + 1).drop_last() =~= included@.take(i as int));
            assert(included@.take(i + 1).last() == included@[i as int]);
            match &item.id {
                Some(id) => {
                    reg.store(item.type_.clone(), id.clone(), item.to_json());
                },
                None => {},
            }
            i += 1;
        }
        assert(included@.take(i as int) =~= included@);
        Ok(reg)
    }

    /// Store `value` under `(type_, id)`.
    fn store(&mut self, type_: String, id: String, value: JsonValue)
        ensures
            final(self)@ == old(self)@.insert((type_@, id@), value@),
    {
        let ghost t = type_@;
        let ghost k = id@;
        let ghost vv = value@;
        let mut by_id = match self.resources.remove(type_.as_str()) {
            Some(m) => m,
            None => StrMap::new(),
        };
        let ghost before_inner = by_id;
        by_id.insert(id, value);
        self.resources.insert(type_, by_id);
        assert(self@ =~= old(self)@.insert((t, k), vv)) by {
            assert forall|key: (Seq<char>, Seq<char>)| #[trigger] self@.contains_key(key)
                == old(self)@.insert((t, k), vv).contains_key(key) by {
                if key.0 != t {
                    assert(self.resources.lookup(key.0) == old(self).resources.lookup(key.0));
                } else if key.1 != k {
                    assert(by_id.lookup(key.1) == before_inner.lookup(key.1));
                }
            }
            assert forall|key: (Seq<char>, Seq<char>)| #[trigger] self@.contains_key(key) implies self@[key]
                == old(self)@.insert((t, k), vv)[key] by {
                if key.0 != t {
                    assert(self.resources.lookup(key.0) == old(self).resources.lookup(key.0));
                } else if key.1 != k {
                    assert(by_id.lookup(key.1) == before_inner.lookup(key.1));
                }
            }
        }
    }

    /// Look up a related resource by its to-one relationship reference.
    /// Errors: [`Error::NullRelationship`] for a null to-one,
    /// [`Error::RelationshipCardinalityMismatch`] for a to-many,
    /// [`Error::LidNotIndexed`] for a `lid`, then as [`Registry::get_by_id`].
    pub fn get<T>(&self, rel: &Relationship<T>) -> (r: Result<Resource>)
        ensures
            match rel.data {
                RelationshipData::ToOne(Some(rid)) => match rid.identity {
                    Identity::Id(id) => lookup_outcome(self@, rid.type_@, id@, r),
                    Identity::Lid(_) => r matches Err(e) && e is LidNotIndexed,
                },
                RelationshipData::ToOne(None) => r matches Err(e) && e is NullRelationship,
                RelationshipData::ToMany(_) => r matches Err(e) && (e matches Error::RelationshipCardinalityMismatch {
                    expected,
                } && expected@ == "to-one"@),
            },
    {
        match &rel.data {
            RelationshipData::ToOne(Some(rid)) => {
                let id = match &rid.identity {
                    Identity::Id(id) => id,
                    Identity::Lid(_) => return Err(Error::LidNotIndexed),
                };
                self.get_by_id(rid.type_.as_str(), id.as_str())
            },
            RelationshipData::ToOne(None) => Err(Error::NullRelationship),
            RelationshipData::ToMany(_) => Err(
                Error::RelationshipCardinalityMismatch { expected: "to-one" },
            ),
        }
    }

    /// Resolve a to-many relationship to its resources, in order; the first
    /// identifier that does not resolve gives the error (see
    /// [`Registry::get`]). [`Error::RelationshipCardinalityMismatch`] for a
    /// to-one.
    pub fn get_many<T>(&self, rel: &Relationship<T>) -> (r: Result<Vec<Resource>>)
        ensures
            match rel.data {
                RelationshipData::ToMany(rids) => match r {
                    Ok(rs) => rs@.len() == rids@.len() && forall|i: int|
                        0 <= i < rids@.len() ==> rid_resolves(self@, #[trigger] rids@[i])
                            && resource_decodes(
                            self@[(rids@[i].type_@, rids@[i].identity->Id_0@)],
                            rs@[i],
                        ),
                    Err(e) => exists|i: int|
                        0 <= i < rids@.len() && !rid_resolves(self@, #[trigger] rids@[i]) && rid_error(
                            self@,
                            rids@[i],
                            e,
                        ) && forall|j: int| 0 <= j < i ==> rid_resolves(self@, #[trigger] rids@[j]),
                },
                RelationshipData::ToOne(_) => r matches Err(e) && (e matches Error::RelationshipCardinalityMismatch {
                    expected,
                } && expected@ == "to-many"@),
            },
    {
        match &rel.data {
            RelationshipData::ToMany(rids) => {
                let mut results: Vec<Resource> = Vec::new();
                let mut i: usize = 0;
                while i < rids.len()
                    invariant
                        0 <= i <= rids@.len(),
                        rel.data == RelationshipData::ToMany(*rids),
                        results@.len() == i,
                        forall|j: int|
                            0 <= j < i ==> rid_resolves(self@, #[trigger] rids@[j]) && resource_decodes(
                                self@[(rids@[j].type_@, rids@[j].identity->Id_0@)],
                                results@[j],
                            ),
                    decreases rids@.len() - i,
                {
                    let rid = &rids[i];
                    let id = match &rid.identity {
                        Identity::Id(id) => id,
                        Identity::Lid(_) => {
                            assert(!rid_resolves(self@, rids@[i as int]));
                            return Err(Error::LidNotIndexed);
                        },
                    };
                    match self.get_by_id(rid.type_.as_str(), id.as_str()) {
                        Ok(x) => results.push(x),
                        Err(e) => {
                            assert(!rid_resolves(self@, rids@[i as int]));
                            return Err(e);
                        },
                    }
                    i += 1;
                }
                Ok(results)
            },
            RelationshipData::ToOne(_) => Err(
                Error::RelationshipCardinalityMismatch { expected: "to-many" },
            ),
        }
    }

    /// All resources stored under type `type_`, in ascending id order,
    /// skipping entries that do not read as a resource.
    pub fn get_all(&self, type_: &str) -> (r: Vec<Resource>)
        ensures
            exists|ids: Seq<Seq<char>>|
                values_in_id_order(self@, type_@, ids) && decoded_in_order(
                    ids.map_values(|id: Seq<char>| self@[(type_@, id)]),
                    r@,
                ),
    {
        let mut out: Vec<Resource> = Vec::new();
        match self.resources.get(type_) {
            Some(by_id) => {
                proof {
                    use_type_invariant(by_id);
                }
                let entries = by_id.entries();
                let ghost pairs = by_id.pairs();
                let ghost ids = by_id.keys_view();
                let ghost vals = ids.map_values(|id: Seq<char>| self@[(type_@, id)]);
                let ghost f = |v: JValue| resource_valid(v);
                proof {
                    by_id.lemma_sorted();
                    assert forall|k: int| 0 <= k < pairs.len() implies #[trigger] vals[k] == pairs[k].1@ by {
                        by_id.lemma_lookup_at(k);
                    }
                }
                let mut i: usize = 0;
                while i < entries.len()
                    invariant
                        0 <= i <= entries@.len(),
                        entries@.map_values(|e: (String, JsonValue)| (e.0@, e.1)) == pairs,
                        vals.len() == pairs.len(),
                        forall|k: int| 0 <= k < pairs.len() ==> #[trigger] vals[k] == pairs[k].1@,
                        f == (|v: JValue| resource_valid(v)),
                        decoded_in_order(vals.take(i as int), out@),
                    decreases entries@.len() - i,
                {
                    assert(pairs[i as int] == (entries@[i as int].0@, entries@[i as int].1));
                    assert(vals.take(i + 1).drop_last() =~= vals.take(i as int));
                    proof {
                        reveal_with_fuel(Seq::filter, 1);
                    }
                    let ghost before = out@;
                    match Resource::from_json(&entries[i].1) {
                        Ok(x) => {
                            out.push(x);
                            assert(vals.take(i + 1).filter(f) == vals.take(i as int).filter(f).push(
                                vals[i as int],
                            ));
                        },
                        Err(_) => {
                            assert(vals.take(i + 1).filter(f) == vals.take(i as int).filter(f));
                        },
                    }
                    i += 1;
                }
                assert(vals.take(i as int) =~= vals);
                proof {
                    assert forall|id: Seq<char>| ids.contains(id) <==> self@.contains_key((type_@, id)) by {
                        if ids.contains(id) {
                            let k = choose|k: int| 0 <= k < ids.len() && ids[k] == id;
                            assert(pairs[k].0 == id);
                        }
                        if by_id.has(id) {
                            let k = choose|k: int| 0 <= k < pairs.len() && #[trigger] pairs[k].0 == id;
                            assert(ids[k] == id);
                        }
                    }
                    assert(values_in_id_order(self@, type_@, ids));
                }
                out
            },
            None => {
                proof {
                    let ids = Seq::<Seq<char>>::empty();
                    assert(ids.map_values(|id: Seq<char>| self@[(type_@, id)]) =~= Seq::<JValue>::empty());
                    reveal_with_fuel(Seq::filter, 1);
                    assert(values_in_id_order(self@, type_@, ids));
                }
                out
            },
        }
    }

    /// Look up by explicit type and id: the resource the stored JSON reads
    /// as; [`Error::RegistryLookup`] when nothing is stored there.
    pub fn get_by_id(&self, type_: &str, id: &str) -> (r: Result<Resource>)
        ensures
            lookup_outcome(self@, type_@, id@, r),
    {
        match self.lookup(type_, id) {
            Some(value) => Resource::from_json(value),
            None => Err(Error::RegistryLookup { type_: owned(type_), id: owned(id) }),
        }
    }
}

impl<P> Document<P, Resource> {
    /// A [`Registry`] of this document's `included` resources; empty for
    /// errors and meta-only documents.
    pub fn registry(&self) -> (r: Result<Registry>)
        ensures
            r matches Ok(reg) && reg@ == match *self {
                Document::Data { included, .. } => included_entries(included@),
                _ => Map::<(Seq<char>, Seq<char>), JValue>::empty(),
            },
    {
        match self {
            Document::Data { included, .. } => Registry::from_included(included.as_slice()),
            _ => Ok(Registry::new()),
        }
    }
}

/// The `(type, id)` of a JSON value, when it is an object with string
/// `type` and `id`.
pub open spec fn type_id(v: JValue) -> Option<(Seq<char>, Seq<char>)> {
    match v {
        JValue::Object(m) => match (obj_get(m, "type"@), obj_get(m, "id"@)) {
            (Some(JValue::Str(t)), Some(JValue::Str(i))) => Some((t, i)),
            _ => None,
        },
        _ => None,
    }
}

/// `out` with the member `k` of `m` copied over, when `m` has one.
pub open spec fn hoist(out: Seq<(Seq<char>, JValue)>, m: Seq<(Seq<char>, JValue)>, k: Seq<char>) -> Seq<
    (Seq<char>, JValue),
> {
    match obj_get(m, k) {
        Some(x) => obj_set(out, k, x),
        None => out,
    }
}

/// `out` with every member of `src` set, in order.
pub open spec fn set_all(out: Seq<(Seq<char>, JValue)>, src: Seq<(Seq<char>, JValue)>) -> Seq<
    (Seq<char>, JValue),
>
    decreases src.len(),
{
    if src.len() == 0 {
        out
    } else {
        obj_set(set_all(out, src.drop_last()), src.last().0, src.last().1)
    }
}

/// A resource flattened: `type`, `id`, `lid`, then the attributes hoisted,
/// each relationship replaced by what its `data` resolves to (relationships
/// without `data` dropped), then `meta` and `links`. Values that are not
/// objects with a `type` are left as they are.
pub open spec fn resolve_value(
    reg: Map<(Seq<char>, Seq<char>), JValue>,
    v: JValue,
    anc: Seq<(Seq<char>, Seq<char>)>,
    depth: int,
    max: int,
) -> JValue
    decreases max - depth, 2int, 0int,
{
    match v {
        JValue::Object(m) => if obj_get(m, "type"@) is None {
            v
        } else {
            let f0 = hoist(hoist(hoist(Seq::empty(), m, "type"@), m, "id"@), m, "lid"@);
            let f1 = match obj_get(m, "attributes"@) {
                Some(JValue::Object(a)) => set_all(f0, a),
                _ => f0,
            };
            let f2 = match obj_get(m, "relationships"@) {
                Some(JValue::Object(rm)) => resolve_rels(reg, f1, rm, anc, depth, max),
                _ => f1,
            };
            JValue::Object(hoist(hoist(f2, m, "meta"@), m, "links"@))
        },
        _ => v,
    }
}

/// `flat` with the relationships `rm` resolved, in order: `null` data
/// stays `null`; below the maximum depth an identifier, or each identifier
/// of an array, resolves (see [`resolve_ident`]); at the maximum depth the
/// data is kept as it is.
pub open spec fn resolve_rels(
    reg: Map<(Seq<char>, Seq<char>), JValue>,
    flat: Seq<(Seq<char>, JValue)>,
    rm: Seq<(Seq<char>, JValue)>,
    anc: Seq<(Seq<char>, Seq<char>)>,
    depth: int,
    max: int,
) -> Seq<(Seq<char>, JValue)>
    decreases max - depth, 1int, rm.len(),
{
    if rm.len() == 0 {
        flat
    } else {
        let prev = resolve_rels(reg, flat, rm.drop_last(), anc, depth, max);
        let name = rm.last().0;
        let data = match rm.last().1 {
            JValue::Object(r) => obj_get(r, "data"@),
            _ => None,
        };
        match data {
            None => prev,
            Some(JValue::Null) => obj_set(prev, name, JValue::Null),
            Some(JValue::Array(arr)) => obj_set(
                prev,
                name,
                if depth < max {
                    JValue::Array(resolve_items(reg, arr, anc, depth, max))
                } else {
                    JValue::Array(arr)
                },
            ),
            Some(ident) => obj_set(
                prev,
                name,
                if depth < max {
                    resolve_ident(reg, ident, anc, depth, max)
                } else {
                    ident
                },
            ),
        }
    }
}

/// Each identifier of `items` resolved, in order.
pub open spec fn resolve_items(
    reg: Map<(Seq<char>, Seq<char>), JValue>,
    items: Seq<JValue>,
    anc: Seq<(Seq<char>, Seq<char>)>,
    depth: int,
    max: int,
) -> Seq<JValue>
    decreases max - depth, 0int, items.len(),
{
    if items.len() == 0 {
        Seq::empty()
    } else {
        resolve_items(reg, items.drop_last(), anc, depth, max).push(
            resolve_ident(reg, items.last(), anc, depth, max),
        )
    }
}

/// An identifier resolved: the stored resource it names, flattened one
/// level deeper with it among the ancestors; kept as it is when it names
/// no `(type, id)`, names an ancestor (a cycle), or names nothing stored.
pub open spec fn resolve_ident(
    reg: Map<(Seq<char>, Seq<char>), JValue>,
    ident: JValue,
    anc: Seq<(Seq<char>, Seq<char>)>,
    depth: int,
    max: int,
) -> JValue
    decreases max - depth, 0int, 0int,
{
    match type_id(ident) {
        None => ident,
        Some(k) => if anc.contains(k) || !reg.contains_key(k) || !(depth < max) {
            ident
        } else {
            resolve_value(reg, reg[k], anc.push(k), depth + 1, max)
        },
    }
}

/// The ancestors a resolution starts with: the root's own `(type, id)`.
pub open spec fn root_ancestors(v: JValue) -> Seq<(Seq<char>, Seq<char>)> {
    match type_id(v) {
        Some(k) => seq![k],
        None => Seq::empty(),
    }
}

/// The views of an ancestor stack.
pub open spec fn anc_view(a: Seq<(String, String)>) -> Seq<(Seq<char>, Seq<char>)> {
    a.map_values(|p: (String, String)| (p.0@, p.1@))
}

fn extract_type_id(value: &JsonValue) -> (r: Option<(&str, &str)>)
    ensures
        match r {
            Some(p) => type_id(value@) == Some((p.0@, p.1@)),
            None => type_id(value@) is None,
        },
{
    let obj = match value.as_object() {
        Some(o) => o,
        None => return None,
    };
    let t = match obj.get("type") {
        Some(JsonValue::String(t)) => t.as_str(),
        _ => return None,
    };
    let i = match obj.get("id") {
        Some(JsonValue::String(i)) => i.as_str(),
        _ => return None,
    };
    Some((t, i))
}

fn contains_pair(a: &Vec<(String, String)>, t: &str, id: &str) -> (b: bool)
    ensures
        b == anc_view(a@).contains((t@, id@)),
{
    let mut i: usize = 0;
    while i < a.len()
        invariant
            0 <= i <= a@.len(),
            forall|j: int| 0 <= j < i ==> #[trigger] anc_view(a@)[j] != (t@, id@),
        decreases a@.len() - i,
    {
        assert(anc_view(a@)[i as int] == (a@[i as int].0@, a@[i as int].1@));
        if str_eq(a[i].0.as_str(), t) && str_eq(a[i].1.as_str(), id) {
            assert(anc_view(a@)[i as int] == (t@, id@));
            return true;
        }
        i += 1;
    }
    false
}

/// Copies the member `k` of `m` into `out`, when `m` has one.
fn hoist_member(out: &mut JsonObject, m: &JsonObject, k: &str)
    ensures
        final(out)@ == hoist(old(out)@, m@, k@),
{
    match m.get(k) {
        Some(v) => out.insert(owned(k), copy_value(v)),
        None => {},
    }
}

impl Registry {
    /// Recursively resolve a JSON:API resource into flattened output:
    /// attributes are hoisted onto the resource object; relationships are
    /// replaced with the resolved resources they reference (to
    /// `config.max_depth` levels); relationship-level links/meta are
    /// dropped; resource-level meta/links are kept. Cycles are broken and
    /// missing resources kept, as `{type, id}` identifiers.
    pub fn resolve(&self, value: &JsonValue, config: &ResolveConfig) -> (r: JsonValue)
        ensures
            r@ == resolve_value(self@, value@, root_ancestors(value@), 0, config.max_depth as int),
    {
        let mut ancestors: Vec<(String, String)> = Vec::new();
        match extract_type_id(value) {
            Some((t, i)) => ancestors.push((owned(t), owned(i))),
            None => {},
        }
        assert(anc_view(ancestors@) =~= root_ancestors(value@));
        self.resolve_inner(value, &mut ancestors, 0, config)
    }

    fn resolve_inner(
        &self,
        value: &JsonValue,
        ancestors: &mut Vec<(String, String)>,
        depth: usize,
        config: &ResolveConfig,
    ) -> (r: JsonValue)
        requires
            depth <= config.max_depth,
        ensures
            r@ == resolve_value(
                self@,
                value@,
                anc_view(old(ancestors)@),
                depth as int,
                config.max_depth as int,
            ),
            final(ancestors)@ == old(ancestors)@,
        decreases config.max_depth - depth, 2int, 0int,
    {
        let ghost anc = anc_view(ancestors@);
        let obj = match value.as_object() {
            Some(obj) => obj,
            None => return copy_value(value),
        };
        let ghost m = obj@;
        if !obj.contains_key("type") {
            return copy_value(value);
        }
        let mut flat = JsonObject::new();
        hoist_member(&mut flat, obj, "type");
        hoist_member(&mut flat, obj, "id");
        hoist_member(&mut flat, obj, "lid");
        match obj.get("attributes") {
            Some(JsonValue::Object(attrs)) => {
                let ghost a = attrs@;
                let ghost f0 = flat@;
                proof {
                    lemma_members_view(attrs.members@);
                }
                let mut i: usize = 0;
                while i < attrs.members.len()
                    invariant
                        0 <= i <= attrs.members@.len(),
                        a == attrs@,
                        a.len() == attrs.members@.len(),
                        forall|j: int|
                            0 <= j < attrs.members@.len() ==> #[trigger] a[j] == (
                                attrs.members@[j].0@,
                                json_view(attrs.members@[j].1),
                            ),
                        flat@ == set_all(f0, a.take(i as int)),
                    decreases attrs.members@.len() - i,
                {
                    assert(a.take(i + 1).drop_last() =~= a.take(i as int));
                    assert(a[i as int] == (attrs.members@[i as int].0@, json_view(attrs.members@[i as int].1)));
                    flat.insert(attrs.members[i].0.clone(), copy_value(&attrs.members[i].1));
                    i += 1;
                }
                assert(a.take(i as int) =~= a);
            },
            _ => {},
        }
        match obj.get("relationships") {
            Some(JsonValue::Object(rels)) => {
                let ghost rm = rels@;
                let ghost f1 = flat@;
                proof {
                    lemma_members_view(rels.members@);
                }
                let mut i: usize = 0;
                while i < rels.members.len()
                    invariant
                        0 <= i <= rels.members@.len(),
                        rm == rels@,
                        rm.len() == rels.members@.len(),
                        forall|j: int|
                            0 <= j < rels.members@.len() ==> #[trigger] rm[j] == (
                                rels.members@[j].0@,
                                json_view(rels.members@[j].1),
                            ),
                        flat@ == resolve_rels(
                            self@,
                            f1,
                            rm.take(i as int),
                            anc,
                            depth as int,
                            config.max_depth as int,
                        ),
                        anc_view(ancestors@) == anc,
                        ancestors@ == old(ancestors)@,
                        depth <= config.max_depth,
                    decreases rels.members@.len() - i,
                {
                    assert(rm.take(i + 1).drop_last() =~= rm.take(i as int));
                    assert(rm[i as int] == (rels.members@[i as int].0@, json_view(rels.members@[i as int].1)));
                    let name = &rels.members[i].0;
                    let data = match rels.members[i].1.as_object() {
                        Some(r) => r.get("data"),
                        None => None,
                    };
                    match data {
                        None => {},
                        Some(JsonValue::Null) => flat.insert(name.clone(), JsonValue::Null),
                        Some(JsonValue::Array(arr)) => {
                            let resolved = if depth < config.max_depth {
                                JsonValue::Array(self.resolve_array(arr, ancestors, depth, config))
                            } else {
                                copy_value(data.unwrap())
                            };
                            flat.insert(name.clone(), resolved);
                        },
                        Some(identifier) => {
                            let resolved = if depth < config.max_depth {
                                self.resolve_identifier(identifier, ancestors, depth, config)
                            } else {
                                copy_value(identifier)
                            };
                            flat.insert(name.clone(), resolved);
                        },
                    }
                    i += 1;
                }
                assert(rm.take(i as int) =~= rm);
            },
            _ => {},
        }
        hoist_member(&mut flat, obj, "meta");
        hoist_member(&mut flat, obj, "links");
        JsonValue::Object(flat)
    }

    fn resolve_array(
        &self,
        arr: &Vec<JsonValue>,
        ancestors: &mut Vec<(String, String)>,
        depth: usize,
        config: &ResolveConfig,
    ) -> (r: Vec<JsonValue>)
        requires
            depth < config.max_depth,
        ensures
            json_view_seq(r@) == resolve_items(
                self@,
                json_view_seq(arr@),
                anc_view(old(ancestors)@),
                depth as int,
                config.max_depth as int,
            ),
            final(ancestors)@ == old(ancestors)@,
        decreases config.max_depth - depth, 1int, 0int,
    {
        proof {
            lemma_json_view_seq(arr@);
        }
        let ghost iv = json_view_seq(arr@);
        let ghost anc = anc_view(ancestors@);
        let mut items: Vec<JsonValue> = Vec::new();
        let mut i: usize = 0;
        while i < arr.len()
            invariant
                0 <= i <= arr@.len(),
                iv == json_view_seq(arr@),
                iv.len() == arr@.len(),
                forall|j: int| 0 <= j < arr@.len() ==> #[trigger] iv[j] == arr@[j]@,
                json_view_seq(items@) == resolve_items(
                    self@,
                    iv.take(i as int),
                    anc,
                    depth as int,
                    config.max_depth as int,
                ),
                ancestors@ == old(ancestors)@,
                anc == anc_view(ancestors@),
                depth < config.max_depth,
            decreases arr@.len() - i,
        {
            assert(iv.take(i + 1).drop_last() =~= iv.take(i as int));
            assert(iv[i as int] == arr@[i as int]@);
            let ghost before = items@;
            let x = self.resolve_identifier(&arr[i], ancestors, depth, config);
            items.push(x);
            assert(items@.drop_last() =~= before);
            i += 1;
        }
        assert(iv.take(i as int) =~= iv);
        items
    }

    fn resolve_identifier(
        &self,
        identifier: &JsonValue,
        ancestors: &mut Vec<(String, String)>,
        depth: usize,
        config: &ResolveConfig,
    ) -> (r: JsonValue)
        requires
            depth < config.max_depth,
        ensures
            r@ == resolve_ident(
                self@,
                identifier@,
                anc_view(old(ancestors)@),
                depth as int,
                config.max_depth as int,
            ),
            final(ancestors)@ == old(ancestors)@,
        decreases config.max_depth - depth, 0int, 0int,
    {
        let (t, id) = match extract_type_id(identifier) {
            Some(pair) => pair,
            None => return copy_value(identifier),
        };
        if contains_pair(ancestors, t, id) {
            return copy_value(identifier);
        }
        let resource = match self.lookup(t, id) {
            Some(v) => v,
            None => return copy_value(identifier),
        };
        let ghost before = ancestors@;
        ancestors.push((owned(t), owned(id)));
        assert(anc_view(ancestors@) =~= anc_view(before).push((t@, id@)));
        let resolved = self.resolve_inner(resource, ancestors, depth + 1, config);
        ancestors.pop();
        assert(ancestors@ =~= before);
        resolved
    }
}

/// Whether `r` is stored under `(t, id)`: it has that type and that `id`.
pub open spec fn keyed(r: Resource, t: Seq<char>, id: Seq<char>) -> bool {
    &&& r.type_@ == t
    &&& r.id matches Some(x) && x@ == id
}

/// What a registry built from `rs` holds under `(t, id)`: the JSON form of
/// the last resource of `rs` with that type and `id`, and nothing when
/// there is none (a resource with only a `lid` is never stored).
pub proof fn lemma_included_entry(rs: Seq<Resource>, t: Seq<char>, id: Seq<char>)
    ensures
        included_entries(rs).contains_key((t, id)) <==> exists|i: int| 0 <= i < rs.len() && keyed(#[trigger] rs[i], t, id),
        forall|i: int|
            0 <= i < rs.len() && keyed(#[trigger] rs[i], t, id) && (forall|j: int|
                i < j < rs.len() ==> !keyed(#[trigger] rs[j], t, id)) ==> included_entries(rs)[(t, id)]
                == resource_json(rs[i]),
    decreases rs.len(),
{
    if rs.len() > 0 {
        let d = rs.drop_last();
        lemma_included_entry(d, t, id);
        let last = rs.last();
        if keyed(last, t, id) {
            assert(keyed(rs[rs.len() - 1], t, id));
            assert forall|i: int|
                0 <= i < rs.len() && keyed(#[trigger] rs[i], t, id) && (forall|j: int|
                    i < j < rs.len() ==> !keyed(#[trigger] rs[j], t, id)) implies included_entries(rs)[(t, id)]
                == resource_json(rs[i]) by {
                if i < rs.len() - 1 {
                    assert(keyed(rs[rs.len() - 1], t, id));
                }
            }
        } else {
            assert forall|i: int| 0 <= i < d.len() implies #[trigger] d[i] == rs[i] by {}
            if exists|i: int| 0 <= i < rs.len() && keyed(#[trigger] rs[i], t, id) {
                let w = choose|i: int| 0 <= i < rs.len() && keyed(#[trigger] rs[i], t, id);
                assert(w < rs.len() - 1);
                assert(keyed(d[w], t, id));
            }
            assert forall|i: int|
                0 <= i < rs.len() && keyed(#[trigger] rs[i], t, id) && (forall|j: int|
                    i < j < rs.len() ==> !keyed(#[trigger] rs[j], t, id)) implies included_entries(rs)[(t, id)]
                == resource_json(rs[i]) by {
                assert(i < rs.len() - 1);
                assert(keyed(d[i], t, id));
                assert forall|j: int| i < j < d.len() implies !keyed(#[trigger] d[j], t, id) by {
                    assert(d[j] == rs[j]);
                }
            }
        }
    }
}

/// A lookup in the registry of a document's included resources gives back
/// what was included: the last well-formed resource with the asked type
/// and `id` is a result that [`Registry::get_by_id`] may return, and any
/// result it returns reads from that resource's JSON form; when no
/// included resource has that type and `id`, the lookup fails with
/// [`Error::RegistryLookup`].
pub proof fn lemma_registry_read_after_write(rs: Seq<Resource>, t: Seq<char>, id: Seq<char>)
    ensures
        forall|i: int|
            0 <= i < rs.len() && keyed(#[trigger] rs[i], t, id) && resource_wf(rs[i]) && (forall|j: int|
                i < j < rs.len() ==> !keyed(#[trigger] rs[j], t, id)) ==> {
                &&& lookup_outcome(included_entries(rs), t, id, Ok(rs[i]))
                &&& forall|r: Result<Resource>| #[trigger]
                    lookup_outcome(included_entries(rs), t, id, r) ==> (r matches Ok(x) && resource_decodes(
                        resource_json(rs[i]),
                        x,
                    ))
            },
        (forall|i: int| 0 <= i < rs.len() ==> !keyed(#[trigger] rs[i], t, id)) ==> forall|
            r: Result<Resource>,
        | #[trigger] lookup_outcome(included_entries(rs), t, id, r) ==> (r matches Err(e) && is_lookup_error(e, t, id)),
{
    lemma_included_entry(rs, t, id);
    assert forall|i: int|
        0 <= i < rs.len() && keyed(#[trigger] rs[i], t, id) && resource_wf(rs[i]) && (forall|j: int|
            i < j < rs.len() ==> !keyed(#[trigger] rs[j], t, id)) implies {
        &&& lookup_outcome(included_entries(rs), t, id, Ok(rs[i]))
        &&& forall|r: Result<Resource>| #[trigger]
            lookup_outcome(included_entries(rs), t, id, r) ==> (r matches Ok(x) && resource_decodes(
                resource_json(rs[i]),
                x,
            ))
    } by {
        lemma_resource_round_trip(rs[i]);
    }
}

/// What a relationship member gives in the flattened output: nothing
/// without `data`; `null` for `null`; below the maximum depth an array of
/// identifiers resolved one by one, or one identifier resolved; at the
/// maximum depth the data as it is.
pub open spec fn rel_output(
    reg: Map<(Seq<char>, Seq<char>), JValue>,
    rel: JValue,
    anc: Seq<(Seq<char>, Seq<char>)>,
    depth: int,
    max: int,
) -> Option<JValue> {
    let data = match rel {
        JValue::Object(r) => obj_get(r, "data"@),
        _ => None,
    };
    match data {
        None => None,
        Some(JValue::Null) => Some(JValue::Null),
        Some(JValue::Array(arr)) => Some(
            if depth < max {
                JValue::Array(resolve_items(reg, arr, anc, depth, max))
            } else {
                JValue::Array(arr)
            },
        ),
        Some(ident) => Some(
            if depth < max {
                resolve_ident(reg, ident, anc, depth, max)
            } else {
                ident
            },
        ),
    }
}

/// Whether the members of an object have distinct names.
pub open spec fn distinct_names(m: Seq<(Seq<char>, JValue)>) -> bool {
    forall|i: int, j: int| 0 <= i < j < m.len() ==> #[trigger] m[i].0 != #[trigger] m[j].0
}

/// The member `k` of a flattened resource `m`: the resource's own `links`
/// or `meta`; else what its relationship `k` gives (see [`rel_output`]);
/// else its attribute `k`; else its own `type`, `id` or `lid`.
pub open spec fn flat_member(
    reg: Map<(Seq<char>, Seq<char>), JValue>,
    m: Seq<(Seq<char>, JValue)>,
    anc: Seq<(Seq<char>, Seq<char>)>,
    depth: int,
    max: int,
    k: Seq<char>,
) -> Option<JValue> {
    let rel = match obj_get(m, "relationships"@) {
        Some(JValue::Object(rm)) => match obj_get(rm, k) {
            Some(r) => rel_output(reg, r, anc, depth, max),
            None => None,
        },
        _ => None,
    };
    let attr = match obj_get(m, "attributes"@) {
        Some(JValue::Object(a)) => obj_get(a, k),
        _ => None,
    };
    if (k == "links"@ || k == "meta"@) && obj_get(m, k) is Some {
        obj_get(m, k)
    } else if rel is Some {
        rel
    } else if attr is Some {
        attr
    } else if k == "type"@ || k == "id"@ || k == "lid"@ {
        obj_get(m, k)
    } else {
        None
    }
}

/// Reading a member after hoisting one.
proof fn lemma_hoist_get(
    out: Seq<(Seq<char>, JValue)>,
    m: Seq<(Seq<char>, JValue)>,
    k: Seq<char>,
    k2: Seq<char>,
)
    ensures
        obj_get(hoist(out, m, k), k2) == if k2 == k && obj_get(m, k) is Some {
            obj_get(m, k)
        } else {
            obj_get(out, k2)
        },
{
    if let Some(x) = obj_get(m, k) {
        lemma_obj_get_set(out, k, x, k2);
    }
}

/// Reading a member after setting all members of `src`: the last of `src`
/// with that name, else what `out` had.
proof fn lemma_set_all_get(out: Seq<(Seq<char>, JValue)>, src: Seq<(Seq<char>, JValue)>, k: Seq<char>)
    ensures
        obj_get(set_all(out, src), k) == if obj_get(src, k) is Some {
            obj_get(src, k)
        } else {
            obj_get(out, k)
        },
    decreases src.len(),
{
    if src.len() > 0 {
        let d = src.drop_last();
        lemma_set_all_get(out, d, k);
        lemma_obj_get_set(set_all(out, d), src.last().0, src.last().1, k);
        assert(d.push(src.last()) =~= src);
        lemma_obj_get_push(d, src.last(), k);
    }
}

/// Reading a member after resolving the relationships `rm` (distinct
/// names): what relationship `k` gives, else what `flat` had.
proof fn lemma_resolve_rels_get(
    reg: Map<(Seq<char>, Seq<char>), JValue>,
    flat: Seq<(Seq<char>, JValue)>,
    rm: Seq<(Seq<char>, JValue)>,
    anc: Seq<(Seq<char>, Seq<char>)>,
    depth: int,
    max: int,
    k: Seq<char>,
)
    requires
        distinct_names(rm),
    ensures
        obj_get(resolve_rels(reg, flat, rm, anc, depth, max), k) == match obj_get(rm, k) {
            Some(r) => match rel_output(reg, r, anc, depth, max) {
                Some(x) => Some(x),
                None => obj_get(flat, k),
            },
            None => obj_get(flat, k),
        },
    decreases rm.len(),
{
    if rm.len() > 0 {
        let d = rm.drop_last();
        let last = rm.last();
        assert(distinct_names(d)) by {
            assert forall|i: int, j: int| 0 <= i < j < d.len() implies #[trigger] d[i].0 != #[trigger] d[j].0 by {
                assert(d[i] == rm[i] && d[j] == rm[j]);
            }
        }
        lemma_resolve_rels_get(reg, flat, d, anc, depth, max, k);
        let prev = resolve_rels(reg, flat, d, anc, depth, max);
        assert(resolve_rels(reg, flat, rm, anc, depth, max) == match rel_output(
            reg,
            last.1,
            anc,
            depth,
            max,
        ) {
            Some(x) => obj_set(prev, last.0, x),
            None => prev,
        });
        if let Some(x) = rel_output(reg, last.1, anc, depth, max) {
            lemma_obj_get_set(prev, last.0, x, k);
        }
        assert(d.push(last) =~= rm);
        lemma_obj_get_push(d, last, k);
        if last.0 == k {
            lemma_obj_index(d, k);
            let i = obj_index(d, k);
            if i >= 0 {
                assert(rm[i] == d[i]);
                assert(rm[rm.len() - 1] == last);
            }
            assert(obj_get(d, k) is None);
        }
    }
}

/// Resolving flattens a resource: a value that is not an object with a
/// `type` is kept as it is; an object with a `type` (whose relationships
/// have distinct names) becomes an object whose members are, name by
/// name, those of [`flat_member`]: the resource's own `links` and `meta`,
/// each relationship with `data` replaced by what it resolves to (`null`
/// stays `null`; each identifier is replaced by its stored resource
/// resolved one level deeper, or kept as it is when it names nothing
/// stored, names an ancestor, or the maximum depth is reached; see
/// [`resolve_ident`]), its attributes, and its `type`, `id` and `lid`;
/// relationship-level `links` and `meta` are dropped.
pub proof fn lemma_resolve_flattens(
    reg: Map<(Seq<char>, Seq<char>), JValue>,
    v: JValue,
    anc: Seq<(Seq<char>, Seq<char>)>,
    depth: int,
    max: int,
)
    requires
        v matches JValue::Object(m) ==> match obj_get(m, "relationships"@) {
            Some(JValue::Object(rm)) => distinct_names(rm),
            _ => true,
        },
    ensures
        !(v matches JValue::Object(m) && obj_get(m, "type"@) is Some) ==> resolve_value(
            reg,
            v,
            anc,
            depth,
            max,
        ) == v,
        v is Object && obj_get(v->Object_0, "type"@) is Some ==> resolve_value(
            reg,
            v,
            anc,
            depth,
            max,
        ) is Object,
        v is Object && obj_get(v->Object_0, "type"@) is Some ==> forall|k: Seq<char>|
            #[trigger] obj_get(resolve_value(reg, v, anc, depth, max)->Object_0, k) == flat_member(
                reg,
                v->Object_0,
                anc,
                depth,
                max,
                k,
            ),
{
    if let JValue::Object(m) = v {
        if obj_get(m, "type"@) is Some {
            reveal_strlit("links");
            reveal_strlit("meta");
            reveal_strlit("type");
            reveal_strlit("id");
            reveal_strlit("lid");
            assert("links"@[0] != "meta"@[0]);
            assert("type"@.len() != "id"@.len());
            assert("type"@.len() != "lid"@.len());
            assert("id"@.len() != "lid"@.len());
            let f0 = hoist(hoist(hoist(Seq::empty(), m, "type"@), m, "id"@), m, "lid"@);
            let f1 = match obj_get(m, "attributes"@) {
                Some(JValue::Object(a)) => set_all(f0, a),
                _ => f0,
            };
            let f2 = match obj_get(m, "relationships"@) {
                Some(JValue::Object(rm)) => resolve_rels(reg, f1, rm, anc, depth, max),
                _ => f1,
            };
            let f = hoist(hoist(f2, m, "meta"@), m, "links"@);
            assert forall|k: Seq<char>| #[trigger] obj_get(f, k) == flat_member(reg, m, anc, depth, max, k) by {
                lemma_hoist_get(Seq::empty(), m, "type"@, k);
                lemma_hoist_get(hoist(Seq::empty(), m, "type"@), m, "id"@, k);
                lemma_hoist_get(hoist(hoist(Seq::empty(), m, "type"@), m, "id"@), m, "lid"@, k);
                lemma_obj_index(Seq::<(Seq<char>, JValue)>::empty(), k);
                if let Some(JValue::Object(a)) = obj_get(m, "attributes"@) {
                    lemma_set_all_get(f0, a, k);
                }
                if let Some(JValue::Object(rm)) = obj_get(m, "relationships"@) {
                    lemma_resolve_rels_get(reg, f1, rm, anc, depth, max, k);
                }
                lemma_hoist_get(f2, m, "meta"@, k);
                lemma_hoist_get(hoist(f2, m, "meta"@), m, "links"@, k);
            }
        }
    }
}

/// Identifiers resolved one by one: as many results as identifiers, each
/// the resolution of its own identifier.
proof fn lemma_resolve_items_index(
    reg: Map<(Seq<char>, Seq<char>), JValue>,
    items: Seq<JValue>,
    anc: Seq<(Seq<char>, Seq<char>)>,
    depth: int,
    max: int,
)
    ensures
        resolve_items(reg, items, anc, depth, max).len() == items.len(),
        forall|i: int|
            0 <= i < items.len() ==> #[trigger] resolve_items(reg, items, anc, depth, max)[i]
                == resolve_ident(reg, items[i], anc, depth, max),
    decreases items.len(),
{
    if items.len() > 0 {
        let d = items.drop_last();
        lemma_resolve_items_index(reg, d, anc, depth, max);
        assert forall|i: int| 0 <= i < items.len() implies #[trigger] resolve_items(
            reg,
            items,
            anc,
            depth,
            max,
        )[i] == resolve_ident(reg, items[i], anc, depth, max) by {
            if i < d.len() {
                assert(items[i] == d[i]);
            }
        }
    }
}

/// Cycles are cut at every ancestor, not only the root: when an
/// identifier naming `k` is resolved into the stored resource `k`, any
/// relationship of that resource whose data names `k` itself or a resource
/// further up the resolution path is left as the bare identifier (to-one),
/// or keeps those identifiers bare (to-many). So no resolved resource
/// holds itself, or one of its ancestors, nested inside.
pub proof fn lemma_resolve_cuts_cycles(
    reg: Map<(Seq<char>, Seq<char>), JValue>,
    ident: JValue,
    anc: Seq<(Seq<char>, Seq<char>)>,
    depth: int,
    max: int,
    r: Seq<char>,
)
    requires
        type_id(ident) is Some,
        !anc.contains(type_id(ident)->0),
        reg.contains_key(type_id(ident)->0),
        depth < max,
        reg[type_id(ident)->0] is Object,
        obj_get(reg[type_id(ident)->0]->Object_0, "type"@) is Some,
        match obj_get(reg[type_id(ident)->0]->Object_0, "relationships"@) {
            Some(JValue::Object(rm)) => distinct_names(rm) && match obj_get(rm, r) {
                Some(JValue::Object(rel)) => obj_get(rel, "data"@) is Some,
                _ => false,
            },
            _ => false,
        },
        r != "links"@,
        r != "meta"@,
    ensures
        ({
            let k = type_id(ident)->0;
            let m = reg[k]->Object_0;
            let rm = obj_get(m, "relationships"@)->Some_0->Object_0;
            let d = obj_get(obj_get(rm, r)->Some_0->Object_0, "data"@)->Some_0;
            let out = resolve_ident(reg, ident, anc, depth, max);
            &&& out is Object
            &&& (type_id(d) matches Some(k2) && (k2 == k || anc.contains(k2)) ==> obj_get(
                out->Object_0,
                r,
            ) == Some(d))
            &&& (d matches JValue::Array(items) ==> obj_get(out->Object_0, r) matches Some(
                JValue::Array(xs),
            ) && xs.len() == items.len() && forall|i: int|
                0 <= i < items.len() && (type_id(items[i]) matches Some(k2) && (k2 == k
                    || anc.contains(k2))) ==> #[trigger] xs[i] == items[i])
        }),
{
    let k = type_id(ident)->0;
    let m = reg[k]->Object_0;
    let a2 = anc.push(k);
    assert(resolve_ident(reg, ident, anc, depth, max) == resolve_value(reg, reg[k], a2, depth + 1, max));
    assert(reg[k] == JValue::Object(m));
    lemma_resolve_flattens(reg, reg[k], a2, depth + 1, max);
    let rm = obj_get(m, "relationships"@)->Some_0->Object_0;
    let rel = obj_get(rm, r)->Some_0;
    let d = obj_get(rel->Object_0, "data"@)->Some_0;
    let out = resolve_ident(reg, ident, anc, depth, max);
    assert(obj_get(out->Object_0, r) == flat_member(reg, m, a2, depth + 1, max, r));
    assert(flat_member(reg, m, a2, depth + 1, max, r) == rel_output(reg, rel, a2, depth + 1, max));
    assert forall|k2: (Seq<char>, Seq<char>)| (k2 == k || anc.contains(k2)) implies a2.contains(k2) by {
        if k2 == k {
            assert(a2[anc.len() as int] == k);
        } else {
            let j = choose|j: int| 0 <= j < anc.len() && anc[j] == k2;
            assert(a2[j] == k2);
        }
    }
    if let JValue::Array(items) = d {
        lemma_resolve_items_index(reg, items, a2, depth + 1, max);
    }
}

} // verus!
