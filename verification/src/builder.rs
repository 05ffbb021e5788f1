//! Fluent builder for JSON:API response documents.
use crate::json::Meta;
use crate::model::document::{Document, PrimaryData};
use crate::model::jsonapi_object::{opt_strs, JsonApiObject};
use crate::model::link::{Link, Links};
use crate::model::resource::{Resource, ResourceObject};
use crate::text::{owned, str_eq};
use vstd::prelude::*;

verus! {

/// The `(type, id)` key of a resource, when it has an `id`.
pub open spec fn key_of<T: ResourceObject>(r: T) -> Option<(Seq<char>, Seq<char>)> {
    match r.id_view() {
        Some(id) => Some((r.type_view(), id)),
        None => None,
    }
}

/// The keys of the primary resources that have an `id`.
pub open spec fn primary_keys<T: ResourceObject>(d: PrimaryData<T>) -> Set<(Seq<char>, Seq<char>)> {
    match d {
        PrimaryData::Null => Set::empty(),
        PrimaryData::Single(b) => match key_of(*b) {
            Some(k) => set![k],
            None => Set::empty(),
        },
        PrimaryData::Many(v) => Set::new(
            |k: (Seq<char>, Seq<char>)| exists|i: int| 0 <= i < v@.len() && key_of(#[trigger] v@[i]) == Some(k),
        ),
    }
}

/// The included resources kept, in order, and the keys seen: a resource
/// without an `id` is always kept; one whose key is a primary key or was
/// seen before is dropped.
pub open spec fn dedup<T: ResourceObject>(included: Seq<T>, primary: Set<(Seq<char>, Seq<char>)>) -> (
    Seq<T>,
    Set<(Seq<char>, Seq<char>)>,
)
    decreases included.len(),
{
    if included.len() == 0 {
        (Seq::empty(), Set::empty())
    } else {
        let prev = dedup(included.drop_last(), primary);
        let r = included.last();
        match key_of(r) {
            None => (prev.0.push(r), prev.1),
            Some(k) => if primary.contains(k) || prev.1.contains(k) {
                prev
            } else {
                (prev.0.push(r), prev.1.insert(k))
            },
        }
    }
}

/// The mathematical value of a [`DocumentBuilder`].
pub struct BuilderView<P, I> {
    /// The primary data.
    pub data: PrimaryData<P>,
    /// The resources to include, in order, duplicates and all.
    pub included: Seq<I>,
    /// Top-level meta.
    pub meta: Option<Meta>,
    /// The `jsonapi` member.
    pub jsonapi: Option<JsonApiObject>,
    /// Top-level links.
    pub links: Option<Links>,
}

/// Fluent builder for a data [`Document`].
pub struct DocumentBuilder<P, I = Resource> {
    data: PrimaryData<P>,
    included: Vec<I>,
    meta: Option<Meta>,
    jsonapi: Option<JsonApiObject>,
    links: Option<Links>,
}

impl<P, I> View for DocumentBuilder<P, I> {
    type V = BuilderView<P, I>;

    closed spec fn view(&self) -> BuilderView<P, I> {
        BuilderView {
            data: self.data,
            included: self.included@,
            meta: self.meta,
            jsonapi: self.jsonapi,
            links: self.links,
        }
    }
}

/// One of the URI lists of a `jsonapi` member: profiles or extensions.
pub open spec fn uri_list(j: Option<JsonApiObject>, profile: bool) -> Option<Seq<Seq<char>>> {
    match j {
        Some(x) => opt_strs(
            if profile {
                x.profile
            } else {
                x.ext
            },
        ),
        None => None,
    }
}

/// The `jsonapi` member after adding `uri` to one of its URI lists: an
/// absent member or list counts as empty; the rest is kept.
pub open spec fn with_uri(
    j: Option<JsonApiObject>,
    uri: Seq<char>,
    profile: bool,
    r: Option<JsonApiObject>,
) -> bool {
    &&& r is Some
    &&& uri_list(r, profile) == Some(
        match uri_list(j, profile) {
            Some(s) => s,
            None => Seq::empty(),
        }.push(uri),
    )
    &&& uri_list(r, !profile) == uri_list(j, !profile)
    &&& r->0.version == match j {
        Some(x) => x.version,
        None => None,
    }
    &&& r->0.meta == match j {
        Some(x) => x.meta,
        None => None,
    }
}

impl<P: ResourceObject, I: ResourceObject> DocumentBuilder<P, I> {
    /// A builder with null primary data and nothing else.
    pub fn new() -> (r: Self)
        ensures
            r@.data is Null,
            r@.included.len() == 0,
            r@.meta is None,
            r@.jsonapi is None,
            r@.links is None,
    {
        DocumentBuilder {
            data: PrimaryData::Null,
            included: Vec::new(),
            meta: None,
            jsonapi: None,
            links: None,
        }
    }

    /// Set a single primary resource.
    pub fn data(self, primary: P) -> (r: Self)
        ensures
            r@ == (BuilderView { data: PrimaryData::Single(Box::new(primary)), ..self@ }),
    {
        let mut s = self;
        s.data = PrimaryData::Single(Box::new(primary));
        s
    }

    /// Set a collection of primary resources.
    pub fn many(self, primary: Vec<P>) -> (r: Self)
        ensures
            r@ == (BuilderView { data: PrimaryData::Many(primary), ..self@ }),
    {
        let mut s = self;
        s.data = PrimaryData::Many(primary);
        s
    }

    /// Set null primary data.
    pub fn no_data(self) -> (r: Self)
        ensures
            r@ == (BuilderView { data: PrimaryData::<P>::Null, ..self@ }),
    {
        let mut s = self;
        s.data = PrimaryData::Null;
        s
    }

    /// Add a resource to include (duplicates are dropped at build time).
    pub fn include_resource(self, resource: I) -> (r: Self)
        ensures
            r@ == (BuilderView { included: self@.included.push(resource), ..self@ }),
    {
        let mut s = self;
        s.included.push(resource);
        s
    }

    /// Add resources to include, in order.
    pub fn include_many(self, resources: Vec<I>) -> (r: Self)
        ensures
            r@ == (BuilderView { included: self@.included + resources@, ..self@ }),
    {
        let mut s = self;
        let mut more = resources;
        s.included.append(&mut more);
        s
    }

    /// Add one top-level link (creating the links map if needed).
    pub fn link(self, rel: &str, link: Link) -> (r: Self)
        ensures
            r@.data == self@.data,
            r@.included == self@.included,
            r@.meta == self@.meta,
            r@.jsonapi == self@.jsonapi,
            r@.links matches Some(l) && l.0.lookup(rel@) == Some(Some(link)) && forall|k: Seq<char>|
                k != rel@ ==> #[trigger] l.0.lookup(k) == match self@.links {
                    Some(o) => o.0.lookup(k),
                    None => None,
                },
    {
        let mut s = self;
        let mut links = match s.links {
            Some(l) => l,
            None => Links::new(),
        };
        links.insert(rel, Some(link));
        s.links = Some(links);
        s
    }

    /// Set the top-level links, replacing any added before.
    pub fn links(self, links: Links) -> (r: Self)
        ensures
            r@ == (BuilderView { links: Some(links), ..self@ }),
    {
        let mut s = self;
        s.links = Some(links);
        s
    }

    /// Set the top-level meta.
    pub fn meta(self, meta: Meta) -> (r: Self)
        ensures
            r@ == (BuilderView { meta: Some(meta), ..self@ }),
    {
        let mut s = self;
        s.meta = Some(meta);
        s
    }

    /// Set the `jsonapi` member.
    pub fn jsonapi(self, obj: JsonApiObject) -> (r: Self)
        ensures
            r@ == (BuilderView { jsonapi: Some(obj), ..self@ }),
    {
        let mut s = self;
        s.jsonapi = Some(obj);
        s
    }

    fn add_uri(self, uri: &str, profile: bool) -> (r: Self)
        ensures
            r@.data == self@.data,
            r@.included == self@.included,
            r@.meta == self@.meta,
            r@.links == self@.links,
            with_uri(self@.jsonapi, uri@, profile, r@.jsonapi),
    {
        let ghost j0 = self@.jsonapi;
        let mut s = self;
        let mut j = match s.jsonapi {
            Some(j) => j,
            None => JsonApiObject::default(),
        };
        let ghost j1 = j;
        assert(uri_list(Some(j1), profile) == uri_list(j0, profile));
        assert(uri_list(Some(j1), !profile) == uri_list(j0, !profile));
        let mut taken: Option<Vec<String>> = None;
        if profile {
            std::mem::swap(&mut taken, &mut j.profile);
        } else {
            std::mem::swap(&mut taken, &mut j.ext);
        }
        let list = taken;
        let mut list = match list {
            Some(v) => v,
            None => Vec::new(),
        };
        let ghost before = list@;
        list.push(owned(uri));
        assert(list@.map_values(|x: String| x@) =~= before.map_values(|x: String| x@).push(uri@));
        assert(opt_strs(Some(list)) == Some(
            match uri_list(j0, profile) {
                Some(x) => x,
                None => Seq::empty(),
            }.push(uri@),
        ));
        if profile {
            j.profile = Some(list);
        } else {
            j.ext = Some(list);
        }
        assert(uri_list(Some(j), !profile) == uri_list(j0, !profile));
        s.jsonapi = Some(j);
        s
    }

    /// Add a profile URI to the `jsonapi` member (creating it if needed).
    pub fn profile(self, uri: &str) -> (r: Self)
        ensures
            r@.data == self@.data,
            r@.included == self@.included,
            r@.meta == self@.meta,
            r@.links == self@.links,
            with_uri(self@.jsonapi, uri@, true, r@.jsonapi),
    {
        self.add_uri(uri, true)
    }

    /// Add an extension URI to the `jsonapi` member (creating it if needed).
    pub fn ext(self, uri: &str) -> (r: Self)
        ensures
            r@.data == self@.data,
            r@.included == self@.included,
            r@.meta == self@.meta,
            r@.links == self@.links,
            with_uri(self@.jsonapi, uri@, false, r@.jsonapi),
    {
        self.add_uri(uri, false)
    }

    /// Build the document: the included resources are deduplicated by
    /// `(type, id)` — one equal to a primary resource, or to an earlier
    /// included one, is dropped; resources without an `id` are kept.
    pub fn build(self) -> (r: Document<P, I>)
        ensures
            r matches Document::Data { data, included, meta, jsonapi, links } && data == self@.data
                && included@ == dedup(self@.included, primary_keys(self@.data)).0 && meta
                == self@.meta && jsonapi == self@.jsonapi && links == self@.links,
    {
        let ghost view = self@;
        let mut primary: Vec<(String, String)> = Vec::new();
        match &self.data {
            PrimaryData::Single(p) => {
                match p.resource_id() {
                    Some(id) => {
                        primary.push((owned(p.resource_type()), owned(id)));
                        let ghost k = key_of(**p).unwrap();
                        assert(keys_view(primary@) =~= seq![k]);
                        assert forall|a: (Seq<char>, Seq<char>)| #[trigger] keys_view(primary@).to_set().contains(a)
                            == set![k].contains(a) by {
                            lemma_push_contains(Seq::<(Seq<char>, Seq<char>)>::empty(), k, a);
                            assert(seq![k] =~= Seq::<(Seq<char>, Seq<char>)>::empty().push(k));
                        }
                    },
                    None => {},
                }
                assert(keys_view(primary@).to_set() =~= primary_keys(self.data));
            },
            PrimaryData::Many(ps) => {
                let mut i: usize = 0;
                while i < ps.len()
                    invariant
                        0 <= i <= ps@.len(),
                        forall|k: (Seq<char>, Seq<char>)|
                            keys_view(primary@).contains(k) <==> exists|j: int|
                                0 <= j < i && key_of(#[trigger] ps@[j]) == Some(k),
                    decreases ps@.len() - i,
                {
                    let ghost before = keys_view(primary@);
                    match ps[i].resource_id() {
                        Some(id) => {
                            primary.push((owned(ps[i].resource_type()), owned(id)));
                            assert(keys_view(primary@) =~= before.push(key_of(ps@[i as int]).unwrap()));
                        },
                        None => {
                            assert(keys_view(primary@) =~= before);
                        },
                    }
                    assert forall|k: (Seq<char>, Seq<char>)|
                        keys_view(primary@).contains(k) <==> exists|j: int|
                            0 <= j < i + 1 && key_of(#[trigger] ps@[j]) == Some(k) by {
                        if let Some(x) = key_of(ps@[i as int]) {
                            lemma_push_contains(before, x, k);
                        }
                        if exists|j: int| 0 <= j < i + 1 && key_of(#[trigger] ps@[j]) == Some(k) {
                            let j = choose|j: int| 0 <= j < i + 1 && key_of(#[trigger] ps@[j]) == Some(k);
                            if j < i {
                                assert(before.contains(k));
                            }
                        }
                        if before.contains(k) {
                            let j = choose|j: int| 0 <= j < i && key_of(#[trigger] ps@[j]) == Some(k);
                            assert(0 <= j < i + 1 && key_of(ps@[j]) == Some(k));
                        }
                    }
                    i += 1;
                }
                assert forall|a: (Seq<char>, Seq<char>)| #[trigger] keys_view(primary@).to_set().contains(a)
                    == primary_keys(self.data).contains(a) by {
                    if keys_view(primary@).contains(a) {
                        let j = choose|j: int| 0 <= j < ps@.len() && key_of(#[trigger] ps@[j]) == Some(a);
                        assert(key_of(ps@[j]) == Some(a));
                    }
                }
                assert(keys_view(primary@).to_set() =~= primary_keys(self.data));
            },
            PrimaryData::Null => {
                assert(keys_view(primary@).to_set() =~= primary_keys(self.data));
            },
        }
        let ghost pk = primary_keys(view.data);
        let DocumentBuilder { data, included: items, meta, jsonapi, links } = self;
        let mut seen: Vec<(String, String)> = Vec::new();
        let mut included: Vec<I> = Vec::new();
        let mut rest = items;
        let ghost all = rest@;
        let ghost mut n: int = 0;
        assert(rest@ =~= all.subrange(0, all.len() as int));
        while rest.len() > 0
            invariant
                0 <= n <= all.len(),
                rest@ == all.subrange(n, all.len() as int),
                included@ == dedup(all.take(n), pk).0,
                keys_view(seen@).to_set() == dedup(all.take(n), pk).1,
                keys_view(primary@).to_set() == pk,
            decreases rest@.len(),
        {
            let r = rest.remove(0);
            proof {
                assert(r == all[n]);
                assert(all.take(n + 1).drop_last() =~= all.take(n));
                assert(all.take(n + 1).last() == all[n]);
                assert(rest@ =~= all.subrange(n + 1, all.len() as int));
            }
            match r.resource_id() {
                Some(id) => {
                    let in_primary = contains_key_pair(&primary, r.resource_type(), id);
                    let in_seen = contains_key_pair(&seen, r.resource_type(), id);
                    if !in_primary && !in_seen {
                        let ghost before = keys_view(seen@);
                        seen.push((owned(r.resource_type()), owned(id)));
                        assert(keys_view(seen@) =~= before.push(key_of(r).unwrap()));
                        assert forall|a: (Seq<char>, Seq<char>)| #[trigger] keys_view(seen@).to_set().contains(a)
                            == before.to_set().insert(key_of(r).unwrap()).contains(a) by {
                            lemma_push_contains(before, key_of(r).unwrap(), a);
                        }
                        assert(keys_view(seen@).to_set() =~= before.to_set().insert(key_of(r).unwrap()));
                        included.push(r);
                    }
                },
                None => {
                    included.push(r);
                },
            }
            proof {
                n = n + 1;
            }
        }
        assert(all.take(n) =~= all);
        Document::Data { data, included, meta, jsonapi, links }
    }
}

/// What a sequence with one more element contains.
pub(crate) proof fn lemma_push_contains<A>(s: Seq<A>, x: A, a: A)
    ensures
        s.push(x).contains(a) == (s.contains(a) || a == x),
{
    if s.contains(a) {
        let i = choose|i: int| 0 <= i < s.len() && s[i] == a;
        assert(s.push(x)[i] == s[i]);
    }
    if a == x {
        assert(s.push(x)[s.len() as int] == x);
    }
    if s.push(x).contains(a) {
        let i = choose|i: int| 0 <= i < s.len() + 1 && s.push(x)[i] == a;
        if i < s.len() {
            assert(s[i] == s.push(x)[i]);
        }
    }
}

/// The views of a list of `(type, id)` keys.
pub open spec fn keys_view(keys: Seq<(String, String)>) -> Seq<(Seq<char>, Seq<char>)> {
    keys.map_values(|p: (String, String)| (p.0@, p.1@))
}

fn contains_key_pair(keys: &Vec<(String, String)>, t: &str, id: &str) -> (b: bool)
    ensures
        b == keys_view(keys@).contains((t@, id@)),
{
    let mut i: usize = 0;
    while i < keys.len()
        invariant
            0 <= i <= keys@.len(),
            forall|j: int| 0 <= j < i ==> #[trigger] keys_view(keys@)[j] != (t@, id@),
        decreases keys@.len() - i,
    {
        assert(keys_view(keys@)[i as int] == (keys@[i as int].0@, keys@[i as int].1@));
        if str_eq(keys[i].0.as_str(), t) && str_eq(keys[i].1.as_str(), id) {
            assert(keys_view(keys@)[i as int] == (t@, id@));
            return true;
        }
        i += 1;
    }
    false
}

impl<P: ResourceObject, I: ResourceObject> Default for DocumentBuilder<P, I> {
    /// An empty builder, as [`DocumentBuilder::new`].
    fn default() -> (r: Self)
        ensures
            r@.data is Null,
            r@.included.len() == 0,
            r@.meta is None,
            r@.jsonapi is None,
            r@.links is None,
    {
        DocumentBuilder::new()
    }
}

impl<P: ResourceObject> DocumentBuilder<P, Resource> {
    /// A builder for a single-resource document.
    pub fn single(primary: P) -> (r: Self)
        ensures
            r@.data == PrimaryData::Single(Box::new(primary)),
            r@.included.len() == 0,
            r@.meta is None,
            r@.jsonapi is None,
            r@.links is None,
    {
        DocumentBuilder::new().data(primary)
    }

    /// A builder for a collection document.
    pub fn collection(primary: Vec<P>) -> (r: Self)
        ensures
            r@.data == PrimaryData::Many(primary),
            r@.included.len() == 0,
            r@.meta is None,
            r@.jsonapi is None,
            r@.links is None,
    {
        DocumentBuilder::new().many(primary)
    }
}

/// What building keeps of the included resources: no two kept resources
/// share a `(type, id)`, none shares one with a primary resource, and every
/// included key that is not a primary key is the key of a kept resource.
pub proof fn lemma_dedup<T: ResourceObject>(included: Seq<T>, primary: Set<(Seq<char>, Seq<char>)>)
    ensures
        forall|i: int, j: int|
            0 <= i < j < dedup(included, primary).0.len() && key_of(
                #[trigger] dedup(included, primary).0[i],
            ) is Some ==> key_of(dedup(included, primary).0[i]) != key_of(
                #[trigger] dedup(included, primary).0[j],
            ),
        forall|i: int|
            0 <= i < dedup(included, primary).0.len() ==> (key_of(
                #[trigger] dedup(included, primary).0[i],
            ) matches Some(k) ==> !primary.contains(k)),
        forall|i: int|
            0 <= i < included.len() && key_of(#[trigger] included[i]) is Some && !primary.contains(
                key_of(included[i]).unwrap(),
            ) ==> exists|j: int|
                0 <= j < dedup(included, primary).0.len() && key_of(
                    #[trigger] dedup(included, primary).0[j],
                ) == key_of(included[i]),
        forall|k: (Seq<char>, Seq<char>)|
            #[trigger] dedup(included, primary).1.contains(k) <==> exists|j: int|
                0 <= j < dedup(included, primary).0.len() && key_of(
                    #[trigger] dedup(included, primary).0[j],
                ) == Some(k),
    decreases included.len(),
{
    if included.len() > 0 {
        let d = included.drop_last();
        lemma_dedup(d, primary);
        let prev = dedup(d, primary);
        let out = dedup(included, primary).0;
        let x = included.last();
        let seen = dedup(included, primary).1;
        assert forall|i: int| 0 <= i < prev.0.len() implies #[trigger] out[i] == prev.0[i] by {}
        assert forall|i: int| 0 <= i < included.len() - 1 implies #[trigger] included[i] == d[i] by {}
        assert forall|k: (Seq<char>, Seq<char>)|
            #[trigger] seen.contains(k) <==> exists|j: int|
                0 <= j < out.len() && key_of(#[trigger] out[j]) == Some(k) by {
            if exists|j: int| 0 <= j < out.len() && key_of(#[trigger] out[j]) == Some(k) {
                let j = choose|j: int| 0 <= j < out.len() && key_of(#[trigger] out[j]) == Some(k);
                if j < prev.0.len() {
                    assert(key_of(prev.0[j]) == Some(k));
                }
            }
            if prev.1.contains(k) {
                let j = choose|j: int| 0 <= j < prev.0.len() && key_of(#[trigger] prev.0[j]) == Some(k);
                assert(key_of(out[j]) == Some(k));
            }
            if out.len() > prev.0.len() && key_of(x) == Some(k) {
                assert(key_of(out[out.len() - 1]) == Some(k));
            }
        }
        assert forall|i: int|
            0 <= i < included.len() && key_of(#[trigger] included[i]) is Some && !primary.contains(
                key_of(included[i]).unwrap(),
            ) implies exists|j: int| 0 <= j < out.len() && key_of(#[trigger] out[j]) == key_of(included[i]) by {
            let k = key_of(included[i]).unwrap();
            if i < included.len() - 1 {
                assert(key_of(d[i]) == Some(k));
                let j = choose|j: int| 0 <= j < prev.0.len() && key_of(#[trigger] prev.0[j]) == key_of(d[i]);
                assert(key_of(out[j]) == Some(k));
            } else {
                if prev.1.contains(k) {
                    let j = choose|j: int| 0 <= j < prev.0.len() && key_of(#[trigger] prev.0[j]) == Some(k);
                    assert(key_of(out[j]) == Some(k));
                } else {
                    assert(key_of(out[out.len() - 1]) == Some(k));
                }
            }
        }
        assert forall|i: int, j: int|
            0 <= i < j < out.len() && key_of(#[trigger] out[i]) is Some implies key_of(out[i]) != key_of(
                #[trigger] out[j],
            ) by {
            if j >= prev.0.len() {
                assert(out[j] == x);
                assert(key_of(out[i]) == key_of(prev.0[i]));
            }
        }
    }
}

/// Whether the resource at position `i` of `included` is kept: it has no
/// `id`, or its key is not a primary key and no earlier resource has it.
pub open spec fn kept_at<T: ResourceObject>(
    included: Seq<T>,
    primary: Set<(Seq<char>, Seq<char>)>,
    i: int,
) -> bool {
    match key_of(included[i]) {
        None => true,
        Some(k) => !primary.contains(k) && forall|j: int|
            0 <= j < i ==> key_of(#[trigger] included[j]) != Some(k),
    }
}

/// The resources of `included` at the kept positions below `n`, in order.
pub open spec fn kept_below<T: ResourceObject>(
    included: Seq<T>,
    primary: Set<(Seq<char>, Seq<char>)>,
    n: int,
) -> Seq<T> {
    Seq::new(n as nat, |i: int| i).filter(|i: int| kept_at(included, primary, i)).map_values(
        |i: int| included[i],
    )
}

/// The keys, not primary, of the resources of `included` below `n`.
spec fn keys_below<T: ResourceObject>(
    included: Seq<T>,
    primary: Set<(Seq<char>, Seq<char>)>,
    n: int,
) -> Set<(Seq<char>, Seq<char>)> {
    Set::new(
        |k: (Seq<char>, Seq<char>)|
            !primary.contains(k) && exists|j: int| 0 <= j < n && key_of(#[trigger] included[j]) == Some(k),
    )
}

/// The deduplication of the first `n` included resources, in closed form.
proof fn lemma_dedup_prefix<T: ResourceObject>(
    included: Seq<T>,
    primary: Set<(Seq<char>, Seq<char>)>,
    n: int,
)
    requires
        0 <= n <= included.len(),
    ensures
        dedup(included.take(n), primary).0 == kept_below(included, primary, n),
        dedup(included.take(n), primary).1 == keys_below(included, primary, n),
    decreases n,
{
    if n == 0 {
        assert(Seq::new(0, |i: int| i) =~= Seq::<int>::empty());
        assert(kept_below(included, primary, 0) =~= Seq::<T>::empty());
        assert(keys_below(included, primary, 0) =~= Set::<(Seq<char>, Seq<char>)>::empty());
    } else {
        lemma_dedup_prefix(included, primary, n - 1);
        let t = included.take(n);
        assert(t.drop_last() =~= included.take(n - 1));
        assert(t.last() == included[n - 1]);
        let prev = dedup(included.take(n - 1), primary);
        let p = |i: int| kept_at(included, primary, i);
        let g = |i: int| included[i];
        let idx = Seq::new(n as nat, |i: int| i);
        let idx1 = Seq::new((n - 1) as nat, |i: int| i);
        assert(idx.drop_last() =~= idx1);
        assert(idx.last() == n - 1);
        reveal_with_fuel(Seq::filter, 1);
        assert(idx.filter(p) == if p(n - 1) {
            idx1.filter(p).push(n - 1)
        } else {
            idx1.filter(p)
        });
        if p(n - 1) {
            assert(idx1.filter(p).push(n - 1).map_values(g) =~= idx1.filter(p).map_values(g).push(
                included[n - 1],
            ));
        }
        match key_of(included[n - 1]) {
            None => {
                assert(keys_below(included, primary, n) =~= keys_below(included, primary, n - 1));
            },
            Some(k) => {
                if primary.contains(k) {
                    assert(keys_below(included, primary, n) =~= keys_below(included, primary, n - 1));
                } else if prev.1.contains(k) {
                    let j = choose|j: int| 0 <= j < n - 1 && key_of(#[trigger] included[j]) == Some(k);
                    assert(!p(n - 1));
                    assert(keys_below(included, primary, n) =~= keys_below(included, primary, n - 1));
                } else {
                    assert forall|j: int| 0 <= j < n - 1 implies key_of(#[trigger] included[j]) != Some(
                        k,
                    ) by {
                        if key_of(included[j]) == Some(k) {
                            assert(keys_below(included, primary, n - 1).contains(k));
                        }
                    }
                    assert(p(n - 1));
                    assert(keys_below(included, primary, n) =~= keys_below(included, primary, n - 1).insert(k));
                }
            },
        }
    }
}

/// What building keeps of the included resources, in closed form: the
/// included resources, in order, that have no `id`, or whose `(type, id)`
/// is no primary resource's and no earlier included resource's.
pub proof fn lemma_dedup_closed_form<T: ResourceObject>(
    included: Seq<T>,
    primary: Set<(Seq<char>, Seq<char>)>,
)
    ensures
        dedup(included, primary).0 == kept_below(included, primary, included.len() as int),
{
    lemma_dedup_prefix(included, primary, included.len() as int);
    assert(included.take(included.len() as int) =~= included);
}

} // verus!
