//! JSON:API Atomic Operations extension (v1.1): request and response types,
//! the JSON form of operation references, and the check that local ids are
//! introduced before they are referenced.
pub mod wire;

use crate::error::{shape_error, Error, Result};
use crate::json::{
    lemma_obj_get_set, obj_set, opt_text, set_opt_str, write_opt_str, JValue, JsonObject,
    JsonValue, Meta,
};
use crate::model::document::PrimaryData;
use crate::model::identifier::{Identity, ResourceIdentifier};
use crate::model::relationship::RelationshipData;
use crate::model::jsonapi_object::JsonApiObject;
use crate::model::link::Links;
use crate::model::resource::Resource;
use crate::record::{is_record, read_str_field, record_shape, slot, slot_of, str_field};
use crate::text::{owned, push_str, str_eq};
use vstd::prelude::*;

verus! {

/// URI identifying the JSON:API Atomic Operations extension.
pub const ATOMIC_EXT_URI: &'static str = "https://jsonapi.org/ext/atomic";

/// A request under the Atomic Operations extension: an ordered list of
/// operations (`atomic:operations`).
#[derive(Debug, Clone, PartialEq)]
pub struct AtomicRequest {
    /// The operations, in order.
    pub operations: Vec<AtomicOperation>,
}

/// A single atomic operation.
#[non_exhaustive]
#[derive(Debug, Clone, PartialEq)]
pub enum AtomicOperation {
    /// Create a resource, or add members to a to-many relationship.
    Add {
        /// What the operation targets.
        target: OperationTarget,
        /// The resource(s) or identifiers to add.
        data: PrimaryData<Resource>,
    },
    /// Update a resource or a relationship.
    Update {
        /// What the operation targets.
        target: OperationTarget,
        /// The new data.
        data: PrimaryData<Resource>,
    },
    /// Delete a resource, or remove relationship members.
    Remove {
        /// What the operation targets.
        target: OperationTarget,
    },
}

/// What an operation targets: a `ref`, an `href`, or neither (the target
/// is then implied by `data`). At most one of them may be set.
#[derive(Debug, Clone, PartialEq)]
pub struct OperationTarget {
    /// A reference to the target resource or relationship.
    pub ref_: Option<OperationRef>,
    /// A URI of the target.
    pub href: Option<String>,
}

/// A reference to a resource (by `id` or `lid`), optionally to one of its
/// relationships.
#[derive(Debug, Clone, PartialEq)]
pub struct OperationRef {
    /// The target resource's type.
    pub type_: String,
    /// The target resource's `id` or `lid`.
    pub identity: Identity,
    /// The target relationship, if any.
    pub relationship: Option<String>,
}

/// Result of a single atomic operation.
#[derive(Debug, Clone, PartialEq)]
pub struct AtomicResult {
    /// Resource(s) produced or modified by the operation.
    pub data: Option<PrimaryData<Resource>>,
    /// Optional meta object describing the operation result.
    pub meta: Option<Meta>,
    /// Optional links related to the operation result.
    pub links: Option<Links>,
}

/// Response envelope: one result per operation of the request, in order
/// (`atomic:results`), and the optional top-level members.
#[derive(Debug, Clone, PartialEq)]
pub struct AtomicResponse {
    /// One result per operation in the corresponding request, in order.
    pub results: Vec<AtomicResult>,
    /// Optional `jsonapi` member.
    pub jsonapi: Option<JsonApiObject>,
    /// Optional top-level meta.
    pub meta: Option<Meta>,
    /// Optional top-level links.
    pub links: Option<Links>,
}

impl Default for AtomicRequest {
    /// A request with no operations.
    fn default() -> (r: Self)
        ensures
            r.operations@.len() == 0,
    {
        AtomicRequest { operations: Vec::new() }
    }
}

impl Default for OperationTarget {
    /// Neither a `ref` nor an `href`.
    fn default() -> (r: Self)
        ensures
            r.ref_ is None,
            r.href is None,
    {
        OperationTarget { ref_: None, href: None }
    }
}

impl Default for AtomicResult {
    /// A result with no members.
    fn default() -> (r: Self)
        ensures
            r.data is None,
            r.meta is None,
            r.links is None,
    {
        AtomicResult { data: None, meta: None, links: None }
    }
}

impl Default for AtomicResponse {
    /// A response with no results and no other members.
    fn default() -> (r: Self)
        ensures
            r.results@.len() == 0,
            r.jsonapi is None,
            r.meta is None,
            r.links is None,
    {
        AtomicResponse { results: Vec::new(), jsonapi: None, meta: None, links: None }
    }
}

impl OperationTarget {
    /// Whether the target is well formed: not both a `ref` and an `href`.
    pub fn is_valid(&self) -> (b: bool)
        ensures
            b == !(self.ref_ is Some && self.href is Some),
    {
        !(self.ref_.is_some() && self.href.is_some())
    }
}

/// The target of an operation.
pub open spec fn op_target(op: AtomicOperation) -> OperationTarget {
    match op {
        AtomicOperation::Add { target, .. } => target,
        AtomicOperation::Update { target, .. } => target,
        AtomicOperation::Remove { target } => target,
    }
}

/// The resources of primary data, in order.
pub open spec fn data_resources(d: PrimaryData<Resource>) -> Seq<Resource> {
    match d {
        PrimaryData::Null => Seq::empty(),
        PrimaryData::Single(b) => seq![*b],
        PrimaryData::Many(v) => v@,
    }
}

/// Why an operation fails the local-id check.
pub enum LidFault {
    /// The target has both a `ref` and an `href`.
    RefAndHref,
    /// The target references a `lid` no earlier `add` introduced.
    NotIntroduced(Seq<char>),
    /// The relationship linkage of the operation's data references a `lid`
    /// no earlier `add` introduced.
    LinkNotIntroduced(Seq<char>),
    /// An `add` introduces a `lid` that was introduced already.
    Duplicate(Seq<char>),
}

/// The reason text of a fault.
pub open spec fn fault_reason(f: LidFault) -> Seq<char> {
    match f {
        LidFault::RefAndHref => "operation target must not have both `ref` and `href`"@,
        LidFault::NotIntroduced(l) => "ref.lid `"@ + l + "` not introduced by an earlier `add`"@,
        LidFault::LinkNotIntroduced(l) => "relationship lid `"@ + l
            + "` not introduced by an earlier `add`"@,
        LidFault::Duplicate(l) => "duplicate `lid` introduction: `"@ + l + "`"@,
    }
}

/// The local ids introduced by some resources, added in order to
/// `introduced`; the first one introduced twice is a fault.
pub open spec fn add_lids(introduced: Set<Seq<char>>, rs: Seq<Resource>) -> core::result::Result<
    Set<Seq<char>>,
    LidFault,
>
    decreases rs.len(),
{
    if rs.len() == 0 {
        Ok(introduced)
    } else {
        match add_lids(introduced, rs.drop_last()) {
            Err(f) => Err(f),
            Ok(s) => match rs.last().lid {
                Some(l) => if s.contains(l@) {
                    Err(LidFault::Duplicate(l@))
                } else {
                    Ok(s.insert(l@))
                },
                None => Ok(s),
            },
        }
    }
}

/// The local ids that some identifiers reference, in order.
pub open spec fn rid_lids(rids: Seq<ResourceIdentifier>) -> Seq<Seq<char>>
    decreases rids.len(),
{
    if rids.len() == 0 {
        Seq::empty()
    } else {
        rid_lids(rids.drop_last()) + match rids.last().identity {
            Identity::Lid(l) => seq![l@],
            Identity::Id(_) => Seq::empty(),
        }
    }
}

/// The local ids that the linkage of some relationships references, in
/// order.
pub open spec fn linkage_lids(rels: Seq<(Seq<char>, RelationshipData)>) -> Seq<Seq<char>>
    decreases rels.len(),
{
    if rels.len() == 0 {
        Seq::empty()
    } else {
        linkage_lids(rels.drop_last()) + rid_lids(rels.last().1.identifiers_view())
    }
}

/// The local ids that the relationships of some resources reference, in
/// order.
pub open spec fn linked_lids(rs: Seq<Resource>) -> Seq<Seq<char>>
    decreases rs.len(),
{
    if rs.len() == 0 {
        Seq::empty()
    } else {
        linked_lids(rs.drop_last()) + linkage_lids(rs.last().relationships.pairs())
    }
}

/// The first of `ls` that is not in `s`, if any.
pub open spec fn first_missing(ls: Seq<Seq<char>>, s: Set<Seq<char>>) -> Option<Seq<char>>
    decreases ls.len(),
{
    if ls.len() == 0 {
        None
    } else {
        match first_missing(ls.drop_last(), s) {
            Some(x) => Some(x),
            None => if s.contains(ls.last()) {
                None
            } else {
                Some(ls.last())
            },
        }
    }
}

/// The resources an operation carries: the data of an `add` or `update`,
/// none for a `remove`.
pub open spec fn op_resources(op: AtomicOperation) -> Seq<Resource> {
    match op {
        AtomicOperation::Add { data, .. } => data_resources(data),
        AtomicOperation::Update { data, .. } => data_resources(data),
        AtomicOperation::Remove { .. } => Seq::empty(),
    }
}

/// One operation checked against the local ids introduced so far: its
/// target must not have both `ref` and `href`; a `ref` by `lid` must name
/// an introduced one; every `lid` in the relationship linkage of its
/// resources must name an introduced one; an `add` then introduces the
/// `lid`s of its data.
pub open spec fn lid_step(introduced: Set<Seq<char>>, op: AtomicOperation) -> core::result::Result<
    Set<Seq<char>>,
    LidFault,
> {
    let t = op_target(op);
    if t.ref_ is Some && t.href is Some {
        Err(LidFault::RefAndHref)
    } else if t.ref_ matches Some(r) && r.identity matches Identity::Lid(l) && !introduced.contains(
        l@,
    ) {
        Err(LidFault::NotIntroduced(t.ref_->0.identity->Lid_0@))
    } else if first_missing(linked_lids(op_resources(op)), introduced) is Some {
        Err(LidFault::LinkNotIntroduced(first_missing(linked_lids(op_resources(op)), introduced)->0))
    } else {
        match op {
            AtomicOperation::Add { data, .. } => add_lids(introduced, data_resources(data)),
            _ => Ok(introduced),
        }
    }
}

/// The first `n` operations checked in order: the local ids they
/// introduce, or the index and fault of the first that fails.
pub open spec fn lid_scan(ops: Seq<AtomicOperation>, n: nat) -> core::result::Result<
    Set<Seq<char>>,
    (int, LidFault),
>
    decreases n,
{
    if n == 0 {
        Ok(Set::empty())
    } else {
        match lid_scan(ops, (n - 1) as nat) {
            Err(e) => Err(e),
            Ok(s) => match lid_step(s, ops[n - 1]) {
                Ok(s2) => Ok(s2),
                Err(f) => Err(((n - 1) as int, f)),
            },
        }
    }
}

/// The error of a failed local-id check.
pub open spec fn is_lid_error(e: Error, index: int, f: LidFault) -> bool {
    e matches Error::InvalidAtomicOperation { index: i, reason } && i == index && reason@
        == fault_reason(f)
}

fn fault_error(index: usize, prefix: &str, lid: &str, suffix: &str) -> (e: Error)
    ensures
        e matches Error::InvalidAtomicOperation { index: i, reason } && i == index && reason@ == prefix@
            + lid@ + suffix@,
{
    let mut reason = owned(prefix);
    push_str(&mut reason, lid);
    push_str(&mut reason, suffix);
    Error::InvalidAtomicOperation { index, reason }
}

fn contains_str(v: &Vec<String>, s: &str) -> (b: bool)
    ensures
        b == strings_view(v@).contains(s@),
{
    let mut i: usize = 0;
    while i < v.len()
        invariant
            0 <= i <= v@.len(),
            forall|j: int| 0 <= j < i ==> #[trigger] strings_view(v@)[j] != s@,
        decreases v@.len() - i,
    {
        assert(strings_view(v@)[i as int] == v@[i as int]@);
        if str_eq(v[i].as_str(), s) {
            return true;
        }
        i += 1;
    }
    false
}

/// The views of some strings.
pub open spec fn strings_view(v: Seq<String>) -> Seq<Seq<char>> {
    v.map_values(|x: String| x@)
}

/// Whether a list of local ids holds exactly the set `s`.
pub open spec fn holds_lids(v: Seq<String>, s: Set<Seq<char>>) -> bool {
    forall|l: Seq<char>| strings_view(v).contains(l) <==> s.contains(l)
}

impl AtomicOperation {
    fn target(&self) -> (t: &OperationTarget)
        ensures
            *t == op_target(*self),
    {
        match self {
            AtomicOperation::Add { target, .. } => target,
            AtomicOperation::Update { target, .. } => target,
            AtomicOperation::Remove { target } => target,
        }
    }
}

/// Adds the local ids of `rs`, in order, to `introduced`.
fn introduce_lids(introduced: &mut Vec<String>, rs: &[Resource], index: usize, Ghost(s0): Ghost<Set<Seq<char>>>) -> (r: Result<()>)
    requires
        holds_lids(old(introduced)@, s0),
    ensures
        match add_lids(s0, rs@) {
            Ok(s) => r is Ok && holds_lids(final(introduced)@, s),
            Err(f) => r matches Err(e) && is_lid_error(e, index as int, f),
        },
{
    let mut i: usize = 0;
    while i < rs.len()
        invariant
            0 <= i <= rs@.len(),
            add_lids(s0, rs@.take(i as int)) matches Ok(s) && holds_lids(introduced@, s),
        decreases rs@.len() - i,
    {
        assert(rs@.take(i + 1).drop_last() =~= rs@.take(i as int));
        assert(rs@.take(i + 1).last() == rs@[i as int]);
        let ghost s = add_lids(s0, rs@.take(i as int))->Ok_0;
        match &rs[i].lid {
            Some(lid) => {
                if contains_str(introduced, lid.as_str()) {
                    proof {
                        lemma_add_lids_err(s0, rs@, i as int + 1);
                    }
                    return Err(fault_error(index, "duplicate `lid` introduction: `", lid.as_str(), "`"));
                }
                let ghost before = introduced@;
                introduced.push(lid.clone());
                proof {
                    assert(strings_view(introduced@) =~= strings_view(before).push(lid@));
                    assert forall|l: Seq<char>| strings_view(introduced@).contains(l) <==> s.insert(lid@).contains(l) by {
                        crate::builder::lemma_push_contains(strings_view(before), lid@, l);
                    }
                }
            },
            None => {},
        }
        i += 1;
    }
    assert(rs@.take(i as int) =~= rs@);
    Ok(())
}

/// Once adding some first resources' local ids fails, adding all of them
/// fails the same way.
proof fn lemma_add_lids_err(s0: Set<Seq<char>>, rs: Seq<Resource>, n: int)
    requires
        0 <= n <= rs.len(),
        add_lids(s0, rs.take(n)) is Err,
    ensures
        add_lids(s0, rs) == add_lids(s0, rs.take(n)),
    decreases rs.len() - n,
{
    if n < rs.len() {
        assert(rs.take(n + 1).drop_last() =~= rs.take(n));
        lemma_add_lids_err(s0, rs, n + 1);
    } else {
        assert(rs.take(n) =~= rs);
    }
}

/// Once the check of some first operations fails, the check of more of
/// them fails the same way.
proof fn lemma_lid_scan_err(ops: Seq<AtomicOperation>, n: nat, k: nat)
    requires
        n <= k,
        lid_scan(ops, n) is Err,
    ensures
        lid_scan(ops, k) == lid_scan(ops, n),
    decreases k - n,
{
    if n < k {
        lemma_lid_scan_err(ops, n, (k - 1) as nat);
    }
}

/// Appends the local ids that `rids` reference, in order.
fn push_rid_lids(out: &mut Vec<String>, rids: &[ResourceIdentifier])
    ensures
        strings_view(final(out)@) == strings_view(old(out)@) + rid_lids(rids@),
{
    let mut i: usize = 0;
    while i < rids.len()
        invariant
            0 <= i <= rids@.len(),
            strings_view(out@) == strings_view(old(out)@) + rid_lids(rids@.take(i as int)),
        decreases rids@.len() - i,
    {
        assert(rids@.take(i + 1).drop_last() =~= rids@.take(i as int));
        assert(rids@.take(i + 1).last() == rids@[i as int]);
        let ghost before = out@;
        match &rids[i].identity {
            Identity::Lid(l) => {
                out.push(l.clone());
                assert(strings_view(out@) =~= strings_view(before).push(l@));
                assert(strings_view(out@) =~= strings_view(old(out)@) + rid_lids(
                    rids@.take(i + 1),
                ));
            },
            Identity::Id(_) => {
                assert(strings_view(out@) =~= strings_view(old(out)@) + rid_lids(
                    rids@.take(i + 1),
                ));
            },
        }
        i += 1;
    }
    assert(rids@.take(i as int) =~= rids@);
}

/// The identifiers of some linkage.
fn linkage_rids(d: &RelationshipData) -> (r: &[ResourceIdentifier])
    ensures
        r@ == d.identifiers_view(),
{
    match d {
        RelationshipData::ToOne(None) => {
            let empty: &[ResourceIdentifier] = &[];
            assert(empty@ =~= Seq::<ResourceIdentifier>::empty());
            empty
        },
        RelationshipData::ToOne(Some(rid)) => crate::model::relationship::slice_of_one(rid),
        RelationshipData::ToMany(rids) => rids.as_slice(),
    }
}

/// The local ids that the relationships of `rs` reference, in order.
fn linked_lids_of(rs: &[Resource]) -> (r: Vec<String>)
    ensures
        strings_view(r@) == linked_lids(rs@),
{
    let mut out: Vec<String> = Vec::new();
    let mut i: usize = 0;
    assert(strings_view(out@) =~= Seq::<Seq<char>>::empty());
    while i < rs.len()
        invariant
            0 <= i <= rs@.len(),
            strings_view(out@) == linked_lids(rs@.take(i as int)),
        decreases rs@.len() - i,
    {
        assert(rs@.take(i + 1).drop_last() =~= rs@.take(i as int));
        assert(rs@.take(i + 1).last() == rs@[i as int]);
        let ghost at_start = out@;
        let entries = rs[i].relationships.entries();
        let ghost pairs = rs@[i as int].relationships.pairs();
        let mut j: usize = 0;
        while j < entries.len()
            invariant
                0 <= j <= entries@.len(),
                entries@.map_values(|e: (String, RelationshipData)| (e.0@, e.1)) == pairs,
                strings_view(out@) == strings_view(at_start) + linkage_lids(pairs.take(j as int)),
            decreases entries@.len() - j,
        {
            assert(pairs.take(j + 1).drop_last() =~= pairs.take(j as int));
            assert(pairs[j as int] == (entries@[j as int].0@, entries@[j as int].1));
            let ghost before = out@;
            push_rid_lids(&mut out, linkage_rids(&entries[j].1));
            assert(strings_view(out@) =~= strings_view(at_start) + linkage_lids(
                pairs.take(j + 1),
            ));
            j += 1;
        }
        assert(pairs.take(j as int) =~= pairs);
        assert(strings_view(out@) =~= linked_lids(rs@.take(i + 1)));
        i += 1;
    }
    assert(rs@.take(i as int) =~= rs@);
    out
}

/// The resources of primary data, in order.
fn resources_of(data: &PrimaryData<Resource>) -> (r: &[Resource])
    ensures
        r@ == data_resources(*data),
{
    match data {
        PrimaryData::Null => {
            let empty: &[Resource] = &[];
            assert(empty@ =~= Seq::<Resource>::empty());
            empty
        },
        PrimaryData::Single(b) => crate::model::relationship::slice_of_one(&**b),
        PrimaryData::Many(v) => v.as_slice(),
    }
}

/// Once some first local ids have one missing from `s`, so do all of them,
/// and it is the same one.
proof fn lemma_first_missing_prefix(ls: Seq<Seq<char>>, s: Set<Seq<char>>, n: int)
    requires
        0 <= n <= ls.len(),
        first_missing(ls.take(n), s) is Some,
    ensures
        first_missing(ls, s) == first_missing(ls.take(n), s),
    decreases ls.len() - n,
{
    if n < ls.len() {
        assert(ls.take(n + 1).drop_last() =~= ls.take(n));
        lemma_first_missing_prefix(ls, s, n + 1);
    } else {
        assert(ls.take(n) =~= ls);
    }
}

/// The first of `ls` that `introduced` lacks: `None` when it has them all.
fn first_missing_of(ls: &Vec<String>, introduced: &Vec<String>, Ghost(s): Ghost<Set<Seq<char>>>) -> (r:
    Option<usize>)
    requires
        holds_lids(introduced@, s),
    ensures
        match r {
            None => first_missing(strings_view(ls@), s) is None,
            Some(j) => j < ls@.len() && first_missing(strings_view(ls@), s) == Some(ls@[j as int]@),
        },
{
    let ghost lv = strings_view(ls@);
    let mut j: usize = 0;
    while j < ls.len()
        invariant
            0 <= j <= ls@.len(),
            lv == strings_view(ls@),
            holds_lids(introduced@, s),
            first_missing(lv.take(j as int), s) is None,
        decreases ls@.len() - j,
    {
        assert(lv.take(j + 1).drop_last() =~= lv.take(j as int));
        assert(lv.take(j + 1).last() == ls@[j as int]@);
        if !contains_str(introduced, ls[j].as_str()) {
            proof {
                lemma_first_missing_prefix(lv, s, j + 1);
            }
            return Some(j);
        }
        j += 1;
    }
    assert(lv.take(j as int) =~= lv);
    None
}

impl AtomicRequest {
    /// Check, in order, that no operation target has both `ref` and
    /// `href`, that every `lid` an operation references (by its target's
    /// `ref`, or in the relationship linkage of its resources) is introduced
    /// by a strictly earlier `add`, and that no `lid` is introduced twice.
    /// [`Error::InvalidAtomicOperation`] names the first failing
    /// operation's index and the reason.
    pub fn validate_lid_refs(&self) -> (r: Result<()>)
        ensures
            match lid_scan(self.operations@, self.operations@.len()) {
                Ok(_) => r is Ok,
                Err((index, f)) => r matches Err(e) && is_lid_error(e, index, f),
            },
    {
        let ops = &self.operations;
        let mut introduced: Vec<String> = Vec::new();
        let mut index: usize = 0;
        while index < ops.len()
            invariant
                0 <= index <= ops@.len(),
                ops@ == self.operations@,
                lid_scan(ops@, index as nat) matches Ok(s) && holds_lids(introduced@, s),
            decreases ops@.len() - index,
        {
            let ghost s = lid_scan(ops@, index as nat)->Ok_0;
            let op = &ops[index];
            assert(*op == ops@[index as int]);
            let target = op.target();
            if !target.is_valid() {
                proof {
                    assert(lid_step(s, *op) == Err::<Set<Seq<char>>, LidFault>(LidFault::RefAndHref));
                    assert(lid_scan(ops@, (index + 1) as nat) == Err::<Set<Seq<char>>, (int, LidFault)>(
                        (index as int, LidFault::RefAndHref),
                    ));
                    lemma_lid_scan_err(ops@, (index + 1) as nat, ops@.len());
                }
                return Err(
                    Error::InvalidAtomicOperation {
                        index,
                        reason: owned("operation target must not have both `ref` and `href`"),
                    },
                );
            }
            match &target.ref_ {
                Some(r) => match &r.identity {
                    Identity::Lid(lid) => {
                        if !contains_str(&introduced, lid.as_str()) {
                            proof {
                                lemma_lid_scan_err(ops@, (index + 1) as nat, ops@.len());
                            }
                            return Err(
                                fault_error(
                                    index,
                                    "ref.lid `",
                                    lid.as_str(),
                                    "` not introduced by an earlier `add`",
                                ),
                            );
                        }
                    },
                    _ => {},
                },
                None => {},
            }
            let rs: &[Resource] = match op {
                AtomicOperation::Add { data, .. } => resources_of(data),
                AtomicOperation::Update { data, .. } => resources_of(data),
                AtomicOperation::Remove { .. } => {
                    let empty: &[Resource] = &[];
                    assert(empty@ =~= Seq::<Resource>::empty());
                    empty
                },
            };
            assert(rs@ == op_resources(*op));
            let linked = linked_lids_of(rs);
            match first_missing_of(&linked, &introduced, Ghost(s)) {
                Some(j) => {
                    proof {
                        assert(lid_step(s, *op) == Err::<Set<Seq<char>>, LidFault>(
                            LidFault::LinkNotIntroduced(linked@[j as int]@),
                        ));
                        lemma_lid_scan_err(ops@, (index + 1) as nat, ops@.len());
                    }
                    return Err(
                        fault_error(
                            index,
                            "relationship lid `",
                            linked[j].as_str(),
                            "` not introduced by an earlier `add`",
                        ),
                    );
                },
                None => {},
            }
            assert(lid_step(s, *op) == match *op {
                AtomicOperation::Add { data, .. } => add_lids(s, data_resources(data)),
                _ => Ok(s),
            });
            match op {
                AtomicOperation::Add { .. } => {
                    match introduce_lids(&mut introduced, rs, index, Ghost(s)) {
                        Ok(()) => {},
                        Err(e) => {
                            proof {
                                lemma_lid_scan_err(ops@, (index + 1) as nat, ops@.len());
                            }
                            return Err(e);
                        },
                    }
                },
                _ => {},
            }
            index += 1;
        }
        Ok(())
    }
}

/// The JSON form of an operation reference: `type`, then `id` or `lid`,
/// then `relationship` when there is one.
pub open spec fn op_ref_json(r: OperationRef) -> JValue {
    let m0 = obj_set(Seq::empty(), "type"@, JValue::Str(r.type_@));
    let m1 = match r.identity {
        Identity::Id(id) => obj_set(m0, "id"@, JValue::Str(id@)),
        Identity::Lid(lid) => obj_set(m0, "lid"@, JValue::Str(lid@)),
    };
    JValue::Object(set_opt_str(m1, "relationship"@, opt_text(r.relationship)))
}

/// Whether a JSON value reads as an operation reference: a record (an
/// object, or an array of `type`, `id`, `lid`, `relationship` in that
/// order, at least the `type`) with a string `type`, exactly one of a
/// string `id` and a string `lid` (missing and `null` alike count as
/// unset), and an optional string `relationship`.
pub open spec fn op_ref_valid(v: JValue) -> bool {
    &&& record_shape(v, 1, 4)
    &&& slot(v, "type"@, 0) matches Some(JValue::Str(_))
    &&& str_field(slot(v, "id"@, 1)) is Some
    &&& str_field(slot(v, "lid"@, 2)) is Some
    &&& (str_field(slot(v, "id"@, 1)).unwrap() is Some) != (str_field(slot(v, "lid"@, 2)).unwrap() is Some)
    &&& str_field(slot(v, "relationship"@, 3)) is Some
}

/// Whether `r` is what the JSON value `v` reads as.
pub open spec fn op_ref_decodes(v: JValue, r: OperationRef) -> bool {
    &&& slot(v, "type"@, 0) == Some(JValue::Str(r.type_@))
    &&& match r.identity {
        Identity::Id(id) => str_field(slot(v, "id"@, 1)) == Some(Some(id@)),
        Identity::Lid(lid) => str_field(slot(v, "lid"@, 2)) == Some(Some(lid@)),
    }
    &&& str_field(slot(v, "relationship"@, 3)) == Some(opt_text(r.relationship))
}

impl OperationRef {
    /// The JSON form of the reference.
    pub fn to_json(&self) -> (r: JsonValue)
        ensures
            r@ == op_ref_json(*self),
    {
        let mut o = JsonObject::new();
        o.insert(owned("type"), JsonValue::String(self.type_.clone()));
        match &self.identity {
            Identity::Id(id) => o.insert(owned("id"), JsonValue::String(id.clone())),
            Identity::Lid(lid) => o.insert(owned("lid"), JsonValue::String(lid.clone())),
        }
        write_opt_str(&mut o, "relationship", &self.relationship);
        JsonValue::Object(o)
    }

    /// Read a reference from its JSON form (see [`op_ref_valid`]);
    /// anything else is a shape error.
    pub fn from_json(v: &JsonValue) -> (r: Result<OperationRef>)
        ensures
            match r {
                Ok(x) => op_ref_valid(v@) && op_ref_decodes(v@, x),
                Err(e) => !op_ref_valid(v@) && e is Json,
            },
    {
        if !is_record(v, 1, 4) {
            return Err(shape_error("operation ref must be an object or an array of its fields"));
        }
        let type_ = match slot_of(v, "type", 0) {
            Some(JsonValue::String(t)) => t.clone(),
            _ => return Err(shape_error("operation ref must have a `type` string")),
        };
        let id = read_str_field(v, "id", 1)?;
        let lid = read_str_field(v, "lid", 2)?;
        let relationship = read_str_field(v, "relationship", 3)?;
        let identity = match (id, lid) {
            (Some(_), Some(_)) => {
                return Err(shape_error("operation ref must not have both `id` and `lid`"));
            },
            (Some(id), None) => Identity::Id(id),
            (None, Some(lid)) => Identity::Lid(lid),
            (None, None) => {
                return Err(shape_error("operation ref must have `id` or `lid`"));
            },
        };
        Ok(OperationRef { type_, identity, relationship })
    }
}

/// The member names of operation references differ from one another.
proof fn lemma_op_ref_names()
    ensures
        "type"@ != "id"@,
        "type"@ != "lid"@,
        "type"@ != "relationship"@,
        "id"@ != "lid"@,
        "id"@ != "relationship"@,
        "lid"@ != "relationship"@,
{
    reveal_strlit("type");
    reveal_strlit("id");
    reveal_strlit("lid");
    reveal_strlit("relationship");
    assert("id"@[0] != "lid"@[0]);
    assert("type"@[0] != "relationship"@[0]);
}

/// Reading back the JSON form of a reference gives the reference.
pub proof fn lemma_op_ref_round_trip(r: OperationRef)
    ensures
        op_ref_valid(op_ref_json(r)),
        op_ref_decodes(op_ref_json(r), r),
{
    lemma_op_ref_names();
    let m0 = obj_set(Seq::empty(), "type"@, JValue::Str(r.type_@));
    let m1 = match r.identity {
        Identity::Id(id) => obj_set(m0, "id"@, JValue::Str(id@)),
        Identity::Lid(lid) => obj_set(m0, "lid"@, JValue::Str(lid@)),
    };
    lemma_obj_get_set(Seq::empty(), "type"@, JValue::Str(r.type_@), "type"@);
    lemma_obj_get_set(Seq::empty(), "type"@, JValue::Str(r.type_@), "id"@);
    lemma_obj_get_set(Seq::empty(), "type"@, JValue::Str(r.type_@), "lid"@);
    lemma_obj_get_set(Seq::empty(), "type"@, JValue::Str(r.type_@), "relationship"@);
    match r.identity {
        Identity::Id(id) => {
            lemma_obj_get_set(m0, "id"@, JValue::Str(id@), "type"@);
            lemma_obj_get_set(m0, "id"@, JValue::Str(id@), "id"@);
            lemma_obj_get_set(m0, "id"@, JValue::Str(id@), "lid"@);
            lemma_obj_get_set(m0, "id"@, JValue::Str(id@), "relationship"@);
        },
        Identity::Lid(lid) => {
            lemma_obj_get_set(m0, "lid"@, JValue::Str(lid@), "type"@);
            lemma_obj_get_set(m0, "lid"@, JValue::Str(lid@), "id"@);
            lemma_obj_get_set(m0, "lid"@, JValue::Str(lid@), "lid"@);
            lemma_obj_get_set(m0, "lid"@, JValue::Str(lid@), "relationship"@);
        },
    }
    if let Some(x) = opt_text(r.relationship) {
        lemma_obj_get_set(m1, "relationship"@, JValue::Str(x), "type"@);
        lemma_obj_get_set(m1, "relationship"@, JValue::Str(x), "id"@);
        lemma_obj_get_set(m1, "relationship"@, JValue::Str(x), "lid"@);
        lemma_obj_get_set(m1, "relationship"@, JValue::Str(x), "relationship"@);
    }
}

/// The local ids some resources introduce, in order.
pub open spec fn resource_lids(rs: Seq<Resource>) -> Seq<Seq<char>>
    decreases rs.len(),
{
    if rs.len() == 0 {
        Seq::empty()
    } else {
        resource_lids(rs.drop_last()) + match rs.last().lid {
            Some(l) => seq![l@],
            None => Seq::empty(),
        }
    }
}

/// The local ids an operation introduces: those of an `add`'s resources.
pub open spec fn op_intro(op: AtomicOperation) -> Seq<Seq<char>> {
    match op {
        AtomicOperation::Add { data, .. } => resource_lids(data_resources(data)),
        _ => Seq::empty(),
    }
}

/// The local ids an operation references: its target `ref`'s `lid`, then
/// every `lid` in the relationship linkage of its resources.
pub open spec fn op_refs(op: AtomicOperation) -> Seq<Seq<char>> {
    (match op_target(op).ref_ {
        Some(r) => match r.identity {
            Identity::Lid(l) => seq![l@],
            Identity::Id(_) => Seq::empty(),
        },
        None => Seq::empty(),
    }) + linked_lids(op_resources(op))
}

/// The local ids introduced by the operations before position `i`.
pub open spec fn introduced_before(ops: Seq<AtomicOperation>, i: int) -> Set<Seq<char>> {
    Set::new(|l: Seq<char>| exists|j: int| 0 <= j < i && #[trigger] op_intro(ops[j]).contains(l))
}

/// Whether an operation passes the check given the local ids introduced
/// before it: its target has not both `ref` and `href`, every `lid` it
/// references was introduced, and the `lid`s it introduces are new and
/// differ from one another.
pub open spec fn op_fine_with(introduced: Set<Seq<char>>, op: AtomicOperation) -> bool {
    let t = op_target(op);
    let refs = op_refs(op);
    let intro = op_intro(op);
    &&& !(t.ref_ is Some && t.href is Some)
    &&& forall|k: int| 0 <= k < refs.len() ==> introduced.contains(#[trigger] refs[k])
    &&& forall|k: int| 0 <= k < intro.len() ==> !introduced.contains(#[trigger] intro[k])
    &&& forall|k1: int, k2: int|
        0 <= k1 < k2 < intro.len() ==> #[trigger] intro[k1] != #[trigger] intro[k2]
}

/// Whether the operation at position `i` passes the check.
pub open spec fn op_fine(ops: Seq<AtomicOperation>, i: int) -> bool {
    op_fine_with(introduced_before(ops, i), ops[i])
}

/// Adding the local ids of some resources succeeds exactly when they are
/// new and differ from one another, and adds them all.
proof fn lemma_add_lids_closed(s: Set<Seq<char>>, rs: Seq<Resource>)
    ensures
        ({
            let ls = resource_lids(rs);
            &&& add_lids(s, rs) is Ok <==> ((forall|k: int| 0 <= k < ls.len() ==> !s.contains(#[trigger] ls[k]))
                && forall|k1: int, k2: int|
                0 <= k1 < k2 < ls.len() ==> #[trigger] ls[k1] != #[trigger] ls[k2])
            &&& add_lids(s, rs) matches Ok(s2) ==> s2 == Set::new(
                |l: Seq<char>| s.contains(l) || ls.contains(l),
            )
        }),
    decreases rs.len(),
{
    let ls = resource_lids(rs);
    if rs.len() == 0 {
        assert(Set::new(|l: Seq<char>| s.contains(l) || ls.contains(l)) =~= s);
    } else {
        let d = rs.drop_last();
        lemma_add_lids_closed(s, d);
        let ld = resource_lids(d);
        let tail: Seq<Seq<char>> = match rs.last().lid {
            Some(l) => seq![l@],
            None => Seq::empty(),
        };
        assert(ls == ld + tail);
        assert forall|k: int| 0 <= k < ld.len() implies ls[k] == ld[k] by {}
        match add_lids(s, d) {
            Err(_) => {
                if (forall|k: int| 0 <= k < ls.len() ==> !s.contains(#[trigger] ls[k])) && forall|
                    k1: int,
                    k2: int,
                | 0 <= k1 < k2 < ls.len() ==> #[trigger] ls[k1] != #[trigger] ls[k2] {
                    assert forall|k: int| 0 <= k < ld.len() implies !s.contains(#[trigger] ld[k]) by {
                        assert(ls[k] == ld[k]);
                    }
                    assert forall|k1: int, k2: int| 0 <= k1 < k2 < ld.len() implies #[trigger] ld[k1]
                        != #[trigger] ld[k2] by {
                        assert(ls[k1] == ld[k1]);
                        assert(ls[k2] == ld[k2]);
                    }
                }
            },
            Ok(s1) => {
                match rs.last().lid {
                    None => {
                        assert(ls =~= ld);
                    },
                    Some(l) => {
                        let n = ld.len() as int;
                        assert(ls[n] == l@);
                        if s1.contains(l@) {
                            if s.contains(l@) {
                                assert(s.contains(ls[n]));
                            } else {
                                let k = choose|k: int| 0 <= k < ld.len() && ld[k] == l@;
                                assert(ls[k] == ls[n]);
                            }
                        } else {
                            assert(!s.contains(l@));
                            assert forall|k: int| 0 <= k < ls.len() implies !s.contains(#[trigger] ls[k]) by {
                                if k < n {
                                    assert(ls[k] == ld[k]);
                                }
                            }
                            assert forall|k1: int, k2: int| 0 <= k1 < k2 < ls.len() implies #[trigger] ls[k1]
                                != #[trigger] ls[k2] by {
                                assert(ls[k1] == ld[k1]);
                                if k2 < n {
                                    assert(ls[k2] == ld[k2]);
                                } else {
                                    assert(ld.contains(ld[k1]));
                                }
                            }
                            assert(s1.insert(l@) =~= Set::new(
                                |x: Seq<char>| s.contains(x) || ls.contains(x),
                            )) by {
                                assert forall|x: Seq<char>| ls.contains(x) <==> (ld.contains(x) || x == l@) by {
                                    if ls.contains(x) {
                                        let k = choose|k: int| 0 <= k < ls.len() && ls[k] == x;
                                        if k < n {
                                            assert(ld[k] == x);
                                        }
                                    }
                                    if ld.contains(x) {
                                        let k = choose|k: int| 0 <= k < ld.len() && ld[k] == x;
                                        assert(ls[k] == x);
                                    }
                                    if x == l@ {
                                        assert(ls[n] == x);
                                    }
                                }
                            }
                        }
                    },
                }
            },
        }
    }
}

/// No local id of `ls` is missing from `s` exactly when all are in it.
proof fn lemma_first_missing_none(ls: Seq<Seq<char>>, s: Set<Seq<char>>)
    ensures
        first_missing(ls, s) is None <==> forall|k: int| 0 <= k < ls.len() ==> s.contains(#[trigger] ls[k]),
    decreases ls.len(),
{
    if ls.len() > 0 {
        let d = ls.drop_last();
        lemma_first_missing_none(d, s);
        assert forall|k: int| 0 <= k < d.len() implies d[k] == ls[k] by {}
        if first_missing(d, s) is Some {
            let k = choose|k: int| 0 <= k < d.len() && !s.contains(#[trigger] d[k]);
            assert(!s.contains(ls[k]));
        }
    }
}

/// One step of the check, in closed form: it passes exactly when the
/// operation is fine, and then adds the local ids it introduces.
proof fn lemma_lid_step_closed(s: Set<Seq<char>>, op: AtomicOperation)
    ensures
        lid_step(s, op) is Ok <==> op_fine_with(s, op),
        lid_step(s, op) matches Ok(s2) ==> s2 == Set::new(
            |l: Seq<char>| s.contains(l) || op_intro(op).contains(l),
        ),
{
    let t = op_target(op);
    let linked = linked_lids(op_resources(op));
    let head: Seq<Seq<char>> = match t.ref_ {
        Some(r) => match r.identity {
            Identity::Lid(l) => seq![l@],
            Identity::Id(_) => Seq::empty(),
        },
        None => Seq::empty(),
    };
    let refs = op_refs(op);
    assert(refs == head + linked);
    lemma_first_missing_none(linked, s);
    assert((forall|k: int| 0 <= k < refs.len() ==> s.contains(#[trigger] refs[k])) <==> ((
    forall|k: int| 0 <= k < head.len() ==> s.contains(#[trigger] head[k])) && forall|k: int|
        0 <= k < linked.len() ==> s.contains(#[trigger] linked[k]))) by {
        assert forall|k: int| 0 <= k < head.len() implies refs[k] == head[k] by {}
        assert forall|k: int| 0 <= k < linked.len() implies refs[head.len() + k] == linked[k] by {}
        if forall|k: int| 0 <= k < head.len() ==> s.contains(#[trigger] head[k]) {
            if forall|k: int| 0 <= k < linked.len() ==> s.contains(#[trigger] linked[k]) {
                assert forall|k: int| 0 <= k < refs.len() implies s.contains(#[trigger] refs[k]) by {
                    if k < head.len() {
                        assert(refs[k] == head[k]);
                    } else {
                        assert(refs[k] == linked[k - head.len()]);
                    }
                }
            }
        }
    }
    if let Some(r) = t.ref_ {
        if let Identity::Lid(l) = r.identity {
            assert(refs[0] == head[0]);
            assert(head[0] == l@);
        }
    }
    match op {
        AtomicOperation::Add { data, .. } => {
            lemma_add_lids_closed(s, data_resources(data));
            let intro = op_intro(op);
            assert(intro == resource_lids(data_resources(data)));
            assert(add_lids(s, data_resources(data)) is Ok <==> ((forall|k: int|
                0 <= k < intro.len() ==> !s.contains(#[trigger] intro[k])) && forall|k1: int, k2: int|
                0 <= k1 < k2 < intro.len() ==> #[trigger] intro[k1] != #[trigger] intro[k2]));
            if !(t.ref_ is Some && t.href is Some) && !(t.ref_ matches Some(r) && r.identity matches Identity::Lid(
                l,
            ) && !s.contains(l@)) && first_missing(linked, s) is None {
                assert(lid_step(s, op) == add_lids(s, data_resources(data)));
            }
        },
        _ => {
            assert(Set::new(|l: Seq<char>| s.contains(l) || op_intro(op).contains(l)) =~= s);
        },
    }
}

/// The local ids introduced before `i + 1`: those before `i` and those of
/// the operation at `i`.
proof fn lemma_introduced_before_step(ops: Seq<AtomicOperation>, i: int)
    requires
        0 <= i < ops.len(),
    ensures
        introduced_before(ops, i + 1) == Set::new(
            |l: Seq<char>| introduced_before(ops, i).contains(l) || op_intro(ops[i]).contains(l),
        ),
{
    assert(introduced_before(ops, i + 1) =~= Set::new(
        |l: Seq<char>| introduced_before(ops, i).contains(l) || op_intro(ops[i]).contains(l),
    )) by {
        assert forall|l: Seq<char>| introduced_before(ops, i + 1).contains(l) implies (
        introduced_before(ops, i).contains(l) || op_intro(ops[i]).contains(l)) by {
            let j = choose|j: int| 0 <= j < i + 1 && #[trigger] op_intro(ops[j]).contains(l);
            if j < i {
                assert(introduced_before(ops, i).contains(l));
            }
        }
    }
}

/// The check of the first `n` operations, in closed form.
proof fn lemma_lid_scan_closed(ops: Seq<AtomicOperation>, n: nat)
    requires
        n <= ops.len(),
    ensures
        lid_scan(ops, n) is Ok <==> forall|i: int| 0 <= i < n ==> #[trigger] op_fine(ops, i),
        lid_scan(ops, n) matches Ok(s) ==> s == introduced_before(ops, n as int),
        lid_scan(ops, n) matches Err((i, _)) ==> 0 <= i < n && !op_fine(ops, i) && forall|j: int|
            0 <= j < i ==> #[trigger] op_fine(ops, j),
    decreases n,
{
    if n == 0 {
        assert(introduced_before(ops, 0) =~= Set::<Seq<char>>::empty());
    } else {
        let m = (n - 1) as nat;
        lemma_lid_scan_closed(ops, m);
        match lid_scan(ops, m) {
            Err(_) => {},
            Ok(s) => {
                lemma_lid_step_closed(s, ops[m as int]);
                lemma_introduced_before_step(ops, m as int);
                assert(op_fine(ops, m as int) == op_fine_with(s, ops[m as int]));
                if op_fine(ops, m as int) {
                    assert forall|i: int| 0 <= i < n implies #[trigger] op_fine(ops, i) by {
                        if i < m {
                            assert(op_fine(ops, i));
                        }
                    }
                }
            },
        }
    }
}

/// The `lid` check in closed form: a request passes exactly when every
/// operation is fine (see [`op_fine`]): no target with both `ref` and
/// `href`, every `lid` it references (target `ref` and relationship
/// linkage) introduced by a strictly earlier `add`, and no `lid`
/// introduced twice across all `add`s. A failure names the least index of
/// an operation that is not fine.
pub proof fn lemma_lid_check_closed_form(ops: Seq<AtomicOperation>)
    ensures
        lid_scan(ops, ops.len()) is Ok <==> forall|i: int| 0 <= i < ops.len() ==> #[trigger] op_fine(ops, i),
        lid_scan(ops, ops.len()) matches Err((i, _)) ==> 0 <= i < ops.len() && !op_fine(ops, i) && forall|j: int|
            0 <= j < i ==> #[trigger] op_fine(ops, j),
{
    lemma_lid_scan_closed(ops, ops.len());
}

} // verus!
