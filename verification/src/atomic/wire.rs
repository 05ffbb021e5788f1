//! The JSON form of atomic operations, requests, results and responses.
//!
//! Optional members follow the usual reading: a member that is absent or
//! `null` is unset. An operation is discriminated by its `op` member
//! (`"add"`, `"update"` or `"remove"`), and its target's `ref` and `href`
//! stand beside `op` in the same object.
use crate::atomic::{
    data_resources, lemma_op_ref_round_trip, op_ref_decodes, op_ref_json, op_ref_valid,
    op_target, AtomicOperation, AtomicRequest, AtomicResponse, AtomicResult, OperationRef,
    OperationTarget,
};
use crate::error::{shape_error, Result};
use crate::record::{
    is_record, object_field, present, read_object_field, read_str_field, record_shape, slot,
    slot_of, str_field,
};
use crate::json::{
    json_view_seq, lemma_json_view_seq, member_present, obj_get, obj_set, opt_members, opt_text,
    read_str_member, set_opt_object, set_opt_str, str_member, write_opt_object, write_opt_str,
    JValue, JsonObject, JsonValue,
};
use crate::model::document::{
    primary_decodes, primary_json, primary_valid, with_jsonapi_links, PrimaryData,
};
use crate::model::jsonapi_object::{jsonapi_decodes, jsonapi_valid, JsonApiObject};
use crate::model::link::{
    links_decodes, links_json, links_valid, opt_links_wf, read_opt_links, write_opt_links,
};
use crate::json::lemma_obj_get_set;
use crate::model::jsonapi_object::lemma_jsonapi_round_trip;
use crate::model::link::lemma_links_round_trip;
use crate::model::resource::{lemma_resource_round_trip, resource_wf, Resource};
use crate::text::owned;
use vstd::prelude::*;

verus! {

/// `m` with the members of an operation target: `ref` and `href`, each
/// when it is set.
pub open spec fn target_members(m: Seq<(Seq<char>, JValue)>, t: OperationTarget) -> Seq<
    (Seq<char>, JValue),
> {
    let m1 = match t.ref_ {
        Some(r) => obj_set(m, "ref"@, op_ref_json(r)),
        None => m,
    };
    set_opt_str(m1, "href"@, opt_text(t.href))
}

/// Whether the members read as an operation target: `ref`, unless absent
/// or `null`, reads as a reference, and `href`, unless absent or `null`,
/// is a string.
pub open spec fn target_valid(m: Seq<(Seq<char>, JValue)>) -> bool {
    &&& match member_present(m, "ref"@) {
        None => true,
        Some(v) => op_ref_valid(v),
    }
    &&& str_member(m, "href"@) is Some
}

/// Whether `t` is the target that the members read as.
pub open spec fn target_decodes(m: Seq<(Seq<char>, JValue)>, t: OperationTarget) -> bool {
    &&& match member_present(m, "ref"@) {
        None => t.ref_ is None,
        Some(v) => t.ref_ matches Some(r) && op_ref_decodes(v, r),
    }
    &&& str_member(m, "href"@) == Some(opt_text(t.href))
}

/// Writes the members of a target.
fn write_target(o: &mut JsonObject, t: &OperationTarget)
    ensures
        final(o)@ == target_members(old(o)@, *t),
{
    match &t.ref_ {
        Some(r) => o.insert(owned("ref"), r.to_json()),
        None => {},
    }
    write_opt_str(o, "href", &t.href);
}

/// Reads the members of a target (see [`target_valid`]).
fn read_target(o: &JsonObject) -> (r: Result<OperationTarget>)
    ensures
        match r {
            Ok(t) => target_valid(o@) && target_decodes(o@, t),
            Err(e) => !target_valid(o@) && e is Json,
        },
{
    let ref_ = match o.get("ref") {
        None => None,
        Some(JsonValue::Null) => None,
        Some(v) => Some(OperationRef::from_json(v)?),
    };
    let href = read_str_member(o, "href")?;
    Ok(OperationTarget { ref_, href })
}

/// Whether a JSON value reads as a target on its own: a record of two
/// fields (an object, or an array of at most two elements in the order
/// `ref`, `href`) whose `ref`, unless absent or `null`, reads as a
/// reference, and whose `href`, unless absent or `null`, is a string.
pub open spec fn target_record_valid(v: JValue) -> bool {
    &&& record_shape(v, 0, 2)
    &&& match present(slot(v, "ref"@, 0)) {
        None => true,
        Some(x) => op_ref_valid(x),
    }
    &&& str_field(slot(v, "href"@, 1)) is Some
}

/// Whether `t` is the target that the JSON value `v` reads as on its own.
pub open spec fn target_record_decodes(v: JValue, t: OperationTarget) -> bool {
    &&& match present(slot(v, "ref"@, 0)) {
        None => t.ref_ is None,
        Some(x) => t.ref_ matches Some(r) && op_ref_decodes(x, r),
    }
    &&& str_field(slot(v, "href"@, 1)) == Some(opt_text(t.href))
}

impl OperationTarget {
    /// The JSON form of the target: an object with `ref` and `href`, each
    /// when it is set.
    pub fn to_json(&self) -> (r: JsonValue)
        ensures
            r@ == JValue::Object(target_members(Seq::empty(), *self)),
    {
        let mut o = JsonObject::new();
        write_target(&mut o, self);
        JsonValue::Object(o)
    }

    /// Read a target from its JSON form (see [`target_record_valid`]);
    /// anything else is a shape error.
    pub fn from_json(v: &JsonValue) -> (r: Result<OperationTarget>)
        ensures
            match r {
                Ok(t) => target_record_valid(v@) && target_record_decodes(v@, t),
                Err(e) => !target_record_valid(v@) && e is Json,
            },
    {
        if !is_record(v, 0, 2) {
            return Err(shape_error("operation target must be an object or an array of two fields"));
        }
        let ref_ = match slot_of(v, "ref", 0) {
            None => None,
            Some(JsonValue::Null) => None,
            Some(x) => Some(OperationRef::from_json(x)?),
        };
        let href = read_str_field(v, "href", 1)?;
        Ok(OperationTarget { ref_, href })
    }
}

/// The `op` name of an operation.
pub open spec fn op_name(op: AtomicOperation) -> Seq<char> {
    match op {
        AtomicOperation::Add { .. } => "add"@,
        AtomicOperation::Update { .. } => "update"@,
        AtomicOperation::Remove { .. } => "remove"@,
    }
}

/// The JSON form of an operation: `op`, the target's members, and `data`
/// for `add` and `update`.
pub open spec fn operation_json(op: AtomicOperation) -> JValue {
    let m0 = obj_set(Seq::empty(), "op"@, JValue::Str(op_name(op)));
    let m1 = target_members(m0, op_target(op));
    JValue::Object(
        match op {
            AtomicOperation::Add { data, .. } => obj_set(m1, "data"@, primary_json(data)),
            AtomicOperation::Update { data, .. } => obj_set(m1, "data"@, primary_json(data)),
            AtomicOperation::Remove { .. } => m1,
        },
    )
}

/// Whether an `op` member names an operation that carries `data`.
pub open spec fn is_data_op(op: Option<JValue>) -> bool {
    op == Some(JValue::Str("add"@)) || op == Some(JValue::Str("update"@))
}

/// Whether the members have a `data` member that reads as primary data.
pub open spec fn data_member_valid(m: Seq<(Seq<char>, JValue)>) -> bool {
    match obj_get(m, "data"@) {
        Some(d) => primary_valid(d),
        None => false,
    }
}

/// Whether a JSON value reads as an operation: an object whose target
/// members read well, with `op` `"remove"`, or with `op` `"add"` or
/// `"update"` and a `data` member that reads as primary data.
pub open spec fn operation_valid(v: JValue) -> bool {
    match v {
        JValue::Object(m) => {
            &&& target_valid(m)
            &&& (obj_get(m, "op"@) == Some(JValue::Str("remove"@)) || (is_data_op(obj_get(m, "op"@))
                && data_member_valid(m)))
        },
        _ => false,
    }
}

/// Whether `op` is the operation that the JSON value `v` reads as.
pub open spec fn operation_decodes(v: JValue, op: AtomicOperation) -> bool {
    match v {
        JValue::Object(m) => {
            &&& obj_get(m, "op"@) == Some(JValue::Str(op_name(op)))
            &&& target_decodes(m, op_target(op))
            &&& match op {
                AtomicOperation::Add { data, .. } => obj_get(m, "data"@) matches Some(d)
                    && primary_decodes(d, data),
                AtomicOperation::Update { data, .. } => obj_get(m, "data"@) matches Some(d)
                    && primary_decodes(d, data),
                AtomicOperation::Remove { .. } => true,
            }
        },
        _ => false,
    }
}

/// The names of the operation kinds differ from one another.
proof fn lemma_op_names()
    ensures
        "add"@ != "update"@,
        "add"@ != "remove"@,
        "update"@ != "remove"@,
{
    reveal_strlit("add");
    reveal_strlit("update");
    reveal_strlit("remove");
    assert("add"@[0] != "update"@[0]);
    assert("add"@[0] != "remove"@[0]);
    assert("update"@[0] != "remove"@[0]);
}

impl AtomicOperation {
    /// The JSON form of the operation.
    pub fn to_json(&self) -> (r: JsonValue)
        ensures
            r@ == operation_json(*self),
    {
        let mut o = JsonObject::new();
        let name = match self {
            AtomicOperation::Add { .. } => "add",
            AtomicOperation::Update { .. } => "update",
            AtomicOperation::Remove { .. } => "remove",
        };
        o.insert(owned("op"), JsonValue::String(owned(name)));
        write_target(&mut o, self.target());
        match self {
            AtomicOperation::Add { data, .. } => o.insert(owned("data"), data.to_json()),
            AtomicOperation::Update { data, .. } => o.insert(owned("data"), data.to_json()),
            AtomicOperation::Remove { .. } => {},
        }
        JsonValue::Object(o)
    }

    /// Read an operation from its JSON form (see [`operation_valid`]); an
    /// unknown or missing `op`, a missing `data` for `add` and `update`,
    /// or a malformed target or `data` is a shape error.
    pub fn from_json(v: &JsonValue) -> (r: Result<AtomicOperation>)
        ensures
            match r {
                Ok(op) => operation_valid(v@) && operation_decodes(v@, op),
                Err(e) => !operation_valid(v@) && e is Json,
            },
    {
        proof {
            lemma_op_names();
        }
        let o = match v {
            JsonValue::Object(o) => o,
            _ => return Err(shape_error("operation must be an object")),
        };
        let target = read_target(o)?;
        let kind: u8 = match o.get("op") {
            Some(JsonValue::String(s)) => {
                if crate::text::str_eq(s.as_str(), "add") {
                    0
                } else if crate::text::str_eq(s.as_str(), "update") {
                    1
                } else if crate::text::str_eq(s.as_str(), "remove") {
                    2
                } else {
                    return Err(shape_error("unknown operation `op`"));
                }
            },
            _ => return Err(shape_error("operation must have an `op` string")),
        };
        if kind == 2 {
            return Ok(AtomicOperation::Remove { target });
        }
        let data = match o.get("data") {
            Some(d) => PrimaryData::from_json(d)?,
            None => return Err(shape_error("operation must have `data`")),
        };
        if kind == 0 {
            Ok(AtomicOperation::Add { target, data })
        } else {
            Ok(AtomicOperation::Update { target, data })
        }
    }
}


/// The JSON forms of some operations, in order.
pub open spec fn operations_json(ops: Seq<AtomicOperation>) -> Seq<JValue> {
    ops.map_values(|op: AtomicOperation| operation_json(op))
}

/// The JSON form of a request: its operations under `atomic:operations`.
pub open spec fn request_json(r: AtomicRequest) -> JValue {
    JValue::Object(
        obj_set(Seq::empty(), "atomic:operations"@, JValue::Array(operations_json(r.operations@))),
    )
}

/// Whether a JSON value reads as a request: a record of one field (an
/// object, or an array of exactly one element) whose `atomic:operations`
/// field is an array of operations.
pub open spec fn request_valid(v: JValue) -> bool {
    &&& record_shape(v, 1, 1)
    &&& match slot(v, "atomic:operations"@, 0) {
        Some(JValue::Array(items)) => forall|i: int|
            0 <= i < items.len() ==> operation_valid(#[trigger] items[i]),
        _ => false,
    }
}

/// Whether `r` is the request that the JSON value `v` reads as.
pub open spec fn request_decodes(v: JValue, r: AtomicRequest) -> bool {
    match slot(v, "atomic:operations"@, 0) {
        Some(JValue::Array(items)) => r.operations@.len() == items.len() && forall|i: int|
            0 <= i < items.len() ==> operation_decodes(#[trigger] items[i], r.operations@[i]),
        _ => false,
    }
}

/// The JSON form of an operation result: `data`, `meta` and `links`, each
/// when it is set.
pub open spec fn result_members(r: AtomicResult) -> Seq<(Seq<char>, JValue)> {
    let m0 = match r.data {
        Some(d) => obj_set(Seq::empty(), "data"@, primary_json(d)),
        None => Seq::empty(),
    };
    let m1 = set_opt_object(m0, "meta"@, opt_members(r.meta));
    match r.links {
        Some(l) => obj_set(m1, "links"@, links_json(l)),
        None => m1,
    }
}

/// The JSON form of an operation result.
pub open spec fn result_json(r: AtomicResult) -> JValue {
    JValue::Object(result_members(r))
}

/// Whether a JSON value reads as an operation result: a record of three
/// fields (an object, or an array of at most three elements in the order
/// `data`, `meta`, `links`) whose `data`, unless absent or `null`, reads
/// as primary data, whose `meta`, unless absent or `null`, is an object,
/// and whose `links`, unless absent or `null`, reads as a link map.
pub open spec fn result_valid(v: JValue) -> bool {
    &&& record_shape(v, 0, 3)
    &&& match present(slot(v, "data"@, 0)) {
        None => true,
        Some(d) => primary_valid(d),
    }
    &&& object_field(slot(v, "meta"@, 1)) is Some
    &&& match present(slot(v, "links"@, 2)) {
        None => true,
        Some(x) => links_valid(x),
    }
}

/// Whether `r` is the result that the JSON value `v` reads as.
pub open spec fn result_decodes(v: JValue, r: AtomicResult) -> bool {
    &&& match present(slot(v, "data"@, 0)) {
        None => r.data is None,
        Some(d) => r.data matches Some(p) && primary_decodes(d, p),
    }
    &&& object_field(slot(v, "meta"@, 1)) == Some(opt_members(r.meta))
    &&& match present(slot(v, "links"@, 2)) {
        None => r.links is None,
        Some(x) => r.links matches Some(l) && links_decodes(x, l),
    }
}

/// The JSON forms of some results, in order.
pub open spec fn results_json(rs: Seq<AtomicResult>) -> Seq<JValue> {
    rs.map_values(|r: AtomicResult| result_json(r))
}

/// The JSON form of a response: its results under `atomic:results`, then
/// `meta`, `jsonapi` and `links`, each when it is set.
pub open spec fn response_json(r: AtomicResponse) -> JValue {
    let m0 = obj_set(Seq::empty(), "atomic:results"@, JValue::Array(results_json(r.results@)));
    JValue::Object(with_jsonapi_links(set_opt_object(m0, "meta"@, opt_members(r.meta)), r.jsonapi, r.links))
}

/// Whether a JSON value reads as a response: a record of four fields (an
/// object, or an array of one to four elements in the order
/// `atomic:results`, `jsonapi`, `meta`, `links`) whose `atomic:results`
/// field is an array of results, and whose `jsonapi`, `meta` and `links`,
/// each unless absent or `null`, read as such.
pub open spec fn response_valid(v: JValue) -> bool {
    &&& record_shape(v, 1, 4)
    &&& match slot(v, "atomic:results"@, 0) {
        Some(JValue::Array(items)) => forall|i: int|
            0 <= i < items.len() ==> result_valid(#[trigger] items[i]),
        _ => false,
    }
    &&& match present(slot(v, "jsonapi"@, 1)) {
        None => true,
        Some(x) => jsonapi_valid(x),
    }
    &&& object_field(slot(v, "meta"@, 2)) is Some
    &&& match present(slot(v, "links"@, 3)) {
        None => true,
        Some(x) => links_valid(x),
    }
}

/// Whether `r` is the response that the JSON value `v` reads as.
pub open spec fn response_decodes(v: JValue, r: AtomicResponse) -> bool {
    &&& match slot(v, "atomic:results"@, 0) {
        Some(JValue::Array(items)) => r.results@.len() == items.len() && forall|i: int|
            0 <= i < items.len() ==> result_decodes(#[trigger] items[i], r.results@[i]),
        _ => false,
    }
    &&& match present(slot(v, "jsonapi"@, 1)) {
        None => r.jsonapi is None,
        Some(x) => r.jsonapi matches Some(j) && jsonapi_decodes(x, j),
    }
    &&& object_field(slot(v, "meta"@, 2)) == Some(opt_members(r.meta))
    &&& match present(slot(v, "links"@, 3)) {
        None => r.links is None,
        Some(x) => r.links matches Some(l) && links_decodes(x, l),
    }
}

/// Reads an optional `jsonapi` field: absent and `null` are unset.
fn read_opt_jsonapi(v: &JsonValue, pos: usize) -> (r: Result<Option<JsonApiObject>>)
    ensures
        match r {
            Ok(x) => match present(slot(v@, "jsonapi"@, pos as int)) {
                None => x is None,
                Some(f) => jsonapi_valid(f) && (x matches Some(j) && jsonapi_decodes(f, j)),
            },
            Err(e) => (present(slot(v@, "jsonapi"@, pos as int)) matches Some(f) && !jsonapi_valid(f))
                && e is Json,
        },
{
    match slot_of(v, "jsonapi", pos) {
        None => Ok(None),
        Some(JsonValue::Null) => Ok(None),
        Some(f) => Ok(Some(JsonApiObject::from_json(f)?)),
    }
}

impl AtomicResult {
    /// The JSON form of the result.
    pub fn to_json(&self) -> (r: JsonValue)
        ensures
            r@ == result_json(*self),
    {
        let mut o = JsonObject::new();
        match &self.data {
            Some(d) => o.insert(owned("data"), d.to_json()),
            None => {},
        }
        write_opt_object(&mut o, "meta", &self.meta);
        write_opt_links(&mut o, &self.links);
        JsonValue::Object(o)
    }

    /// Read a result from its JSON form (see [`result_valid`]); anything
    /// else is a shape error.
    pub fn from_json(v: &JsonValue) -> (r: Result<AtomicResult>)
        ensures
            match r {
                Ok(x) => result_valid(v@) && result_decodes(v@, x),
                Err(e) => !result_valid(v@) && e is Json,
            },
    {
        if !is_record(v, 0, 3) {
            return Err(shape_error("operation result must be an object or an array of three fields"));
        }
        let data = match slot_of(v, "data", 0) {
            None => None,
            Some(JsonValue::Null) => None,
            Some(d) => Some(PrimaryData::from_json(d)?),
        };
        let meta = read_object_field(v, "meta", 1)?;
        let links = read_opt_links(v, "links", 2)?;
        Ok(AtomicResult { data, meta, links })
    }
}

/// The JSON forms of some operations, in order.
fn operations_to_json(ops: &Vec<AtomicOperation>) -> (r: Vec<JsonValue>)
    ensures
        json_view_seq(r@) == operations_json(ops@),
{
    let mut out: Vec<JsonValue> = Vec::new();
    let mut i: usize = 0;
    while i < ops.len()
        invariant
            0 <= i <= ops@.len(),
            json_view_seq(out@) == operations_json(ops@.take(i as int)),
        decreases ops@.len() - i,
    {
        let ghost before = out@;
        out.push(ops[i].to_json());
        assert(out@.drop_last() =~= before);
        assert(operations_json(ops@.take(i + 1)) =~= operations_json(ops@.take(i as int)).push(
            operation_json(ops@[i as int]),
        ));
        i += 1;
    }
    assert(ops@.take(i as int) =~= ops@);
    out
}

/// Reads operations from their JSON forms, in order.
fn operations_from_json(items: &Vec<JsonValue>) -> (r: Result<Vec<AtomicOperation>>)
    ensures
        match r {
            Ok(ops) => (forall|i: int|
                0 <= i < items@.len() ==> operation_valid(#[trigger] json_view_seq(items@)[i]))
                && ops@.len() == items@.len() && forall|i: int|
                0 <= i < items@.len() ==> operation_decodes(#[trigger] json_view_seq(items@)[i], ops@[i]),
            Err(e) => !(forall|i: int|
                0 <= i < items@.len() ==> operation_valid(#[trigger] json_view_seq(items@)[i])) && e is Json,
        },
{
    proof {
        lemma_json_view_seq(items@);
    }
    let ghost iv = json_view_seq(items@);
    let mut out: Vec<AtomicOperation> = Vec::new();
    let mut i: usize = 0;
    while i < items.len()
        invariant
            0 <= i <= items@.len(),
            iv == json_view_seq(items@),
            iv.len() == items@.len(),
            forall|j: int| 0 <= j < items@.len() ==> #[trigger] iv[j] == items@[j]@,
            out@.len() == i,
            forall|j: int| 0 <= j < i ==> operation_valid(#[trigger] iv[j]) && operation_decodes(iv[j], out@[j]),
        decreases items@.len() - i,
    {
        assert(iv[i as int] == items@[i as int]@);
        match AtomicOperation::from_json(&items[i]) {
            Ok(x) => out.push(x),
            Err(e) => {
                assert(!operation_valid(iv[i as int]));
                return Err(e);
            },
        }
        i += 1;
    }
    Ok(out)
}

/// The JSON forms of some results, in order.
fn results_to_json(rs: &Vec<AtomicResult>) -> (r: Vec<JsonValue>)
    ensures
        json_view_seq(r@) == results_json(rs@),
{
    let mut out: Vec<JsonValue> = Vec::new();
    let mut i: usize = 0;
    while i < rs.len()
        invariant
            0 <= i <= rs@.len(),
            json_view_seq(out@) == results_json(rs@.take(i as int)),
        decreases rs@.len() - i,
    {
        let ghost before = out@;
        out.push(rs[i].to_json());
        assert(out@.drop_last() =~= before);
        assert(results_json(rs@.take(i + 1)) =~= results_json(rs@.take(i as int)).push(
            result_json(rs@[i as int]),
        ));
        i += 1;
    }
    assert(rs@.take(i as int) =~= rs@);
    out
}

/// Reads results from their JSON forms, in order.
fn results_from_json(items: &Vec<JsonValue>) -> (r: Result<Vec<AtomicResult>>)
    ensures
        match r {
            Ok(rs) => (forall|i: int|
                0 <= i < items@.len() ==> result_valid(#[trigger] json_view_seq(items@)[i]))
                && rs@.len() == items@.len() && forall|i: int|
                0 <= i < items@.len() ==> result_decodes(#[trigger] json_view_seq(items@)[i], rs@[i]),
            Err(e) => !(forall|i: int|
                0 <= i < items@.len() ==> result_valid(#[trigger] json_view_seq(items@)[i])) && e is Json,
        },
{
    proof {
        lemma_json_view_seq(items@);
    }
    let ghost iv = json_view_seq(items@);
    let mut out: Vec<AtomicResult> = Vec::new();
    let mut i: usize = 0;
    while i < items.len()
        invariant
            0 <= i <= items@.len(),
            iv == json_view_seq(items@),
            iv.len() == items@.len(),
            forall|j: int| 0 <= j < items@.len() ==> #[trigger] iv[j] == items@[j]@,
            out@.len() == i,
            forall|j: int| 0 <= j < i ==> result_valid(#[trigger] iv[j]) && result_decodes(iv[j], out@[j]),
        decreases items@.len() - i,
    {
        assert(iv[i as int] == items@[i as int]@);
        match AtomicResult::from_json(&items[i]) {
            Ok(x) => out.push(x),
            Err(e) => {
                assert(!result_valid(iv[i as int]));
                return Err(e);
            },
        }
        i += 1;
    }
    Ok(out)
}

impl AtomicRequest {
    /// The JSON form of the request.
    pub fn to_json(&self) -> (r: JsonValue)
        ensures
            r@ == request_json(*self),
    {
        let mut o = JsonObject::new();
        o.insert(owned("atomic:operations"), JsonValue::Array(operations_to_json(&self.operations)));
        JsonValue::Object(o)
    }

    /// Read a request from its JSON form (see [`request_valid`]); a
    /// missing `atomic:operations` array, or a malformed operation, is a
    /// shape error.
    pub fn from_json(v: &JsonValue) -> (r: Result<AtomicRequest>)
        ensures
            match r {
                Ok(x) => request_valid(v@) && request_decodes(v@, x),
                Err(e) => !request_valid(v@) && e is Json,
            },
    {
        if !is_record(v, 1, 1) {
            return Err(shape_error("atomic request must be an object or an array of one field"));
        }
        match slot_of(v, "atomic:operations", 0) {
            Some(JsonValue::Array(items)) => {
                proof {
                    lemma_json_view_seq(items@);
                }
                let ghost iv = json_view_seq(items@);
                assert(slot(v@, "atomic:operations"@, 0) == Some(JValue::Array(iv)));
                match operations_from_json(items) {
                    Ok(operations) => Ok(AtomicRequest { operations }),
                    Err(e) => {
                        let ghost w = choose|i: int| 0 <= i < items@.len() && !operation_valid(iv[i]);
                        assert(!operation_valid(iv[w]));
                        assert(slot(v@, "atomic:operations"@, 0)->Some_0->Array_0 == iv);
                        Err(e)
                    },
                }
            },
            _ => Err(shape_error("atomic request must have an `atomic:operations` array")),
        }
    }
}

impl AtomicResponse {
    /// The JSON form of the response.
    pub fn to_json(&self) -> (r: JsonValue)
        ensures
            r@ == response_json(*self),
    {
        let mut o = JsonObject::new();
        o.insert(owned("atomic:results"), JsonValue::Array(results_to_json(&self.results)));
        write_opt_object(&mut o, "meta", &self.meta);
        match &self.jsonapi {
            Some(j) => o.insert(owned("jsonapi"), j.to_json()),
            None => {},
        }
        write_opt_links(&mut o, &self.links);
        JsonValue::Object(o)
    }

    /// Read a response from its JSON form (see [`response_valid`]); a
    /// missing `atomic:results` array, or a malformed member, is a shape
    /// error.
    pub fn from_json(v: &JsonValue) -> (r: Result<AtomicResponse>)
        ensures
            match r {
                Ok(x) => response_valid(v@) && response_decodes(v@, x),
                Err(e) => !response_valid(v@) && e is Json,
            },
    {
        if !is_record(v, 1, 4) {
            return Err(shape_error("atomic response must be an object or an array of up to four fields"));
        }
        let results = match slot_of(v, "atomic:results", 0) {
            Some(JsonValue::Array(items)) => {
                proof {
                    lemma_json_view_seq(items@);
                }
                let ghost iv = json_view_seq(items@);
                assert(slot(v@, "atomic:results"@, 0) == Some(JValue::Array(iv)));
                match results_from_json(items) {
                    Ok(rs) => rs,
                    Err(e) => {
                        let ghost w = choose|i: int| 0 <= i < items@.len() && !result_valid(iv[i]);
                        assert(!result_valid(iv[w]));
                        assert(slot(v@, "atomic:results"@, 0)->Some_0->Array_0 == iv);
                        return Err(e);
                    },
                }
            },
            _ => return Err(shape_error("atomic response must have an `atomic:results` array")),
        };
        let jsonapi = read_opt_jsonapi(v, 1)?;
        let meta = read_object_field(v, "meta", 2)?;
        let links = read_opt_links(v, "links", 3)?;
        Ok(AtomicResponse { results, jsonapi, meta, links })
    }
}


/// Whether every resource of primary data is well formed (see
/// [`resource_wf`]).
pub open spec fn primary_wf(d: PrimaryData<Resource>) -> bool {
    forall|i: int| 0 <= i < data_resources(d).len() ==> resource_wf(#[trigger] data_resources(d)[i])
}

/// Whether the resources an operation carries are well formed.
pub open spec fn operation_wf(op: AtomicOperation) -> bool {
    match op {
        AtomicOperation::Add { data, .. } => primary_wf(data),
        AtomicOperation::Update { data, .. } => primary_wf(data),
        AtomicOperation::Remove { .. } => true,
    }
}

/// The member names of the atomic JSON forms differ from one another.
proof fn lemma_wire_names()
    ensures
        "op"@ != "ref"@,
        "op"@ != "href"@,
        "op"@ != "data"@,
        "ref"@ != "href"@,
        "ref"@ != "data"@,
        "href"@ != "data"@,
        "data"@ != "meta"@,
        "data"@ != "links"@,
        "meta"@ != "links"@,
        "atomic:results"@ != "meta"@,
        "atomic:results"@ != "jsonapi"@,
        "atomic:results"@ != "links"@,
        "meta"@ != "jsonapi"@,
        "jsonapi"@ != "links"@,
{
    reveal_strlit("op");
    reveal_strlit("ref");
    reveal_strlit("href");
    reveal_strlit("data");
    reveal_strlit("meta");
    reveal_strlit("links");
    reveal_strlit("jsonapi");
    reveal_strlit("atomic:results");
    assert("op"@[0] != "ref"@[0]);
    assert("op"@[0] != "href"@[0]);
    assert("op"@[0] != "data"@[0]);
    assert("ref"@[0] != "href"@[0]);
    assert("ref"@[0] != "data"@[0]);
    assert("href"@[0] != "data"@[0]);
    assert("data"@[0] != "meta"@[0]);
    assert("data"@[0] != "links"@[0]);
    assert("meta"@[0] != "links"@[0]);
    assert("atomic:results"@[0] != "meta"@[0]);
    assert("atomic:results"@[0] != "jsonapi"@[0]);
    assert("atomic:results"@[0] != "links"@[0]);
    assert("meta"@[0] != "jsonapi"@[0]);
    assert("jsonapi"@[0] != "links"@[0]);
}

/// Reading back the JSON form of well-formed primary data gives the data.
proof fn lemma_primary_round_trip(d: PrimaryData<Resource>)
    requires
        primary_wf(d),
    ensures
        primary_valid(primary_json(d)),
        primary_decodes(primary_json(d), d),
{
    match d {
        PrimaryData::Single(b) => {
            assert(data_resources(d)[0] == *b);
            lemma_resource_round_trip(*b);
        },
        PrimaryData::Many(v) => {
            let items = crate::model::document::resources_json(v@);
            assert forall|i: int| 0 <= i < v@.len() implies crate::model::resource::resource_valid(
                #[trigger] items[i],
            ) && crate::model::resource::resource_decodes(items[i], v@[i]) by {
                assert(data_resources(d)[i] == v@[i]);
                lemma_resource_round_trip(v@[i]);
            }
            assert(primary_json(d)->Array_0 == items);
        },
        PrimaryData::Null => {},
    }
}

/// The members of a target, written after `op`, read back as the target.
proof fn lemma_target_members(op: Seq<char>, t: OperationTarget)
    ensures
        ({
            let m0 = obj_set(Seq::empty(), "op"@, JValue::Str(op));
            let m = target_members(m0, t);
            &&& target_valid(m)
            &&& target_decodes(m, t)
            &&& obj_get(m, "op"@) == Some(JValue::Str(op))
            &&& obj_get(m, "data"@) is None
        }),
{
    lemma_wire_names();
    let m0 = obj_set(Seq::empty(), "op"@, JValue::Str(op));
    lemma_obj_get_set(Seq::empty(), "op"@, JValue::Str(op), "op"@);
    lemma_obj_get_set(Seq::empty(), "op"@, JValue::Str(op), "ref"@);
    lemma_obj_get_set(Seq::empty(), "op"@, JValue::Str(op), "href"@);
    lemma_obj_get_set(Seq::empty(), "op"@, JValue::Str(op), "data"@);
    let m1 = match t.ref_ {
        Some(r) => obj_set(m0, "ref"@, op_ref_json(r)),
        None => m0,
    };
    if let Some(r) = t.ref_ {
        lemma_op_ref_round_trip(r);
        lemma_obj_get_set(m0, "ref"@, op_ref_json(r), "op"@);
        lemma_obj_get_set(m0, "ref"@, op_ref_json(r), "ref"@);
        lemma_obj_get_set(m0, "ref"@, op_ref_json(r), "href"@);
        lemma_obj_get_set(m0, "ref"@, op_ref_json(r), "data"@);
    }
    if let Some(h) = t.href {
        lemma_obj_get_set(m1, "href"@, JValue::Str(h@), "op"@);
        lemma_obj_get_set(m1, "href"@, JValue::Str(h@), "ref"@);
        lemma_obj_get_set(m1, "href"@, JValue::Str(h@), "href"@);
        lemma_obj_get_set(m1, "href"@, JValue::Str(h@), "data"@);
    }
}

/// Reading back the JSON form of a target gives the target.
pub proof fn lemma_target_round_trip(t: OperationTarget)
    ensures
        target_record_valid(JValue::Object(target_members(Seq::empty(), t))),
        target_record_decodes(JValue::Object(target_members(Seq::empty(), t)), t),
{
    lemma_wire_names();
    let m1 = match t.ref_ {
        Some(r) => obj_set(Seq::empty(), "ref"@, op_ref_json(r)),
        None => Seq::empty(),
    };
    if let Some(r) = t.ref_ {
        lemma_op_ref_round_trip(r);
        lemma_obj_get_set(Seq::empty(), "ref"@, op_ref_json(r), "ref"@);
        lemma_obj_get_set(Seq::empty(), "ref"@, op_ref_json(r), "href"@);
    }
    if let Some(h) = t.href {
        lemma_obj_get_set(m1, "href"@, JValue::Str(h@), "ref"@);
        lemma_obj_get_set(m1, "href"@, JValue::Str(h@), "href"@);
    }
}

/// Reading back the JSON form of an operation whose resources are well
/// formed gives the operation.
pub proof fn lemma_operation_round_trip(op: AtomicOperation)
    requires
        operation_wf(op),
    ensures
        operation_valid(operation_json(op)),
        operation_decodes(operation_json(op), op),
{
    lemma_op_names();
    lemma_wire_names();
    lemma_target_members(op_name(op), op_target(op));
    let m0 = obj_set(Seq::empty(), "op"@, JValue::Str(op_name(op)));
    let m1 = target_members(m0, op_target(op));
    match op {
        AtomicOperation::Add { data, .. } => {
            lemma_primary_round_trip(data);
            lemma_obj_get_set(m1, "data"@, primary_json(data), "op"@);
            lemma_obj_get_set(m1, "data"@, primary_json(data), "ref"@);
            lemma_obj_get_set(m1, "data"@, primary_json(data), "href"@);
            lemma_obj_get_set(m1, "data"@, primary_json(data), "data"@);
        },
        AtomicOperation::Update { data, .. } => {
            lemma_primary_round_trip(data);
            lemma_obj_get_set(m1, "data"@, primary_json(data), "op"@);
            lemma_obj_get_set(m1, "data"@, primary_json(data), "ref"@);
            lemma_obj_get_set(m1, "data"@, primary_json(data), "href"@);
            lemma_obj_get_set(m1, "data"@, primary_json(data), "data"@);
        },
        AtomicOperation::Remove { .. } => {},
    }
}

/// Reading back the JSON form of a request whose resources are well
/// formed gives the request.
pub proof fn lemma_request_round_trip(r: AtomicRequest)
    requires
        forall|i: int| 0 <= i < r.operations@.len() ==> operation_wf(#[trigger] r.operations@[i]),
    ensures
        request_valid(request_json(r)),
        request_decodes(request_json(r), r),
{
    let items = operations_json(r.operations@);
    assert forall|i: int| 0 <= i < items.len() implies operation_valid(#[trigger] items[i])
        && operation_decodes(items[i], r.operations@[i]) by {
        lemma_operation_round_trip(r.operations@[i]);
    }
    lemma_obj_get_set(Seq::empty(), "atomic:operations"@, JValue::Array(items), "atomic:operations"@);
}

/// Reading back the JSON form of a result gives the result, unless its
/// `data` is set to `null`, which reads back as unset.
pub proof fn lemma_result_round_trip(r: AtomicResult)
    requires
        r.data != Some(PrimaryData::<Resource>::Null),
        match r.data {
            Some(d) => primary_wf(d),
            None => true,
        },
        opt_links_wf(r.links),
    ensures
        result_valid(result_json(r)),
        result_decodes(result_json(r), r),
{
    lemma_wire_names();
    let m0 = match r.data {
        Some(d) => obj_set(Seq::empty(), "data"@, primary_json(d)),
        None => Seq::empty(),
    };
    let m1 = set_opt_object(m0, "meta"@, opt_members(r.meta));
    if let Some(d) = r.data {
        lemma_primary_round_trip(d);
        lemma_obj_get_set(Seq::empty(), "data"@, primary_json(d), "data"@);
        lemma_obj_get_set(Seq::empty(), "data"@, primary_json(d), "meta"@);
        lemma_obj_get_set(Seq::empty(), "data"@, primary_json(d), "links"@);
    }
    if let Some(x) = r.meta {
        lemma_obj_get_set(m0, "meta"@, JValue::Object(x@), "data"@);
        lemma_obj_get_set(m0, "meta"@, JValue::Object(x@), "meta"@);
        lemma_obj_get_set(m0, "meta"@, JValue::Object(x@), "links"@);
    }
    if let Some(l) = r.links {
        lemma_links_round_trip(l);
        lemma_obj_get_set(m1, "links"@, links_json(l), "data"@);
        lemma_obj_get_set(m1, "links"@, links_json(l), "meta"@);
        lemma_obj_get_set(m1, "links"@, links_json(l), "links"@);
    }
}

/// Reading back the JSON form of a response gives the response, when no
/// result sets its `data` to `null`.
pub proof fn lemma_response_round_trip(r: AtomicResponse)
    requires
        forall|i: int| 0 <= i < r.results@.len() ==> {
            let x = #[trigger] r.results@[i];
            &&& x.data != Some(PrimaryData::<Resource>::Null)
            &&& match x.data {
                Some(d) => primary_wf(d),
                None => true,
            }
            &&& opt_links_wf(x.links)
        },
        opt_links_wf(r.links),
    ensures
        response_valid(response_json(r)),
        response_decodes(response_json(r), r),
{
    lemma_wire_names();
    let items = results_json(r.results@);
    assert forall|i: int| 0 <= i < items.len() implies result_valid(#[trigger] items[i])
        && result_decodes(items[i], r.results@[i]) by {
        lemma_result_round_trip(r.results@[i]);
    }
    let m0 = obj_set(Seq::empty(), "atomic:results"@, JValue::Array(items));
    let m1 = set_opt_object(m0, "meta"@, opt_members(r.meta));
    let m2 = match r.jsonapi {
        Some(j) => obj_set(m1, "jsonapi"@, crate::model::jsonapi_object::jsonapi_json(j)),
        None => m1,
    };
    lemma_obj_get_set(Seq::empty(), "atomic:results"@, JValue::Array(items), "atomic:results"@);
    lemma_obj_get_set(Seq::empty(), "atomic:results"@, JValue::Array(items), "meta"@);
    lemma_obj_get_set(Seq::empty(), "atomic:results"@, JValue::Array(items), "jsonapi"@);
    lemma_obj_get_set(Seq::empty(), "atomic:results"@, JValue::Array(items), "links"@);
    if let Some(x) = r.meta {
        lemma_obj_get_set(m0, "meta"@, JValue::Object(x@), "atomic:results"@);
        lemma_obj_get_set(m0, "meta"@, JValue::Object(x@), "meta"@);
        lemma_obj_get_set(m0, "meta"@, JValue::Object(x@), "jsonapi"@);
        lemma_obj_get_set(m0, "meta"@, JValue::Object(x@), "links"@);
    }
    if let Some(j) = r.jsonapi {
        let jv = crate::model::jsonapi_object::jsonapi_json(j);
        lemma_jsonapi_round_trip(j);
        lemma_obj_get_set(m1, "jsonapi"@, jv, "atomic:results"@);
        lemma_obj_get_set(m1, "jsonapi"@, jv, "meta"@);
        lemma_obj_get_set(m1, "jsonapi"@, jv, "jsonapi"@);
        lemma_obj_get_set(m1, "jsonapi"@, jv, "links"@);
    }
    if let Some(l) = r.links {
        lemma_links_round_trip(l);
        lemma_obj_get_set(m2, "links"@, links_json(l), "atomic:results"@);
        lemma_obj_get_set(m2, "links"@, links_json(l), "meta"@);
        lemma_obj_get_set(m2, "links"@, links_json(l), "jsonapi"@);
        lemma_obj_get_set(m2, "links"@, links_json(l), "links"@);
    }
}

} // verus!
