use jsonapi_core::{
    AtomicOperation, AtomicRequest, AtomicResponse, AtomicResult, Error, Identity, JsonApiObject,
    JsonNumber, JsonObject, JsonValue, OperationRef, OperationTarget, PrimaryData, RelationshipData,
    Resource, ResourceIdentifier, StrMap, ATOMIC_EXT_URI,
};

fn from_serde(v: &serde_json::Value) -> JsonValue {
    match v {
        serde_json::Value::Null => JsonValue::Null,
        serde_json::Value::Bool(b) => JsonValue::Bool(*b),
        serde_json::Value::Number(n) => JsonValue::Number(JsonNumber { text: n.to_string() }),
        serde_json::Value::String(s) => JsonValue::String(s.clone()),
        serde_json::Value::Array(a) => JsonValue::Array(a.iter().map(from_serde).collect()),
        serde_json::Value::Object(m) => JsonValue::Object(JsonObject {
            members: m.iter().map(|(k, v)| (k.clone(), from_serde(v))).collect(),
        }),
    }
}

fn to_serde(v: &JsonValue) -> serde_json::Value {
    match v {
        JsonValue::Null => serde_json::Value::Null,
        JsonValue::Bool(b) => serde_json::Value::Bool(*b),
        JsonValue::Number(n) => serde_json::from_str(&n.text).unwrap(),
        JsonValue::String(s) => serde_json::Value::String(s.clone()),
        JsonValue::Array(a) => serde_json::Value::Array(a.iter().map(to_serde).collect()),
        JsonValue::Object(o) => {
            let mut m = serde_json::Map::new();
            for (k, v) in &o.members {
                m.insert(k.clone(), to_serde(v));
            }
            serde_json::Value::Object(m)
        }
    }
}

fn parse(text: &str) -> JsonValue {
    from_serde(&serde_json::from_str(text).unwrap())
}

fn json(text: &str) -> serde_json::Value {
    serde_json::from_str(text).unwrap()
}

#[test]
fn atomic_ext_uri_constant() {
    assert_eq!(ATOMIC_EXT_URI, "https://jsonapi.org/ext/atomic");
}

// --- OperationRef ---

#[test]
fn serializes_with_id() {
    let r = OperationRef {
        type_: "articles".into(),
        identity: Identity::Id("1".into()),
        relationship: None,
    };
    assert_eq!(to_serde(&r.to_json()), json(r#"{"type":"articles","id":"1"}"#));
}

#[test]
fn serializes_with_lid() {
    let r = OperationRef {
        type_: "articles".into(),
        identity: Identity::Lid("local-1".into()),
        relationship: None,
    };
    assert_eq!(to_serde(&r.to_json()), json(r#"{"type":"articles","lid":"local-1"}"#));
}

#[test]
fn serializes_with_relationship() {
    let r = OperationRef {
        type_: "articles".into(),
        identity: Identity::Id("1".into()),
        relationship: Some("comments".into()),
    };
    assert_eq!(
        to_serde(&r.to_json()),
        json(r#"{"type":"articles","id":"1","relationship":"comments"}"#)
    );
}

#[test]
fn deserializes_with_id() {
    let r = OperationRef::from_json(&parse(r#"{"type":"articles","id":"1"}"#)).unwrap();
    assert_eq!(r.type_, "articles");
    assert_eq!(r.identity, Identity::Id("1".into()));
    assert_eq!(r.relationship, None);
}

#[test]
fn deserializes_with_lid() {
    let r = OperationRef::from_json(&parse(r#"{"type":"articles","lid":"local-1"}"#)).unwrap();
    assert_eq!(r.identity, Identity::Lid("local-1".into()));
}

#[test]
fn deserializes_with_relationship() {
    let r = OperationRef::from_json(&parse(
        r#"{"type":"articles","id":"1","relationship":"comments"}"#,
    ))
    .unwrap();
    assert_eq!(r.relationship, Some("comments".into()));
}

#[test]
fn rejects_missing_identity() {
    let result = OperationRef::from_json(&parse(r#"{"type":"articles"}"#));
    assert!(result.is_err());
}

#[test]
fn rejects_both_id_and_lid() {
    let result = OperationRef::from_json(&parse(r#"{"type":"articles","id":"1","lid":"local-1"}"#));
    assert!(result.is_err());
}

#[test]
fn operation_ref_round_trips() {
    let r = OperationRef {
        type_: "people".into(),
        identity: Identity::Lid("p1".into()),
        relationship: Some("friends".into()),
    };
    assert_eq!(OperationRef::from_json(&r.to_json()).unwrap(), r);
}

// --- OperationTarget ---

fn ref_only() -> OperationTarget {
    OperationTarget {
        ref_: Some(OperationRef {
            type_: "articles".into(),
            identity: Identity::Id("1".into()),
            relationship: None,
        }),
        href: None,
    }
}

fn href_only() -> OperationTarget {
    OperationTarget { ref_: None, href: Some("/articles/1".into()) }
}

fn neither() -> OperationTarget {
    OperationTarget { ref_: None, href: None }
}

fn both() -> OperationTarget {
    OperationTarget {
        ref_: Some(OperationRef {
            type_: "articles".into(),
            identity: Identity::Id("1".into()),
            relationship: None,
        }),
        href: Some("/articles/1".into()),
    }
}

#[test]
fn is_valid_ref_only() {
    assert!(ref_only().is_valid());
}

#[test]
fn is_valid_href_only() {
    assert!(href_only().is_valid());
}

#[test]
fn is_valid_neither() {
    assert!(neither().is_valid());
}

#[test]
fn is_invalid_when_both_set() {
    assert!(!both().is_valid());
}

// --- validate_lid_refs ---

fn person(lid: &str, attributes: &str) -> Resource {
    Resource {
        type_: "people".into(),
        id: None,
        lid: Some(lid.into()),
        attributes: parse(attributes),
        relationships: StrMap::new(),
        links: None,
        meta: None,
    }
}

fn add_with_lid(lid: &str) -> AtomicOperation {
    AtomicOperation::Add {
        target: OperationTarget::default(),
        data: PrimaryData::Single(Box::new(person(lid, "{}"))),
    }
}

fn update_ref_lid(lid: &str) -> AtomicOperation {
    AtomicOperation::Update {
        target: OperationTarget {
            ref_: Some(OperationRef {
                type_: "people".into(),
                identity: Identity::Lid(lid.into()),
                relationship: None,
            }),
            href: None,
        },
        data: PrimaryData::Single(Box::new(person(lid, r#"{"name": "X"}"#))),
    }
}

#[test]
fn happy_path_introduce_then_reference() {
    let req = AtomicRequest { operations: vec![add_with_lid("p1"), update_ref_lid("p1")] };
    assert!(req.validate_lid_refs().is_ok());
}

#[test]
fn empty_request_is_valid() {
    let req = AtomicRequest::default();
    assert!(req.validate_lid_refs().is_ok());
}

#[test]
fn reference_before_introduction_errors() {
    let req = AtomicRequest { operations: vec![update_ref_lid("p1"), add_with_lid("p1")] };
    match req.validate_lid_refs().unwrap_err() {
        Error::InvalidAtomicOperation { index, reason } => {
            assert_eq!(index, 0);
            assert!(reason.contains("p1"));
        }
        other => panic!("expected InvalidAtomicOperation, got {other:?}"),
    }
}

#[test]
fn unresolvable_lid_errors() {
    let req = AtomicRequest { operations: vec![update_ref_lid("ghost")] };
    match req.validate_lid_refs().unwrap_err() {
        Error::InvalidAtomicOperation { index, .. } => assert_eq!(index, 0),
        other => panic!("expected InvalidAtomicOperation, got {other:?}"),
    }
}

#[test]
fn duplicate_lid_introduction_errors() {
    let req = AtomicRequest { operations: vec![add_with_lid("p1"), add_with_lid("p1")] };
    match req.validate_lid_refs().unwrap_err() {
        Error::InvalidAtomicOperation { index, reason } => {
            assert_eq!(index, 1);
            assert!(reason.contains("duplicate"));
        }
        other => panic!("expected InvalidAtomicOperation, got {other:?}"),
    }
}

#[test]
fn target_with_both_ref_and_href_errors() {
    let req = AtomicRequest { operations: vec![AtomicOperation::Remove { target: both() }] };
    match req.validate_lid_refs().unwrap_err() {
        Error::InvalidAtomicOperation { index, reason } => {
            assert_eq!(index, 0);
            assert!(reason.contains("ref") && reason.contains("href"));
        }
        other => panic!("expected InvalidAtomicOperation, got {other:?}"),
    }
}

#[test]
fn lid_introduced_in_many_data_is_usable_later() {
    let req = AtomicRequest {
        operations: vec![
            AtomicOperation::Add {
                target: OperationTarget::default(),
                data: PrimaryData::Many(vec![person("a", "{}"), person("b", "{}")]),
            },
            update_ref_lid("b"),
        ],
    };
    assert!(req.validate_lid_refs().is_ok());
}

#[test]
fn remove_introduces_nothing() {
    let req = AtomicRequest {
        operations: vec![AtomicOperation::Remove { target: neither() }, update_ref_lid("p1")],
    };
    match req.validate_lid_refs().unwrap_err() {
        Error::InvalidAtomicOperation { index, reason } => {
            assert_eq!(index, 1);
            assert!(reason.contains("not introduced"));
        }
        other => panic!("expected InvalidAtomicOperation, got {other:?}"),
    }
}

// --- OperationTarget JSON ---

#[test]
fn serializes_ref_only() {
    let out = to_serde(&ref_only().to_json());
    assert_eq!(out["ref"]["type"], "articles");
    assert_eq!(out["ref"]["id"], "1");
    assert!(out.get("href").is_none());
}

#[test]
fn serializes_href_only() {
    let out = to_serde(&href_only().to_json());
    assert_eq!(out["href"], "/articles/1");
    assert!(out.get("ref").is_none());
}

#[test]
fn serializes_neither_as_empty_object() {
    let out = to_serde(&neither().to_json());
    assert_eq!(serde_json::to_string(&out).unwrap(), "{}");
}

#[test]
fn deserializes_ref_only() {
    let t = OperationTarget::from_json(&parse(r#"{"ref":{"type":"articles","id":"1"}}"#)).unwrap();
    assert!(t.ref_.is_some());
    assert!(t.href.is_none());
}

#[test]
fn deserializes_href_only() {
    let t = OperationTarget::from_json(&parse(r#"{"href":"/articles/1"}"#)).unwrap();
    assert!(t.ref_.is_none());
    assert_eq!(t.href.as_deref(), Some("/articles/1"));
}

#[test]
fn deserializes_empty_object() {
    let t = OperationTarget::from_json(&parse("{}")).unwrap();
    assert!(t.ref_.is_none());
    assert!(t.href.is_none());
}

#[test]
fn target_null_members_are_unset() {
    let t = OperationTarget::from_json(&parse(r#"{"ref":null,"href":null}"#)).unwrap();
    assert_eq!(t, neither());
    assert!(OperationTarget::from_json(&parse(r#"{"href":5}"#)).is_err());
}

// --- AtomicOperation JSON ---

fn sample_ref() -> OperationRef {
    OperationRef { type_: "articles".into(), identity: Identity::Id("1".into()), relationship: None }
}

fn sample_resource() -> Resource {
    Resource {
        type_: "articles".into(),
        id: None,
        lid: Some("local-1".into()),
        attributes: parse(r#"{"title": "Hello"}"#),
        relationships: StrMap::new(),
        links: None,
        meta: None,
    }
}

#[test]
fn add_op_serializes_with_lowercase_op() {
    let op = AtomicOperation::Add {
        target: OperationTarget::default(),
        data: PrimaryData::Single(Box::new(sample_resource())),
    };
    let out = to_serde(&op.to_json());
    assert_eq!(out["op"], "add");
}

#[test]
fn update_op_serializes_with_lowercase_op() {
    let op = AtomicOperation::Update {
        target: OperationTarget { ref_: Some(sample_ref()), href: None },
        data: PrimaryData::Single(Box::new(sample_resource())),
    };
    let out = to_serde(&op.to_json());
    assert_eq!(out["op"], "update");
    assert_eq!(out["ref"]["type"], "articles");
}

#[test]
fn remove_op_has_no_data_field() {
    let op = AtomicOperation::Remove { target: OperationTarget { ref_: Some(sample_ref()), href: None } };
    let out = to_serde(&op.to_json());
    assert_eq!(out["op"], "remove");
    assert_eq!(out["ref"]["id"], "1");
    assert!(out.get("data").is_none());
}

#[test]
fn deserializes_add() {
    let text = r#"{"op":"add","data":{"type":"articles","lid":"l1","attributes":{}}}"#;
    let op = AtomicOperation::from_json(&parse(text)).unwrap();
    match op {
        AtomicOperation::Add { target, data } => {
            assert!(target.ref_.is_none() && target.href.is_none());
            assert!(matches!(data, PrimaryData::Single(_)));
        }
        _ => panic!("expected Add variant"),
    }
}

#[test]
fn deserializes_update_with_ref() {
    let text = r#"{"op":"update","ref":{"type":"articles","id":"1"},"data":{"type":"articles","id":"1","attributes":{"title":"New"}}}"#;
    let op = AtomicOperation::from_json(&parse(text)).unwrap();
    match op {
        AtomicOperation::Update { target, .. } => {
            assert_eq!(target.ref_.unwrap().type_, "articles");
        }
        _ => panic!("expected Update variant"),
    }
}

#[test]
fn deserializes_remove() {
    let text = r#"{"op":"remove","ref":{"type":"articles","id":"1"}}"#;
    let op = AtomicOperation::from_json(&parse(text)).unwrap();
    assert!(matches!(op, AtomicOperation::Remove { .. }));
}

#[test]
fn rejects_unknown_op() {
    let text = r#"{"op":"frobnicate","ref":{"type":"articles","id":"1"}}"#;
    assert!(AtomicOperation::from_json(&parse(text)).is_err());
}

#[test]
fn add_without_data_is_rejected() {
    assert!(AtomicOperation::from_json(&parse(r#"{"op":"add"}"#)).is_err());
    assert!(AtomicOperation::from_json(&parse(r#"{"ref":{"type":"a","id":"1"}}"#)).is_err());
}

#[test]
fn add_many_to_relationship_round_trip() {
    let op = AtomicOperation::Add {
        target: OperationTarget {
            ref_: Some(OperationRef {
                type_: "articles".into(),
                identity: Identity::Id("1".into()),
                relationship: Some("tags".into()),
            }),
            href: None,
        },
        data: PrimaryData::Many(vec![Resource {
            type_: "tags".into(),
            id: Some("5".into()),
            lid: None,
            attributes: parse("{}"),
            relationships: StrMap::new(),
            links: None,
            meta: None,
        }]),
    };
    let out = to_serde(&op.to_json());
    assert_eq!(out["op"], "add");
    assert_eq!(out["ref"]["relationship"], "tags");
    assert_eq!(out["data"][0]["type"], "tags");

    let round = AtomicOperation::from_json(&from_serde(&out)).unwrap();
    assert_eq!(round, op);
}

// --- AtomicRequest JSON ---

#[test]
fn empty_request_round_trips() {
    let req = AtomicRequest::default();
    let out = to_serde(&req.to_json());
    assert_eq!(serde_json::to_string(&out).unwrap(), r#"{"atomic:operations":[]}"#);
    let round = AtomicRequest::from_json(&from_serde(&out)).unwrap();
    assert_eq!(round, req);
}

#[test]
fn multi_op_request_round_trips() {
    let req = AtomicRequest {
        operations: vec![
            AtomicOperation::Add {
                target: OperationTarget::default(),
                data: PrimaryData::Single(Box::new(person("p1", r#"{"name": "Dan"}"#))),
            },
            AtomicOperation::Remove {
                target: OperationTarget {
                    ref_: Some(OperationRef {
                        type_: "articles".into(),
                        identity: Identity::Id("9".into()),
                        relationship: None,
                    }),
                    href: None,
                },
            },
        ],
    };
    let out = to_serde(&req.to_json());
    assert_eq!(out["atomic:operations"].as_array().unwrap().len(), 2);
    assert_eq!(out["atomic:operations"][0]["op"], "add");
    assert_eq!(out["atomic:operations"][1]["op"], "remove");

    let round = AtomicRequest::from_json(&from_serde(&out)).unwrap();
    assert_eq!(round, req);
}

#[test]
fn missing_operations_field_is_error() {
    assert!(AtomicRequest::from_json(&parse("{}")).is_err());
}

// --- AtomicResult / AtomicResponse JSON ---

#[test]
fn empty_result_serializes_as_empty_object() {
    let r = AtomicResult::default();
    assert_eq!(serde_json::to_string(&to_serde(&r.to_json())).unwrap(), "{}");
}

#[test]
fn empty_result_deserializes_from_empty_object() {
    let r = AtomicResult::from_json(&parse("{}")).unwrap();
    assert_eq!(r, AtomicResult::default());
}

#[test]
fn result_with_single_data() {
    let mut article = person("x", r#"{"title": "Hello"}"#);
    article.type_ = "articles".into();
    article.id = Some("1".into());
    article.lid = None;
    let r = AtomicResult { data: Some(PrimaryData::Single(Box::new(article))), meta: None, links: None };
    let out = to_serde(&r.to_json());
    assert_eq!(out["data"]["type"], "articles");
    assert_eq!(out["data"]["attributes"]["title"], "Hello");
}

#[test]
fn result_with_null_data_preserves_null() {
    let r = AtomicResult { data: Some(PrimaryData::Null), meta: None, links: None };
    let out = to_serde(&r.to_json());
    assert!(out["data"].is_null());
    assert!(out.get("data").is_some());
}

#[test]
fn empty_response_round_trips() {
    let resp = AtomicResponse::default();
    let out = to_serde(&resp.to_json());
    assert_eq!(serde_json::to_string(&out).unwrap(), r#"{"atomic:results":[]}"#);
    let round = AtomicResponse::from_json(&from_serde(&out)).unwrap();
    assert_eq!(round, resp);
}

#[test]
fn response_with_results_and_meta() {
    let meta = match parse(r#"{"processed": 2}"#) {
        JsonValue::Object(o) => o,
        _ => unreachable!(),
    };
    let resp = AtomicResponse {
        results: vec![AtomicResult::default(), AtomicResult::default()],
        jsonapi: Some(JsonApiObject { version: Some("1.1".into()), ext: None, profile: None, meta: None }),
        meta: Some(meta),
        links: None,
    };
    let out = to_serde(&resp.to_json());
    assert_eq!(out["atomic:results"].as_array().unwrap().len(), 2);
    assert_eq!(out["jsonapi"]["version"], "1.1");
    assert_eq!(AtomicResponse::from_json(&from_serde(&out)).unwrap(), resp);
}

#[test]
fn response_missing_results_field_is_error() {
    assert!(AtomicResponse::from_json(&parse("{}")).is_err());
}

#[test]
fn result_null_data_reads_back_unset() {
    let r = AtomicResult { data: Some(PrimaryData::Null), meta: None, links: None };
    let back = AtomicResult::from_json(&r.to_json()).unwrap();
    assert_eq!(back.data, None);
}

fn linking(lid: &str, rel: &str, data: RelationshipData) -> Resource {
    let mut r = person(lid, "{}");
    r.relationships.insert(rel.to_string(), data);
    r
}

fn lid_rid(lid: &str) -> ResourceIdentifier {
    ResourceIdentifier { type_: "people".into(), identity: Identity::Lid(lid.into()), meta: None }
}

#[test]
fn relationship_lid_must_be_introduced_earlier() {
    // An `add` whose resource links an unknown `lid` through a to-one relationship.
    let req = AtomicRequest {
        operations: vec![AtomicOperation::Add {
            target: OperationTarget::default(),
            data: PrimaryData::Single(Box::new(linking(
                "a",
                "friend",
                RelationshipData::ToOne(Some(lid_rid("x"))),
            ))),
        }],
    };
    match req.validate_lid_refs().unwrap_err() {
        Error::InvalidAtomicOperation { index, reason } => {
            assert_eq!(index, 0);
            assert_eq!(reason, "relationship lid `x` not introduced by an earlier `add`");
        }
        other => panic!("expected InvalidAtomicOperation, got {other:?}"),
    }
}

#[test]
fn relationship_lid_introduced_earlier_is_accepted() {
    let req = AtomicRequest {
        operations: vec![
            add_with_lid("p1"),
            AtomicOperation::Add {
                target: OperationTarget::default(),
                data: PrimaryData::Single(Box::new(linking(
                    "a1",
                    "authors",
                    RelationshipData::ToMany(vec![lid_rid("p1")]),
                ))),
            },
        ],
    };
    assert!(req.validate_lid_refs().is_ok());
}

#[test]
fn relationship_lid_of_the_same_add_is_not_earlier() {
    // Introduced by the very operation that links it: not strictly earlier.
    let req = AtomicRequest {
        operations: vec![AtomicOperation::Add {
            target: OperationTarget::default(),
            data: PrimaryData::Many(vec![
                person("p1", "{}"),
                linking("a1", "author", RelationshipData::ToOne(Some(lid_rid("p1")))),
            ]),
        }],
    };
    match req.validate_lid_refs().unwrap_err() {
        Error::InvalidAtomicOperation { index, reason } => {
            assert_eq!(index, 0);
            assert!(reason.contains("p1"));
        }
        other => panic!("expected InvalidAtomicOperation, got {other:?}"),
    }
}

#[test]
fn relationship_lid_in_update_is_checked() {
    let req = AtomicRequest {
        operations: vec![
            add_with_lid("p1"),
            AtomicOperation::Update {
                target: OperationTarget::default(),
                data: PrimaryData::Single(Box::new(linking(
                    "p1",
                    "friends",
                    RelationshipData::ToMany(vec![lid_rid("p1"), lid_rid("zz")]),
                ))),
            },
        ],
    };
    match req.validate_lid_refs().unwrap_err() {
        Error::InvalidAtomicOperation { index, reason } => {
            assert_eq!(index, 1);
            assert!(reason.contains("zz"));
        }
        other => panic!("expected InvalidAtomicOperation, got {other:?}"),
    }
}
