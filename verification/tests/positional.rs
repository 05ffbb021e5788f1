use jsonapi_core::{
    ApiError, AtomicOperation, AtomicRequest, AtomicResponse, AtomicResult, ErrorLinks,
    ErrorSource, Hreflang, Identity, JsonApiObject, JsonNumber, JsonObject, JsonValue, Link,
    OperationRef, OperationTarget, Relationship, RelationshipData, Resource, ResourceIdentifier,
};

fn from_serde(v: &serde_json::Value) -> JsonValue {
    match v {
        serde_json::Value::Null => JsonValue::Null,
        serde_json::Value::Bool(b) => JsonValue::Bool(*b),
        serde_json::Value::Number(n) => JsonValue::Number(JsonNumber { text: n.to_string() }),
        serde_json::Value::String(s) => JsonValue::String(s.clone()),
        serde_json::Value::Array(a) => JsonValue::Array(a.iter().map(from_serde).collect()),
        serde_json::Value::Object(m) => JsonValue::Object(JsonObject {
            members: m.iter().map(|(k, v)| (k.clone(), from_serde(v))).collect(),
        }),
    }
}

fn parse(text: &str) -> JsonValue {
    from_serde(&serde_json::from_str(text).unwrap())
}

#[test]
fn identifier_reads_from_an_array_by_position() {
    let rid = ResourceIdentifier::from_json(&parse(r#"["people","1"]"#)).unwrap();
    assert_eq!(rid.type_, "people");
    assert_eq!(rid.identity, Identity::Id("1".to_string()));
    assert!(rid.meta.is_none());

    let rid = ResourceIdentifier::from_json(&parse(r#"["people",null,"tmp",{"a":1}]"#)).unwrap();
    assert_eq!(rid.identity, Identity::Lid("tmp".to_string()));
    assert!(rid.meta.is_some());
}

#[test]
fn identifier_array_shape_errors() {
    // No identity at all, both identities, too few and too many elements.
    assert!(ResourceIdentifier::from_json(&parse(r#"["people"]"#)).is_err());
    assert!(ResourceIdentifier::from_json(&parse(r#"["people","1","tmp"]"#)).is_err());
    assert!(ResourceIdentifier::from_json(&parse("[]")).is_err());
    assert!(ResourceIdentifier::from_json(&parse(r#"["people","1",null,null,null]"#)).is_err());
    assert!(ResourceIdentifier::from_json(&parse(r#"[1,"1"]"#)).is_err());
}

#[test]
fn operation_ref_reads_from_an_array_by_position() {
    let r = OperationRef::from_json(&parse(r#"["articles","1",null,"author"]"#)).unwrap();
    assert_eq!(r.type_, "articles");
    assert_eq!(r.identity, Identity::Id("1".to_string()));
    assert_eq!(r.relationship.as_deref(), Some("author"));
    assert!(OperationRef::from_json(&parse(r#"["articles"]"#)).is_err());
}

#[test]
fn jsonapi_object_reads_from_an_array_of_four() {
    let j = JsonApiObject::from_json(&parse(r#"["1.1",["https://x/ext"],null,null]"#)).unwrap();
    assert_eq!(j.version.as_deref(), Some("1.1"));
    assert_eq!(j.ext, Some(vec!["https://x/ext".to_string()]));
    assert!(j.profile.is_none());
    assert!(j.meta.is_none());
    assert!(JsonApiObject::from_json(&parse(r#"["1.1"]"#)).is_err());
    assert!(JsonApiObject::from_json(&parse(r#"[null,null,null,null,null]"#)).is_err());
}

#[test]
fn error_parts_read_from_arrays() {
    let s = ErrorSource::from_json(&parse(r#"["/data",null,"X-Header"]"#)).unwrap();
    assert_eq!(s.pointer.as_deref(), Some("/data"));
    assert!(s.parameter.is_none());
    assert_eq!(s.header.as_deref(), Some("X-Header"));
    assert!(ErrorSource::from_json(&parse(r#"["/data"]"#)).is_err());

    let l = ErrorLinks::from_json(&parse(r#"["https://about",null]"#)).unwrap();
    assert!(matches!(l.about, Some(Link::String(ref s)) if s == "https://about"));
    assert!(l.type_.is_none());
    assert!(ErrorLinks::from_json(&parse(r#"["https://about"]"#)).is_err());

    let e = ApiError::from_json(&parse(r#"["e1",null,"404",null,"Not Found",null,null,null]"#))
        .unwrap();
    assert_eq!(e.id.as_deref(), Some("e1"));
    assert_eq!(e.status.as_deref(), Some("404"));
    assert_eq!(e.title.as_deref(), Some("Not Found"));
    assert!(e.detail.is_none());
    assert!(ApiError::from_json(&parse(r#"["e1"]"#)).is_err());
}

#[test]
fn link_object_reads_from_an_array_of_seven() {
    let l = Link::from_json(&parse(
        r#"["https://a", "self", "https://schema", "A", "text/html", ["en","fr"], {"k":1}]"#,
    ))
    .unwrap();
    match l {
        Link::Object(o) => {
            assert_eq!(o.href, "https://a");
            assert_eq!(o.rel.as_deref(), Some("self"));
            assert!(matches!(o.describedby.as_deref(), Some(Link::String(s)) if s == "https://schema"));
            assert_eq!(o.title.as_deref(), Some("A"));
            assert_eq!(o.type_.as_deref(), Some("text/html"));
            assert_eq!(
                o.hreflang,
                Some(Hreflang::Multiple(vec!["en".to_string(), "fr".to_string()]))
            );
            assert!(o.meta.is_some());
        }
        _ => panic!("expected a link object"),
    }
    // A nested positional `describedby`.
    let l = Link::from_json(&parse(
        r#"["https://a",null,["https://b",null,null,null,null,null,null],null,null,null,null]"#,
    ))
    .unwrap();
    match l {
        Link::Object(o) => match o.describedby.as_deref() {
            Some(Link::Object(inner)) => assert_eq!(inner.href, "https://b"),
            _ => panic!("expected a nested link object"),
        },
        _ => panic!("expected a link object"),
    }
    assert!(Link::from_json(&parse(r#"["https://a"]"#)).is_err());
    assert!(Link::from_json(&parse(r#"[1,null,null,null,null,null,null]"#)).is_err());
}

#[test]
fn atomic_wire_types_read_from_arrays() {
    let t = OperationTarget::from_json(&parse(r#"[null,"/articles/1"]"#)).unwrap();
    assert!(t.ref_.is_none());
    assert_eq!(t.href.as_deref(), Some("/articles/1"));
    let t = OperationTarget::from_json(&parse("[]")).unwrap();
    assert!(t.ref_.is_none() && t.href.is_none());
    assert!(OperationTarget::from_json(&parse(r#"[null,null,null]"#)).is_err());

    let req = AtomicRequest::from_json(&parse(
        r#"[[{"op":"remove","ref":{"type":"articles","id":"1"}}]]"#,
    ))
    .unwrap();
    assert_eq!(req.operations.len(), 1);
    assert!(matches!(req.operations[0], AtomicOperation::Remove { .. }));
    assert!(AtomicRequest::from_json(&parse("[]")).is_err());
    assert!(AtomicRequest::from_json(&parse("[[],null]")).is_err());

    let res = AtomicResult::from_json(&parse("[]")).unwrap();
    assert!(res.data.is_none() && res.meta.is_none() && res.links.is_none());
    let res = AtomicResult::from_json(&parse(r#"[null,{"n":1}]"#)).unwrap();
    assert!(res.data.is_none());
    assert!(res.meta.is_some());
    assert!(AtomicResult::from_json(&parse("[null,null,null,null]")).is_err());

    let resp = AtomicResponse::from_json(&parse(r#"[[{}, []]]"#)).unwrap();
    assert_eq!(resp.results.len(), 2);
    assert!(resp.results.iter().all(|r| r.data.is_none()));
    assert!(AtomicResponse::from_json(&parse("[]")).is_err());
    let resp = AtomicResponse::from_json(&parse(r#"[[], {"version":"1.1"}]"#)).unwrap();
    assert_eq!(resp.jsonapi.and_then(|j| j.version).as_deref(), Some("1.1"));
}

#[test]
fn relationship_reads_and_writes_its_json_form() {
    let r = Relationship::<Resource>::from_json(&parse(
        r#"{"data":{"type":"people","id":"9"},"links":{"self":"/articles/1/relationships/author"}}"#,
    ))
    .unwrap();
    assert!(matches!(r.data, RelationshipData::ToOne(Some(ref rid)) if rid.type_ == "people"));
    assert!(r.links.as_ref().unwrap().get("self").is_some());
    assert!(r.meta.is_none());

    let r = Relationship::<Resource>::from_json(&parse(r#"{"data":null,"meta":null}"#)).unwrap();
    assert!(matches!(r.data, RelationshipData::ToOne(None)));
    assert!(r.meta.is_none());

    // `data` must be there.
    assert!(Relationship::<Resource>::from_json(&parse(r#"{"links":{}}"#)).is_err());
    // Positional: exactly three fields.
    let r = Relationship::<Resource>::from_json(&parse(r#"[[], null, {"n":1}]"#)).unwrap();
    assert!(matches!(r.data, RelationshipData::ToMany(ref v) if v.is_empty()));
    assert!(r.meta.is_some());
    assert!(Relationship::<Resource>::from_json(&parse("[null]")).is_err());

    let written = Relationship::<Resource>::new(RelationshipData::ToMany(vec![])).to_json();
    assert_eq!(written, parse(r#"{"data":[]}"#));
}
