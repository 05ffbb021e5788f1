use jsonapi_core::{
    ApiError, Document, Error, JsonNumber, JsonObject, JsonValue, PrimaryData, Resource,
    ResourceObject, StrMap,
};

fn from_serde(v: &serde_json::Value) -> JsonValue {
    match v {
        serde_json::Value::Null => JsonValue::Null,
        serde_json::Value::Bool(b) => JsonValue::Bool(*b),
        serde_json::Value::Number(n) => JsonValue::Number(JsonNumber { text: n.to_string() }),
        serde_json::Value::String(s) => JsonValue::String(s.clone()),
        serde_json::Value::Array(a) => JsonValue::Array(a.iter().map(from_serde).collect()),
        serde_json::Value::Object(m) => JsonValue::Object(JsonObject {
            members: m.iter().map(|(k, v)| (k.clone(), from_serde(v))).collect(),
        }),
    }
}

fn to_serde(v: &JsonValue) -> serde_json::Value {
    match v {
        JsonValue::Null => serde_json::Value::Null,
        JsonValue::Bool(b) => serde_json::Value::Bool(*b),
        JsonValue::Number(n) => serde_json::from_str(&n.text).unwrap(),
        JsonValue::String(s) => serde_json::Value::String(s.clone()),
        JsonValue::Array(a) => serde_json::Value::Array(a.iter().map(to_serde).collect()),
        JsonValue::Object(o) => {
            let mut m = serde_json::Map::new();
            for (k, v) in &o.members {
                m.insert(k.clone(), to_serde(v));
            }
            serde_json::Value::Object(m)
        }
    }
}

fn parse(text: &str) -> JsonValue {
    from_serde(&serde_json::from_str(text).unwrap())
}

fn json_value(text: &str) -> serde_json::Value {
    serde_json::from_str(text).unwrap()
}



#[test]
fn test_primary_data_null() {
    let json = "null";
    let data = PrimaryData::<Resource>::from_json(&parse(json)).unwrap();
    assert!(matches!(data, PrimaryData::Null));
    assert_eq!(to_serde(&data.to_json()), json_value(json));
}

#[test]
fn test_primary_data_single() {
    let json = r#"{"type":"articles","id":"1","attributes":{"title":"Hello"}}"#;
    let data = PrimaryData::<Resource>::from_json(&parse(json)).unwrap();
    match &data {
        PrimaryData::Single(r) => assert_eq!(r.resource_type(), "articles"),
        _ => panic!("expected Single"),
    }
}

#[test]
fn test_primary_data_many() {
    let json = r#"[{"type":"articles","id":"1","attributes":{}},{"type":"articles","id":"2","attributes":{}}]"#;
    let data = PrimaryData::<Resource>::from_json(&parse(json)).unwrap();
    match &data {
        PrimaryData::Many(v) => assert_eq!(v.len(), 2),
        _ => panic!("expected Many"),
    }
}

#[test]
fn test_document_data() {
    let json = r#"{
        "data": {"type":"articles","id":"1","attributes":{"title":"Hello"}},
        "jsonapi": {"version":"1.1"}
    }"#;
    let doc = Document::from_json(&parse(json)).unwrap();
    match &doc {
        Document::Data { data, jsonapi, .. } => {
            assert!(matches!(data, PrimaryData::Single(_)));
            assert_eq!(jsonapi.as_ref().unwrap().version.as_deref(), Some("1.1"));
        }
        _ => panic!("expected Document::Data"),
    }
}

#[test]
fn test_document_data_collection() {
    let json = r#"{"data":[{"type":"articles","id":"1","attributes":{}},{"type":"articles","id":"2","attributes":{}}]}"#;
    let doc = Document::from_json(&parse(json)).unwrap();
    match &doc {
        Document::Data {
            data: PrimaryData::Many(v),
            ..
        } => assert_eq!(v.len(), 2),
        _ => panic!("expected Document::Data with Many"),
    }
}

#[test]
fn test_document_data_null() {
    let json = r#"{"data":null}"#;
    let doc = Document::from_json(&parse(json)).unwrap();
    match &doc {
        Document::Data {
            data: PrimaryData::Null,
            ..
        } => {}
        _ => panic!("expected Document::Data with Null"),
    }
}

#[test]
fn test_document_errors() {
    let json = r#"{"errors":[{"status":"404","title":"Not Found"}]}"#;
    let doc = Document::from_json(&parse(json)).unwrap();
    match &doc {
        Document::Errors { errors, .. } => {
            assert_eq!(errors.len(), 1);
            assert_eq!(errors[0].status.as_deref(), Some("404"));
        }
        _ => panic!("expected Document::Errors"),
    }
}

#[test]
fn test_document_meta_only() {
    let json = r#"{"meta":{"total":0}}"#;
    let doc = Document::from_json(&parse(json)).unwrap();
    assert!(matches!(doc, Document::Meta { .. }));
}

#[test]
fn test_document_rejects_data_and_errors() {
    let json = r#"{"data":null,"errors":[]}"#;
    let result = Document::from_json(&parse(json));
    assert!(result.is_err());
}

#[test]
fn test_document_with_included() {
    let json = r#"{
        "data": {"type":"articles","id":"1","attributes":{"title":"Hello"}},
        "included": [{"type":"people","id":"9","attributes":{"name":"Dan"}}]
    }"#;
    let doc = Document::from_json(&parse(json)).unwrap();
    match &doc {
        Document::Data { included, .. } => {
            assert_eq!(included.len(), 1);
            assert_eq!(included[0].resource_type(), "people");
        }
        _ => panic!("expected Document::Data"),
    }
}

#[test]
fn test_document_data_round_trip() {
    let doc: Document<Resource> = Document::Data {
        data: PrimaryData::Single(Box::new(Resource {
            type_: "articles".into(),
            id: Some("1".into()),
            lid: None,
            attributes: parse(r#"{"title": "Hello"}"#),
            relationships: StrMap::new(),
            links: None,
            meta: None,
        })),
        included: vec![],
        meta: None,
        jsonapi: None,
        links: None,
    };
    let deserialized = Document::from_json(&doc.to_json()).unwrap();
    match (&doc, &deserialized) {
        (Document::Data { data: d1, .. }, Document::Data { data: d2, .. }) => match (d1, d2) {
            (PrimaryData::Single(a), PrimaryData::Single(b)) => {
                assert_eq!(a.type_, b.type_);
                assert_eq!(a.id, b.id);
            }
            _ => panic!("mismatch"),
        },
        _ => panic!("mismatch"),
    }
}

#[test]
fn test_document_errors_round_trip() {
    let doc: Document<Resource> = Document::Errors {
        errors: vec![ApiError {
            id: None,
            links: None,
            status: Some("500".into()),
            code: None,
            title: Some("Internal Server Error".into()),
            detail: None,
            source: None,
            meta: None,
        }],
        meta: None,
        jsonapi: None,
        links: None,
    };
    let deserialized = Document::from_json(&doc.to_json()).unwrap();
    assert!(matches!(deserialized, Document::Errors { .. }));
}

#[test]
fn test_document_registry_with_included() {
    let json = r#"{
        "data": {"type":"articles","id":"1","attributes":{"title":"Hello"}},
        "included": [{"type":"people","id":"9","attributes":{"name":"Dan"}}]
    }"#;
    let doc = Document::from_json(&parse(json)).unwrap();
    let registry = doc.registry().unwrap();
    let person = registry.get_by_id("people", "9").unwrap();
    assert_eq!(to_serde(&person.attributes)["name"], "Dan");
}

#[test]
fn test_document_registry_empty_included() {
    let json = r#"{"data":{"type":"articles","id":"1","attributes":{}}}"#;
    let doc = Document::from_json(&parse(json)).unwrap();
    let registry = doc.registry().unwrap();
    let result = registry.get_by_id("people", "9");
    assert!(result.is_err());
}

#[test]
fn test_document_registry_errors_variant() {
    let json = r#"{"errors":[{"status":"404","title":"Not Found"}]}"#;
    let doc = Document::from_json(&parse(json)).unwrap();
    let registry = doc.registry().unwrap();
    let result = registry.get_by_id("people", "9");
    assert!(result.is_err());
}

// ----- Document accessors (improvement #1) -----

fn single_doc_json() -> &'static str {
    r#"{"data":{"type":"articles","id":"1","attributes":{"title":"Hello"}}}"#
}

fn many_doc_json() -> &'static str {
    r#"{"data":[{"type":"articles","id":"1","attributes":{}},{"type":"articles","id":"2","attributes":{}}]}"#
}

fn null_doc_json() -> &'static str {
    r#"{"data":null}"#
}

fn errors_doc_json() -> &'static str {
    r#"{"errors":[{"status":"404","title":"Not Found"}]}"#
}

fn meta_doc_json() -> &'static str {
    r#"{"meta":{"total":42}}"#
}

#[test]
fn into_single_returns_resource() {
    let doc = Document::from_json(&parse(single_doc_json())).unwrap();
    let resource = doc.into_single().unwrap();
    assert_eq!(resource.resource_type(), "articles");
    assert_eq!(resource.resource_id(), Some("1"));
}

#[test]
fn into_single_rejects_collection() {
    let doc = Document::from_json(&parse(many_doc_json())).unwrap();
    let err = doc.into_single().unwrap_err();
    match err {
        Error::UnexpectedDocumentShape { expected, found } => {
            assert_eq!(expected, "single resource");
            assert_eq!(found, "resource collection");
        }
        other => panic!("unexpected error: {other:?}"),
    }
}

#[test]
fn into_single_rejects_null() {
    let doc = Document::from_json(&parse(null_doc_json())).unwrap();
    let err = doc.into_single().unwrap_err();
    assert!(matches!(
        err,
        Error::UnexpectedDocumentShape {
            found: "null primary data",
            ..
        }
    ));
}

#[test]
fn into_single_rejects_errors() {
    let doc = Document::from_json(&parse(errors_doc_json())).unwrap();
    let err = doc.into_single().unwrap_err();
    assert!(matches!(
        err,
        Error::UnexpectedDocumentShape {
            found: "errors document",
            ..
        }
    ));
}

#[test]
fn into_single_rejects_meta() {
    let doc = Document::from_json(&parse(meta_doc_json())).unwrap();
    let err = doc.into_single().unwrap_err();
    assert!(matches!(
        err,
        Error::UnexpectedDocumentShape {
            found: "meta-only document",
            ..
        }
    ));
}

#[test]
fn into_many_returns_collection() {
    let doc = Document::from_json(&parse(many_doc_json())).unwrap();
    let resources = doc.into_many().unwrap();
    assert_eq!(resources.len(), 2);
    assert_eq!(resources[0].resource_id(), Some("1"));
    assert_eq!(resources[1].resource_id(), Some("2"));
}

#[test]
fn into_many_rejects_single() {
    let doc = Document::from_json(&parse(single_doc_json())).unwrap();
    let err = doc.into_many().unwrap_err();
    assert!(matches!(
        err,
        Error::UnexpectedDocumentShape {
            expected: "resource collection",
            found: "single resource",
        }
    ));
}

#[test]
fn into_meta_returns_meta() {
    let doc = Document::from_json(&parse(meta_doc_json())).unwrap();
    let meta = doc.into_meta().unwrap();
    assert_eq!(to_serde(meta.get("total").unwrap()), 42);
}

#[test]
fn into_meta_returns_meta_from_data_doc() {
    let json =
        r#"{"data":{"type":"articles","id":"1","attributes":{}},"meta":{"page":7}}"#;
    let doc = Document::from_json(&parse(json)).unwrap();
    let meta = doc.into_meta().unwrap();
    assert_eq!(to_serde(meta.get("page").unwrap()), 7);
}

#[test]
fn into_meta_rejects_data_without_meta() {
    let doc = Document::from_json(&parse(single_doc_json())).unwrap();
    let err = doc.into_meta().unwrap_err();
    assert!(matches!(
        err,
        Error::UnexpectedDocumentShape {
            found: "data document without meta",
            ..
        }
    ));
}

#[test]
fn as_single_borrows_without_consuming() {
    let doc = Document::from_json(&parse(single_doc_json())).unwrap();
    let r1 = doc.as_single().unwrap();
    assert_eq!(r1.resource_id(), Some("1"));
    // Doc is still usable.
    let r2 = doc.as_single().unwrap();
    assert_eq!(r2.resource_id(), Some("1"));
}

#[test]
fn as_many_borrows_slice() {
    let doc = Document::from_json(&parse(many_doc_json())).unwrap();
    let slice = doc.as_many().unwrap();
    assert_eq!(slice.len(), 2);
    // Doc is still usable for further borrows.
    let _ = doc.as_many().unwrap();
}

#[test]
fn primary_returns_envelope() {
    let doc = Document::from_json(&parse(many_doc_json())).unwrap();
    match doc.primary().unwrap() {
        PrimaryData::Many(v) => assert_eq!(v.len(), 2),
        _ => panic!("expected Many"),
    }
}

#[test]
fn primary_rejects_errors() {
    let doc = Document::from_json(&parse(errors_doc_json())).unwrap();
    let err = doc.primary().unwrap_err();
    assert!(matches!(
        err,
        Error::UnexpectedDocumentShape {
            expected: "data document",
            found: "errors document",
        }
    ));
}

#[test]
fn included_returns_slice_for_data() {
    let json = r#"{
        "data": {"type":"articles","id":"1","attributes":{"title":"Hello"}},
        "included": [{"type":"people","id":"9","attributes":{"name":"Dan"}}]
    }"#;
    let doc = Document::from_json(&parse(json)).unwrap();
    assert_eq!(doc.included().len(), 1);
    assert_eq!(doc.included()[0].resource_type(), "people");
}

#[test]
fn included_returns_empty_for_errors_and_meta() {
    let errors = Document::from_json(&parse(errors_doc_json())).unwrap();
    assert!(errors.included().is_empty());

    let meta = Document::from_json(&parse(meta_doc_json())).unwrap();
    assert!(meta.included().is_empty());
}

#[test]
fn document_from_value_reports_included_type_mismatch_location() {
    let text = r#"{"data":null,"included":[{"id":"9"}]}"#;
    assert!(Document::from_value(parse(text)).is_err());
}

#[test]
fn document_without_data_errors_or_meta_is_rejected() {
    assert!(Document::from_json(&parse(r#"{"links":{"self":"/a"}}"#)).is_err());
    assert!(Document::from_json(&parse("[]")).is_err());
}

#[test]
fn document_round_trips_through_json() {
    let text = r#"{
        "data": {"type":"articles","id":"1","attributes":{"title":"Hello"},
                 "relationships":{"author":{"data":{"type":"people","id":"9"}}}},
        "included": [{"type":"people","id":"9","attributes":{"name":"Dan"}}],
        "meta": {"page": 1},
        "jsonapi": {"version": "1.1"},
        "links": {"self": "/articles/1"}
    }"#;
    let doc = Document::from_json(&parse(text)).unwrap();
    assert_eq!(to_serde(&doc.to_json()), json_value(text));
    assert_eq!(Document::from_json(&doc.to_json()).unwrap(), doc);
}

#[test]
fn prevalidate_reports_type_mismatch_with_location() {
    let v = parse(r#"{"data":[{"type":"articles","id":"1"},{"type":"people","id":"2"}]}"#);
    match jsonapi_core::model::document::prevalidate(&v, "articles").unwrap_err() {
        Error::TypeMismatch { expected, got, location } => {
            assert_eq!(expected, "articles");
            assert_eq!(got, "people");
            assert_eq!(location, "data[1]");
        }
        other => panic!("unexpected error: {other:?}"),
    }
    assert!(jsonapi_core::model::document::prevalidate(&v, "").is_ok());
}

#[test]
fn from_value_reports_malformed_relationship() {
    let v = parse(r#"{"data":{"type":"articles","id":"1","relationships":{"author":{"data":5}}}}"#);
    match Document::from_value(v).unwrap_err() {
        Error::MalformedRelationship { name, location, reason } => {
            assert_eq!(name, "author");
            assert_eq!(location, "data");
            assert!(reason.contains("number"));
        }
        other => panic!("unexpected error: {other:?}"),
    }
    let v = parse(r#"{"data":{"type":"articles","id":"1","relationships":{"author":[]}}}"#);
    assert!(matches!(Document::from_value(v).unwrap_err(), Error::MalformedRelationship { .. }));
}

#[test]
fn document_from_str_reads_json_text() {
    let doc = Document::from_str(single_doc_json()).unwrap();
    assert_eq!(doc, Document::from_json(&parse(single_doc_json())).unwrap());
    let doc = Document::from_slice(many_doc_json().as_bytes()).unwrap();
    assert_eq!(doc, Document::from_json(&parse(many_doc_json())).unwrap());
}

#[test]
fn document_from_str_rejects_text_that_is_not_json() {
    assert!(matches!(Document::from_str("{not json"), Err(Error::Json(_))));
    assert!(matches!(Document::from_slice(b"[1,"), Err(Error::Json(_))));
    assert!(matches!(Document::from_slice(&[0xff, 0xfe]), Err(Error::Json(_))));
}

#[test]
fn document_from_str_runs_the_structural_pass() {
    let text = r#"{"data":{"type":"articles","id":"1","relationships":{"author":{"data":5}}}}"#;
    match Document::from_str(text) {
        Err(Error::MalformedRelationship { name, location, .. }) => {
            assert_eq!(name, "author");
            assert_eq!(location, "data");
        }
        other => panic!("expected MalformedRelationship, got {other:?}"),
    }
    // Valid JSON of the wrong shape is a JSON error.
    assert!(matches!(Document::from_str("[]"), Err(Error::Json(_))));
}
