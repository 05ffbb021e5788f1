use jsonapi_core::{
    Document, DocumentBuilder, JsonNumber, JsonObject, JsonValue, Link, Links, PrimaryData,
    Resource, StrMap,
};

fn from_serde(v: &serde_json::Value) -> JsonValue {
    match v {
        serde_json::Value::Null => JsonValue::Null,
        serde_json::Value::Bool(b) => JsonValue::Bool(*b),
        serde_json::Value::Number(n) => JsonValue::Number(JsonNumber { text: n.to_string() }),
        serde_json::Value::String(s) => JsonValue::String(s.clone()),
        serde_json::Value::Array(a) => JsonValue::Array(a.iter().map(from_serde).collect()),
        serde_json::Value::Object(m) => JsonValue::Object(JsonObject {
            members: m.iter().map(|(k, v)| (k.clone(), from_serde(v))).collect(),
        }),
    }
}

fn parse(text: &str) -> JsonValue {
    from_serde(&serde_json::from_str(text).unwrap())
}

fn res(type_: &str, id: &str) -> Resource {
    Resource {
        type_: type_.into(),
        id: Some(id.into()),
        lid: None,
        attributes: parse("{}"),
        relationships: StrMap::new(),
        links: None,
        meta: None,
    }
}

#[test]
fn builds_single_data_document() {
    let doc = DocumentBuilder::single(res("articles", "1")).build();
    match doc {
        Document::Data {
            data: PrimaryData::Single(_),
            included,
            ..
        } => {
            assert!(included.is_empty());
        }
        _ => panic!("expected single data document"),
    }
}

#[test]
fn builds_collection_document() {
    let doc =
        DocumentBuilder::collection(vec![res("articles", "1"), res("articles", "2")]).build();
    assert!(
        matches!(doc, Document::Data { data: PrimaryData::Many(ref v), .. } if v.len() == 2)
    );
}

#[test]
fn include_dedups_by_type_and_id() {
    let doc = DocumentBuilder::single(res("articles", "1"))
        .include_resource(res("people", "9"))
        .include_resource(res("people", "9"))
        .build();
    match doc {
        Document::Data { included, .. } => assert_eq!(included.len(), 1),
        _ => panic!(),
    }
}

#[test]
fn include_skips_resource_equal_to_primary() {
    let doc = DocumentBuilder::single(res("articles", "1"))
        .include_resource(res("articles", "1"))
        .include_resource(res("people", "9"))
        .build();
    match doc {
        Document::Data { included, .. } => {
            assert_eq!(included.len(), 1);
            assert_eq!(included[0].type_, "people");
        }
        _ => panic!(),
    }
}

#[test]
fn no_data_builds_null_primary() {
    let doc = DocumentBuilder::<Resource>::new().no_data().build();
    assert!(matches!(
        doc,
        Document::Data {
            data: PrimaryData::Null,
            ..
        }
    ));
}

#[test]
fn include_skips_resource_equal_to_any_primary_in_many() {
    let doc = DocumentBuilder::collection(vec![res("articles", "1"), res("articles", "2")])
        .include_resource(res("articles", "2")) // duplicates a primary in the Many set
        .include_resource(res("people", "9"))
        .build();
    match doc {
        Document::Data { included, .. } => {
            assert_eq!(included.len(), 1);
            assert_eq!(included[0].type_, "people");
        }
        _ => panic!(),
    }
}

#[test]
fn include_many_adds_all_resources() {
    let doc = DocumentBuilder::single(res("articles", "1"))
        .include_many(vec![res("people", "9"), res("tags", "1")])
        .build();
    match doc {
        Document::Data { included, .. } => assert_eq!(included.len(), 2),
        _ => panic!(),
    }
}

#[test]
fn links_bulk_replaces_previously_added_links() {
    let replacement: Links =
        Links::from_json(&parse(r#"{"next": "/articles?page=2"}"#)).unwrap();
    let doc = DocumentBuilder::single(res("articles", "1"))
        .link("self", Link::String("/articles/1".into()))
        .links(replacement) // discards the "self" link added above
        .build();
    match doc {
        Document::Data { links, .. } => {
            let links = links.unwrap();
            assert!(links.contains("next"));
            assert!(!links.contains("self"));
        }
        _ => panic!(),
    }
}

#[test]
fn accumulates_links_meta_jsonapi_profile_ext() {
    let doc = DocumentBuilder::single(res("articles", "1"))
        .link("self", Link::String("/articles/1".into()))
        .profile("https://example.com/p1")
        .ext("https://example.com/e1")
        .build();
    match doc {
        Document::Data { links, jsonapi, .. } => {
            assert!(links.unwrap().contains("self"));
            let j = jsonapi.unwrap();
            assert_eq!(
                j.profile.unwrap(),
                vec!["https://example.com/p1".to_string()]
            );
            assert_eq!(j.ext.unwrap(), vec!["https://example.com/e1".to_string()]);
        }
        _ => panic!(),
    }
}

#[test]
fn lid_only_includes_are_all_kept() {
    let mut draft = res("drafts", "x");
    draft.id = None;
    draft.lid = Some("t1".into());
    let doc = DocumentBuilder::single(res("articles", "1"))
        .include_resource(draft.clone())
        .include_resource(draft)
        .build();
    match doc {
        Document::Data { included, .. } => assert_eq!(included.len(), 2),
        _ => panic!(),
    }
}

#[test]
fn meta_and_jsonapi_are_carried_into_the_document() {
    let meta = match parse(r#"{"total": 3}"#) {
        JsonValue::Object(o) => o,
        _ => unreachable!(),
    };
    let doc = DocumentBuilder::single(res("articles", "1"))
        .meta(meta)
        .jsonapi(jsonapi_core::JsonApiObject {
            version: Some("1.1".into()),
            ext: None,
            profile: None,
            meta: None,
        })
        .ext("https://example.com/e1")
        .build();
    match doc {
        Document::Data { meta, jsonapi, .. } => {
            assert!(meta.unwrap().contains_key("total"));
            let j = jsonapi.unwrap();
            assert_eq!(j.version.as_deref(), Some("1.1"));
            assert_eq!(j.ext.unwrap(), vec!["https://example.com/e1".to_string()]);
            assert!(j.profile.is_none());
        }
        _ => panic!(),
    }
}

#[test]
fn kept_includes_are_the_first_of_each_new_key_in_order() {
    let mut draft = res("people", "0");
    draft.id = None;
    draft.lid = Some("d".into());
    let doc = DocumentBuilder::single(res("articles", "1"))
        .include_resource(res("people", "9"))
        .include_resource(res("articles", "1"))
        .include_resource(draft.clone())
        .include_resource(res("tags", "3"))
        .include_resource(res("people", "9"))
        .include_resource(draft)
        .build();
    match doc {
        Document::Data { included, .. } => {
            let keys: Vec<(String, Option<String>)> =
                included.iter().map(|r| (r.type_.clone(), r.id.clone())).collect();
            assert_eq!(
                keys,
                vec![
                    ("people".to_string(), Some("9".to_string())),
                    ("people".to_string(), None),
                    ("tags".to_string(), Some("3".to_string())),
                    ("people".to_string(), None),
                ]
            );
        }
        _ => panic!("expected a data document"),
    }
}
