use jsonapi_core::{
    ApiError, Hreflang, Identity, JsonApiObject, JsonNumber, JsonObject, JsonValue, Link, Links,
    Relationship, RelationshipData, Resource, ResourceIdentifier, ResourceObject, StrMap,
};

fn from_serde(v: &serde_json::Value) -> JsonValue {
    match v {
        serde_json::Value::Null => JsonValue::Null,
        serde_json::Value::Bool(b) => JsonValue::Bool(*b),
        serde_json::Value::Number(n) => JsonValue::Number(JsonNumber { text: n.to_string() }),
        serde_json::Value::String(s) => JsonValue::String(s.clone()),
        serde_json::Value::Array(a) => JsonValue::Array(a.iter().map(from_serde).collect()),
        serde_json::Value::Object(m) => JsonValue::Object(JsonObject {
            members: m.iter().map(|(k, v)| (k.clone(), from_serde(v))).collect(),
        }),
    }
}

fn to_serde(v: &JsonValue) -> serde_json::Value {
    match v {
        JsonValue::Null => serde_json::Value::Null,
        JsonValue::Bool(b) => serde_json::Value::Bool(*b),
        JsonValue::Number(n) => serde_json::from_str(&n.text).unwrap(),
        JsonValue::String(s) => serde_json::Value::String(s.clone()),
        JsonValue::Array(a) => serde_json::Value::Array(a.iter().map(to_serde).collect()),
        JsonValue::Object(o) => {
            let mut m = serde_json::Map::new();
            for (k, v) in &o.members {
                m.insert(k.clone(), to_serde(v));
            }
            serde_json::Value::Object(m)
        }
    }
}

fn parse(text: &str) -> JsonValue {
    from_serde(&serde_json::from_str(text).unwrap())
}

fn json(text: &str) -> serde_json::Value {
    serde_json::from_str(text).unwrap()
}


// --- Identity / ResourceIdentifier ---

#[test]
fn test_identity_as_id_variant() {
    let id = Identity::Id("42".into());
    assert_eq!(id.as_id(), Some("42"));
    assert_eq!(id.as_lid(), None);
}

#[test]
fn test_identity_as_lid_variant() {
    let lid = Identity::Lid("local-1".into());
    assert_eq!(lid.as_id(), None);
    assert_eq!(lid.as_lid(), Some("local-1"));
}

#[test]
fn test_resource_identifier_new_builds_id() {
    let rid = ResourceIdentifier::new("people", "1");
    assert_eq!(rid.type_, "people");
    assert_eq!(rid.identity, Identity::Id("1".into()));
    assert_eq!(rid.meta, None);
    assert_eq!(to_serde(&rid.to_json()), json(r#"{"type":"people","id":"1"}"#));
}

#[test]
fn test_resource_identifier_with_lid_builds_lid() {
    let rid = ResourceIdentifier::with_lid("people", "local-1");
    assert_eq!(rid.type_, "people");
    assert_eq!(rid.identity, Identity::Lid("local-1".into()));
    assert_eq!(rid.meta, None);
    assert_eq!(to_serde(&rid.to_json()), json(r#"{"type":"people","lid":"local-1"}"#));
}

#[test]
fn test_resource_identifier_many_builds_shared_type_ids() {
    let rids = ResourceIdentifier::many("tags", &["1", "2", "3"]);
    assert_eq!(rids.len(), 3);
    assert!(rids.iter().all(|r| r.type_ == "tags"));
    assert_eq!(rids[2].identity, Identity::Id("3".into()));
}

#[test]
fn test_resource_identifier_require_id_ok_for_id() {
    let rid = ResourceIdentifier::new("people", "9");
    assert_eq!(rid.require_id().unwrap(), "9");
}

#[test]
fn test_resource_identifier_require_id_errors_for_lid() {
    let rid = ResourceIdentifier::with_lid("people", "local-1");
    assert!(matches!(rid.require_id(), Err(jsonapi_core::Error::LidNotIndexed)));
}

#[test]
fn test_resource_identifier_with_id() {
    let text = r#"{"type":"people","id":"1"}"#;
    let rid = ResourceIdentifier::from_json(&parse(text)).unwrap();
    assert_eq!(rid.type_, "people");
    assert_eq!(rid.identity, Identity::Id("1".into()));
    assert_eq!(rid.meta, None);
    assert_eq!(to_serde(&rid.to_json()), json(text));
}

#[test]
fn test_resource_identifier_with_lid() {
    let text = r#"{"type":"people","lid":"local-1"}"#;
    let rid = ResourceIdentifier::from_json(&parse(text)).unwrap();
    assert_eq!(rid.identity, Identity::Lid("local-1".into()));
    assert_eq!(to_serde(&rid.to_json()), json(text));
}

#[test]
fn test_resource_identifier_with_meta() {
    let text = r#"{"type":"articles","id":"5","meta":{"created":true}}"#;
    let rid = ResourceIdentifier::from_json(&parse(text)).unwrap();
    assert_eq!(rid.type_, "articles");
    assert!(rid.meta.is_some());
    assert_eq!(rid.meta.as_ref().unwrap().get("created"), Some(&JsonValue::Bool(true)));
}

#[test]
fn test_resource_identifier_missing_identity() {
    let result = ResourceIdentifier::from_json(&parse(r#"{"type":"people"}"#));
    assert!(result.is_err());
}

#[test]
fn test_resource_identifier_rejects_both_id_and_lid() {
    let result = ResourceIdentifier::from_json(&parse(r#"{"type":"people","id":"1","lid":"local-1"}"#));
    assert!(result.is_err());
}

#[test]
fn test_resource_identifier_empty_id() {
    let rid = ResourceIdentifier::from_json(&parse(r#"{"type":"people","id":""}"#)).unwrap();
    assert_eq!(rid.identity, Identity::Id("".into()));
}

#[test]
fn resource_identifier_rejects_non_string_type() {
    assert!(ResourceIdentifier::from_json(&parse(r#"{"type":1,"id":"1"}"#)).is_err());
    assert!(ResourceIdentifier::from_json(&parse(r#"[1,"1"]"#)).is_err());
}

// --- Link / Links / Hreflang ---

#[test]
fn test_link_string() {
    let text = r#""http://example.com/articles/1""#;
    let link = Link::from_json(&parse(text)).unwrap();
    assert!(matches!(link, Link::String(_)));
    assert_eq!(to_serde(&link.to_json()), json(text));
}

#[test]
fn test_link_object() {
    let text = r#"{"href":"http://example.com","title":"Example"}"#;
    let link = Link::from_json(&parse(text)).unwrap();
    match &link {
        Link::Object(obj) => {
            assert_eq!(obj.href, "http://example.com");
            assert_eq!(obj.title.as_deref(), Some("Example"));
        }
        _ => panic!("expected Link::Object"),
    }
}

#[test]
fn test_links_with_null_value() {
    let text = r#"{"self":"http://example.com","related":null}"#;
    let links = Links::from_json(&parse(text)).unwrap();
    assert!(links.0.get("self").unwrap().is_some());
    assert!(links.0.get("related").unwrap().is_none());
}

#[test]
fn test_hreflang_single() {
    let text = r#""en""#;
    let h = Hreflang::from_json(&parse(text)).unwrap();
    assert!(matches!(h, Hreflang::Single(ref s) if s == "en"));
    assert_eq!(to_serde(&h.to_json()), json(text));
}

#[test]
fn test_hreflang_multiple() {
    let h = Hreflang::from_json(&parse(r#"["en","fr"]"#)).unwrap();
    assert!(matches!(h, Hreflang::Multiple(ref v) if v.len() == 2));
}

#[test]
fn test_link_object_with_describedby() {
    let text = r#"{"href":"http://example.com","describedby":"http://schema.example.com"}"#;
    let link = Link::from_json(&parse(text)).unwrap();
    match link {
        Link::Object(obj) => {
            assert!(matches!(obj.describedby.as_deref(), Some(Link::String(_))));
        }
        _ => panic!("expected Link::Object"),
    }
}

#[test]
fn link_object_without_href_is_rejected() {
    assert!(Link::from_json(&parse(r#"{"title":"x"}"#)).is_err());
    assert!(Link::from_json(&parse("3")).is_err());
}

fn sample_links() -> Links {
    let text = r#"{
        "self": "http://example.com/articles/1",
        "related": null,
        "next": {"href": "http://example.com/articles?page=2", "title": "Next page"}
    }"#;
    Links::from_json(&parse(text)).unwrap()
}

#[test]
fn links_new_is_empty() {
    let links = Links::new();
    assert!(links.is_empty());
    assert_eq!(links.len(), 0);
}

#[test]
fn links_default_matches_new() {
    assert_eq!(Links::default(), Links::new());
}

#[test]
fn links_contains_returns_true_for_null_entry() {
    let links = sample_links();
    assert!(links.contains("self"));
    assert!(links.contains("related"));
    assert!(links.contains("next"));
    assert!(!links.contains("missing"));
}

#[test]
fn links_get_returns_link_for_present_non_null() {
    let links = sample_links();
    match links.get("self") {
        Some(Link::String(s)) => assert_eq!(s, "http://example.com/articles/1"),
        other => panic!("expected Link::String, got {other:?}"),
    }
    assert!(matches!(links.get("next"), Some(Link::Object(_))));
}

#[test]
fn links_get_returns_none_for_null_entry() {
    let links = sample_links();
    assert!(links.get("related").is_none());
}

#[test]
fn links_get_returns_none_for_missing_key() {
    let links = sample_links();
    assert!(links.get("missing").is_none());
}

#[test]
fn links_iter_skips_null_entries() {
    let links = sample_links();
    let names: Vec<&str> = links.iter().into_iter().map(|(k, _)| k).collect();
    assert_eq!(names, vec!["next", "self"]);
}

#[test]
fn links_keys_includes_null_entries() {
    let links = sample_links();
    let names: Vec<&str> = links.keys();
    assert_eq!(names, vec!["next", "related", "self"]);
}

#[test]
fn links_len_counts_all_entries() {
    let links = sample_links();
    assert_eq!(links.len(), 3);
    assert!(!links.is_empty());
}

#[test]
fn links_round_trip_through_json() {
    let links = sample_links();
    let again = Links::from_json(&links.to_json()).unwrap();
    assert_eq!(again, links);
    assert_eq!(
        to_serde(&links.to_json()),
        json(r#"{"self":"http://example.com/articles/1","related":null,"next":{"href":"http://example.com/articles?page=2","title":"Next page"}}"#)
    );
}

#[test]
fn links_insert_keeps_names_sorted() {
    let mut links = Links::new();
    links.insert("self", Some(Link::String("/a".into())));
    links.insert("next", None);
    links.insert("first", Some(Link::String("/f".into())));
    links.insert("self", Some(Link::String("/b".into())));
    assert_eq!(links.keys(), vec!["first", "next", "self"]);
    assert_eq!(links.get("self"), Some(&Link::String("/b".into())));
}

// --- RelationshipData / Relationship ---

#[test]
fn test_relationship_data_to_one() {
    let text = r#"{"type":"people","id":"9"}"#;
    let data = RelationshipData::from_json(&parse(text)).unwrap();
    match &data {
        RelationshipData::ToOne(Some(rid)) => {
            assert_eq!(rid.type_, "people");
            assert_eq!(rid.identity, Identity::Id("9".into()));
        }
        _ => panic!("expected ToOne(Some(...))"),
    }
    assert_eq!(to_serde(&data.to_json()), json(text));
}

#[test]
fn test_relationship_data_to_one_null() {
    let data = RelationshipData::from_json(&parse("null")).unwrap();
    assert!(matches!(data, RelationshipData::ToOne(None)));
    assert_eq!(to_serde(&data.to_json()), json("null"));
}

#[test]
fn test_relationship_data_to_many() {
    let text = r#"[{"type":"tags","id":"1"},{"type":"tags","id":"2"}]"#;
    let data = RelationshipData::from_json(&parse(text)).unwrap();
    match &data {
        RelationshipData::ToMany(rids) => assert_eq!(rids.len(), 2),
        _ => panic!("expected ToMany"),
    }
    assert_eq!(to_serde(&data.to_json()), json(text));
}

#[test]
fn test_relationship_data_to_many_empty() {
    let data = RelationshipData::from_json(&parse("[]")).unwrap();
    assert!(matches!(data, RelationshipData::ToMany(ref v) if v.is_empty()));
}

fn rid(type_: &str, id: &str) -> ResourceIdentifier {
    ResourceIdentifier { type_: type_.into(), identity: Identity::Id(id.into()), meta: None }
}

fn lid_rid(type_: &str, lid: &str) -> ResourceIdentifier {
    ResourceIdentifier { type_: type_.into(), identity: Identity::Lid(lid.into()), meta: None }
}

struct Target;

#[test]
fn relationship_ids_skips_null_to_one() {
    let rel: Relationship<Target> = Relationship::new(RelationshipData::ToOne(None));
    let collected: Vec<&str> = rel.ids();
    assert!(collected.is_empty());
}

#[test]
fn relationship_ids_returns_single_id_for_to_one() {
    let rel: Relationship<Target> =
        Relationship::new(RelationshipData::ToOne(Some(rid("people", "9"))));
    let collected: Vec<&str> = rel.ids();
    assert_eq!(collected, vec!["9"]);
}

#[test]
fn relationship_ids_returns_all_ids_for_to_many() {
    let rel: Relationship<Target> = Relationship::new(RelationshipData::ToMany(vec![
        rid("tags", "1"),
        rid("tags", "2"),
        rid("tags", "3"),
    ]));
    let collected: Vec<&str> = rel.ids();
    assert_eq!(collected, vec!["1", "2", "3"]);
}

#[test]
fn relationship_ids_skips_lid_entries() {
    let rel: Relationship<Target> = Relationship::new(RelationshipData::ToMany(vec![
        rid("tags", "1"),
        lid_rid("tags", "local-a"),
        rid("tags", "3"),
    ]));
    let collected: Vec<&str> = rel.ids();
    assert_eq!(collected, vec!["1", "3"]);
}

#[test]
fn relationship_first_id_for_to_one() {
    let rel: Relationship<Target> =
        Relationship::new(RelationshipData::ToOne(Some(rid("people", "9"))));
    assert_eq!(rel.first_id(), Some("9"));
}

#[test]
fn relationship_first_id_for_null_to_one_is_none() {
    let rel: Relationship<Target> = Relationship::new(RelationshipData::ToOne(None));
    assert_eq!(rel.first_id(), None);
}

#[test]
fn relationship_first_id_for_to_many_returns_first() {
    let rel: Relationship<Target> = Relationship::new(RelationshipData::ToMany(vec![
        rid("tags", "first"),
        rid("tags", "second"),
    ]));
    assert_eq!(rel.first_id(), Some("first"));
}

#[test]
fn relationship_first_id_for_empty_to_many_is_none() {
    let rel: Relationship<Target> = Relationship::new(RelationshipData::ToMany(vec![]));
    assert_eq!(rel.first_id(), None);
}

#[test]
fn relationship_first_id_skips_lid_only_to_one() {
    let rel: Relationship<Target> =
        Relationship::new(RelationshipData::ToOne(Some(lid_rid("tags", "local"))));
    assert_eq!(rel.first_id(), None);
}

#[test]
fn relationship_identifiers_for_null_to_one_is_empty() {
    let rel: Relationship<Target> = Relationship::new(RelationshipData::ToOne(None));
    assert!(rel.identifiers().is_empty());
}

#[test]
fn relationship_identifiers_for_to_one_has_one_element() {
    let rel: Relationship<Target> =
        Relationship::new(RelationshipData::ToOne(Some(rid("people", "9"))));
    let slice = rel.identifiers();
    assert_eq!(slice.len(), 1);
    assert_eq!(slice[0].type_, "people");
}

#[test]
fn relationship_identifiers_for_to_many_returns_all() {
    let rel: Relationship<Target> = Relationship::new(RelationshipData::ToMany(vec![
        rid("tags", "1"),
        lid_rid("tags", "local"),
    ]));
    assert_eq!(rel.identifiers().len(), 2);
}

#[test]
fn relationship_first_id_or_lid_returns_id() {
    let rel: Relationship<Target> =
        Relationship::new(RelationshipData::ToOne(Some(rid("tags", "42"))));
    assert_eq!(rel.first_id_or_lid(), Some("42"));
}

#[test]
fn relationship_first_id_or_lid_returns_lid_when_that_is_all_there_is() {
    let rel: Relationship<Target> =
        Relationship::new(RelationshipData::ToOne(Some(lid_rid("tags", "local-a"))));
    assert_eq!(rel.first_id_or_lid(), Some("local-a"));
}

#[test]
fn relationship_first_id_or_lid_returns_first_of_to_many() {
    let rel: Relationship<Target> = Relationship::new(RelationshipData::ToMany(vec![
        lid_rid("tags", "local"),
        rid("tags", "server-id"),
    ]));
    assert_eq!(rel.first_id_or_lid(), Some("local"));
}

// --- Resource ---

fn article(attributes: &str) -> Resource {
    Resource {
        type_: "articles".into(),
        id: Some("1".into()),
        lid: None,
        attributes: parse(attributes),
        relationships: StrMap::new(),
        links: None,
        meta: None,
    }
}

#[test]
fn test_resource_deserialize_simple() {
    let text = r#"{
        "type": "articles",
        "id": "1",
        "attributes": {
            "title": "Rails is Omakase"
        }
    }"#;
    let resource = Resource::from_json(&parse(text)).unwrap();
    assert_eq!(resource.type_, "articles");
    assert_eq!(resource.id.as_deref(), Some("1"));
    assert_eq!(to_serde(&resource.attributes)["title"], "Rails is Omakase");
}

#[test]
fn test_resource_serialize_simple() {
    let resource = article(r#"{"title": "Hello"}"#);
    let out = to_serde(&resource.to_json());
    assert_eq!(out["type"], "articles");
    assert_eq!(out["id"], "1");
    assert_eq!(out["attributes"]["title"], "Hello");
    assert!(out.get("relationships").is_none());
}

#[test]
fn test_resource_with_relationships() {
    let text = r#"{
        "type": "articles",
        "id": "1",
        "attributes": {"title": "Hello"},
        "relationships": {
            "author": {
                "data": {"type": "people", "id": "9"}
            }
        }
    }"#;
    let resource = Resource::from_json(&parse(text)).unwrap();
    assert!(resource.relationships.contains_key("author"));
    match resource.relationships.get("author").unwrap() {
        RelationshipData::ToOne(Some(rid)) => {
            assert_eq!(rid.type_, "people");
            assert_eq!(rid.identity, Identity::Id("9".into()));
        }
        _ => panic!("expected to-one relationship"),
    }
}

#[test]
fn test_resource_round_trip() {
    let resource = article(r#"{"title": "Hello"}"#);
    let deserialized = Resource::from_json(&resource.to_json()).unwrap();
    assert_eq!(resource.type_, deserialized.type_);
    assert_eq!(resource.id, deserialized.id);
    assert_eq!(resource.attributes, deserialized.attributes);
}

#[test]
fn test_resource_with_lid() {
    let text = r#"{"type":"articles","lid":"temp-1","attributes":{}}"#;
    let resource = Resource::from_json(&parse(text)).unwrap();
    assert_eq!(resource.lid.as_deref(), Some("temp-1"));
    assert!(resource.id.is_none());
}

#[test]
fn test_resource_object_trait() {
    let resource = article("{}");
    assert_eq!(resource.resource_type(), "articles");
    assert_eq!(resource.resource_id(), Some("1"));
}

#[test]
fn resource_without_type_is_rejected() {
    assert!(Resource::from_json(&parse(r#"{"id":"1"}"#)).is_err());
}

// --- JsonApiObject ---

#[test]
fn test_jsonapi_object_version_only() {
    let text = r#"{"version":"1.1"}"#;
    let obj = JsonApiObject::from_json(&parse(text)).unwrap();
    assert_eq!(obj.version.as_deref(), Some("1.1"));
    assert_eq!(to_serde(&obj.to_json()), json(text));
}

#[test]
fn test_jsonapi_object_with_ext_and_profile() {
    let text = r#"{"version":"1.1","ext":["http://example.com/ext/1"],"profile":["http://example.com/profile/1"]}"#;
    let obj = JsonApiObject::from_json(&parse(text)).unwrap();
    assert_eq!(obj.ext.as_ref().unwrap().len(), 1);
    assert_eq!(obj.profile.as_ref().unwrap().len(), 1);
    assert_eq!(to_serde(&obj.to_json()), json(text));
}

// --- ApiError ---

#[test]
fn test_api_error_round_trip() {
    let text = r#"{"status":"404","title":"Not Found","detail":"Article 99 not found"}"#;
    let err = ApiError::from_json(&parse(text)).unwrap();
    assert_eq!(err.status.as_deref(), Some("404"));
    assert_eq!(err.title.as_deref(), Some("Not Found"));
    assert_eq!(to_serde(&err.to_json()), json(text));
}

#[test]
fn test_api_error_with_source_pointer() {
    let text = r#"{"status":"422","source":{"pointer":"/data/attributes/title"}}"#;
    let err = ApiError::from_json(&parse(text)).unwrap();
    assert_eq!(err.source.as_ref().unwrap().pointer.as_deref(), Some("/data/attributes/title"));
}

#[test]
fn test_api_error_with_type_link() {
    let text = r#"{"status":"422","links":{"type":"http://example.com/errors/invalid"}}"#;
    let err = ApiError::from_json(&parse(text)).unwrap();
    assert!(err.links.as_ref().unwrap().type_.is_some());
}
