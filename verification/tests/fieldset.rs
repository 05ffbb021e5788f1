use jsonapi_core::{sparse_filter, FieldsetConfig, JsonNumber, JsonObject, JsonValue};

fn from_serde(v: &serde_json::Value) -> JsonValue {
    match v {
        serde_json::Value::Null => JsonValue::Null,
        serde_json::Value::Bool(b) => JsonValue::Bool(*b),
        serde_json::Value::Number(n) => JsonValue::Number(JsonNumber { text: n.to_string() }),
        serde_json::Value::String(s) => JsonValue::String(s.clone()),
        serde_json::Value::Array(a) => JsonValue::Array(a.iter().map(from_serde).collect()),
        serde_json::Value::Object(m) => JsonValue::Object(JsonObject {
            members: m.iter().map(|(k, v)| (k.clone(), from_serde(v))).collect(),
        }),
    }
}

fn to_serde(v: &JsonValue) -> serde_json::Value {
    match v {
        JsonValue::Null => serde_json::Value::Null,
        JsonValue::Bool(b) => serde_json::Value::Bool(*b),
        JsonValue::Number(n) => serde_json::from_str(&n.text).unwrap(),
        JsonValue::String(s) => serde_json::Value::String(s.clone()),
        JsonValue::Array(a) => serde_json::Value::Array(a.iter().map(to_serde).collect()),
        JsonValue::Object(o) => {
            let mut m = serde_json::Map::new();
            for (k, v) in &o.members {
                m.insert(k.clone(), to_serde(v));
            }
            serde_json::Value::Object(m)
        }
    }
}

fn json(text: &str) -> serde_json::Value {
    serde_json::from_str(text).unwrap()
}



#[test]
fn test_fieldset_config_new() {
    let config = FieldsetConfig::new();
    assert!(!config.has_type("articles"));
}

#[test]
fn test_fieldset_config_fields() {
    let config = FieldsetConfig::new()
        .fields("articles", &["title", "body"])
        .fields("people", &["name"]);
    assert!(config.has_type("articles"));
    assert!(config.has_type("people"));
    assert!(!config.has_type("tags"));
}

#[test]
fn test_is_included_with_fieldset() {
    let config = FieldsetConfig::new().fields("articles", &["title"]);
    assert!(config.is_included("articles", "title"));
    assert!(!config.is_included("articles", "body"));
}

#[test]
fn test_is_included_no_fieldset_passes_all() {
    let config = FieldsetConfig::new();
    assert!(config.is_included("articles", "title"));
    assert!(config.is_included("anything", "whatever"));
}

#[test]
fn test_is_included_unknown_field_in_config() {
    let config = FieldsetConfig::new().fields("articles", &["title", "nonexistent"]);
    assert!(config.is_included("articles", "title"));
    assert!(!config.is_included("articles", "body"));
    assert!(config.is_included("articles", "nonexistent"));
}

#[test]
fn test_sparse_filter_single_resource() {
    let doc = json(r#"{
        "data": {
            "type": "articles", "id": "1",
            "attributes": {"title": "Hello", "body": "World"},
            "relationships": {
                "author": {"data": {"type": "people", "id": "9"}}
            }
        }
    }"#);
    let config = FieldsetConfig::new().fields("articles", &["title"]);
    let filtered = to_serde(&sparse_filter(&from_serde(&doc), &config));
    assert_eq!(filtered["data"]["type"], "articles");
    assert_eq!(filtered["data"]["id"], "1");
    assert_eq!(filtered["data"]["attributes"]["title"], "Hello");
    assert!(filtered["data"]["attributes"].get("body").is_none());
    assert!(filtered["data"].get("relationships").is_none());
}

#[test]
fn test_sparse_filter_array_data() {
    let doc = json(r#"{
        "data": [
            {"type": "articles", "id": "1", "attributes": {"title": "First", "body": "One"}},
            {"type": "articles", "id": "2", "attributes": {"title": "Second", "body": "Two"}}
        ]
    }"#);
    let config = FieldsetConfig::new().fields("articles", &["title"]);
    let filtered = to_serde(&sparse_filter(&from_serde(&doc), &config));
    assert_eq!(filtered["data"][0]["attributes"]["title"], "First");
    assert!(filtered["data"][0]["attributes"].get("body").is_none());
    assert_eq!(filtered["data"][1]["attributes"]["title"], "Second");
    assert!(filtered["data"][1]["attributes"].get("body").is_none());
}

#[test]
fn test_sparse_filter_included() {
    let doc = json(r#"{
        "data": {
            "type": "articles", "id": "1",
            "attributes": {"title": "Hello", "body": "World"}
        },
        "included": [{
            "type": "people", "id": "9",
            "attributes": {"name": "Dan", "email": "dan@example.com"}
        }]
    }"#);
    let config = FieldsetConfig::new()
        .fields("articles", &["title"])
        .fields("people", &["name"]);
    let filtered = to_serde(&sparse_filter(&from_serde(&doc), &config));
    assert_eq!(filtered["data"]["attributes"]["title"], "Hello");
    assert!(filtered["data"]["attributes"].get("body").is_none());
    assert_eq!(filtered["included"][0]["attributes"]["name"], "Dan");
    assert!(filtered["included"][0]["attributes"].get("email").is_none());
}

#[test]
fn test_sparse_filter_no_config_passes_through() {
    let doc = json(r#"{
        "data": {
            "type": "articles", "id": "1",
            "attributes": {"title": "Hello", "body": "World"}
        }
    }"#);
    let config = FieldsetConfig::new();
    let filtered = to_serde(&sparse_filter(&from_serde(&doc), &config));
    assert_eq!(filtered["data"]["attributes"]["title"], "Hello");
    assert_eq!(filtered["data"]["attributes"]["body"], "World");
}

#[test]
fn test_sparse_filter_null_data() {
    let doc = json(r#"{
        "data": null
    }"#);
    let config = FieldsetConfig::new().fields("articles", &["title"]);
    let filtered = to_serde(&sparse_filter(&from_serde(&doc), &config));
    assert!(filtered["data"].is_null());
}

#[test]
fn test_sparse_filter_preserves_non_data_fields() {
    let doc = json(r#"{
        "data": {
            "type": "articles", "id": "1",
            "attributes": {"title": "Hello"}
        },
        "meta": {"total": 1},
        "jsonapi": {"version": "1.1"}
    }"#);
    let config = FieldsetConfig::new().fields("articles", &["title"]);
    let filtered = to_serde(&sparse_filter(&from_serde(&doc), &config));
    assert_eq!(filtered["meta"]["total"], 1);
    assert_eq!(filtered["jsonapi"]["version"], "1.1");
}

#[test]
fn sparse_serializer_narrows_a_resource() {
    let doc = json(r#"{"type":"articles","id":"1","attributes":{"title":"Hello","body":"World"},
        "relationships":{"author":{"data":{"type":"people","id":"9"}},"tags":{"data":[]}}}"#);
    let resource = jsonapi_core::Resource::from_json(&from_serde(&doc)).unwrap();
    let config = FieldsetConfig::new().fields("articles", &["title", "tags"]);
    let out = to_serde(&jsonapi_core::SparseSerializer::new(&resource, &config).to_json());
    assert_eq!(out["attributes"]["title"], "Hello");
    assert!(out["attributes"].get("body").is_none());
    assert!(out["relationships"].get("author").is_none());
    assert!(out["relationships"].get("tags").is_some());
    let other = FieldsetConfig::new().fields("people", &["name"]);
    let full = to_serde(&jsonapi_core::SparseSerializer::new(&resource, &other).to_json());
    assert_eq!(full, to_serde(&resource.to_json()));
}
