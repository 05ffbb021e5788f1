use jsonapi_core::{
    Error, Identity, JsonNumber, JsonObject, JsonValue, Registry, Relationship, RelationshipData,
    ResolveConfig, Resource, ResourceIdentifier, ResourceObject, StrMap,
};

fn from_serde(v: &serde_json::Value) -> JsonValue {
    match v {
        serde_json::Value::Null => JsonValue::Null,
        serde_json::Value::Bool(b) => JsonValue::Bool(*b),
        serde_json::Value::Number(n) => JsonValue::Number(JsonNumber { text: n.to_string() }),
        serde_json::Value::String(s) => JsonValue::String(s.clone()),
        serde_json::Value::Array(a) => JsonValue::Array(a.iter().map(from_serde).collect()),
        serde_json::Value::Object(m) => JsonValue::Object(JsonObject {
            members: m.iter().map(|(k, v)| (k.clone(), from_serde(v))).collect(),
        }),
    }
}

fn to_serde(v: &JsonValue) -> serde_json::Value {
    match v {
        JsonValue::Null => serde_json::Value::Null,
        JsonValue::Bool(b) => serde_json::Value::Bool(*b),
        JsonValue::Number(n) => serde_json::from_str(&n.text).unwrap(),
        JsonValue::String(s) => serde_json::Value::String(s.clone()),
        JsonValue::Array(a) => serde_json::Value::Array(a.iter().map(to_serde).collect()),
        JsonValue::Object(o) => {
            let mut m = serde_json::Map::new();
            for (k, v) in &o.members {
                m.insert(k.clone(), to_serde(v));
            }
            serde_json::Value::Object(m)
        }
    }
}

fn parse(text: &str) -> JsonValue {
    from_serde(&serde_json::from_str(text).unwrap())
}

fn json_value(text: &str) -> serde_json::Value {
    serde_json::from_str(text).unwrap()
}

fn make_resource(type_: &str, id: &str, attrs: &str) -> Resource {
    Resource {
        type_: type_.into(),
        id: Some(id.into()),
        lid: None,
        attributes: parse(attrs),
        relationships: StrMap::new(),
        links: None,
        meta: None,
    }
}

fn rels(entries: Vec<(&str, RelationshipData)>) -> StrMap<RelationshipData> {
    let mut m = StrMap::new();
    for (k, v) in entries {
        m.insert(k.to_string(), v);
    }
    m
}

fn make_resource_with_rels(
    type_: &str,
    id: &str,
    attrs: &str,
    rels: StrMap<RelationshipData>,
) -> Resource {
    Resource {
        type_: type_.into(),
        id: Some(id.into()),
        lid: None,
        attributes: parse(attrs),
        relationships: rels,
        links: None,
        meta: None,
    }
}

#[test]
fn test_registry_get_by_id() {
    let included = vec![
        make_resource("people", "9", r#"{"name": "Dan"}"#),
        make_resource("comments", "5", r#"{"body": "Hi"}"#),
    ];
    let registry = Registry::from_included(&included).unwrap();

    let result: Resource = registry.get_by_id("people", "9").unwrap();
    assert_eq!(result.resource_type(), "people");
    assert_eq!(to_serde(&result.attributes)["name"], "Dan");
}

#[test]
fn test_registry_get_missing() {
    let registry = Registry::from_included(&[]).unwrap();
    let result: std::result::Result<Resource, _> = registry.get_by_id("people", "99");
    assert!(result.is_err());
    match result.unwrap_err() {
        Error::RegistryLookup { type_, id } => {
            assert_eq!(type_, "people");
            assert_eq!(id, "99");
        }
        other => panic!("expected RegistryLookup, got: {other:?}"),
    }
}

#[test]
fn test_registry_get_via_relationship() {
    let included = vec![make_resource(
        "people",
        "9",
        r#"{"name": "Dan"}"#,
    )];
    let registry = Registry::from_included(&included).unwrap();

    let rel: Relationship<Resource> =
        Relationship::new(RelationshipData::ToOne(Some(ResourceIdentifier {
            type_: "people".into(),
            identity: Identity::Id("9".into()),
            meta: None,
        })));

    let person: Resource = registry.get(&rel).unwrap();
    assert_eq!(to_serde(&person.attributes)["name"], "Dan");
}

#[test]
fn test_registry_get_null_relationship() {
    let registry = Registry::from_included(&[]).unwrap();
    let rel: Relationship<Resource> = Relationship::new(RelationshipData::ToOne(None));
    let result: std::result::Result<Resource, _> = registry.get(&rel);
    assert!(result.is_err());
}

#[test]
fn test_get_many_resolves() {
    let included = vec![
        make_resource("tags", "1", r#"{"label": "rust"}"#),
        make_resource("tags", "2", r#"{"label": "serde"}"#),
    ];
    let registry = Registry::from_included(&included).unwrap();
    let rel: Relationship<Resource> = Relationship::new(RelationshipData::ToMany(vec![
        ResourceIdentifier {
            type_: "tags".into(),
            identity: Identity::Id("1".into()),
            meta: None,
        },
        ResourceIdentifier {
            type_: "tags".into(),
            identity: Identity::Id("2".into()),
            meta: None,
        },
    ]));
    let tags: Vec<Resource> = registry.get_many(&rel).unwrap();
    assert_eq!(tags.len(), 2);
    assert_eq!(to_serde(&tags[0].attributes)["label"], "rust");
    assert_eq!(to_serde(&tags[1].attributes)["label"], "serde");
}

#[test]
fn test_get_many_empty() {
    let registry = Registry::from_included(&[]).unwrap();
    let rel: Relationship<Resource> = Relationship::new(RelationshipData::ToMany(vec![]));
    let tags: Vec<Resource> = registry.get_many(&rel).unwrap();
    assert!(tags.is_empty());
}

#[test]
fn test_get_many_missing_resource() {
    let registry = Registry::from_included(&[]).unwrap();
    let rel: Relationship<Resource> =
        Relationship::new(RelationshipData::ToMany(vec![ResourceIdentifier {
            type_: "tags".into(),
            identity: Identity::Id("99".into()),
            meta: None,
        }]));
    let result: jsonapi_core::Result<Vec<Resource>> = registry.get_many(&rel);
    assert!(matches!(
        result.unwrap_err(),
        Error::RegistryLookup { .. }
    ));
}

#[test]
fn test_get_many_on_to_one_errors() {
    let registry = Registry::from_included(&[]).unwrap();
    let rel: Relationship<Resource> = Relationship::new(RelationshipData::ToOne(None));
    let result: jsonapi_core::Result<Vec<Resource>> = registry.get_many(&rel);
    assert!(matches!(
        result.unwrap_err(),
        Error::RelationshipCardinalityMismatch { .. }
    ));
}

#[test]
fn test_get_all() {
    let included = vec![
        make_resource("people", "1", r#"{"name": "Alice"}"#),
        make_resource("people", "2", r#"{"name": "Bob"}"#),
        make_resource("tags", "1", r#"{"label": "rust"}"#),
    ];
    let registry = Registry::from_included(&included).unwrap();
    let people: Vec<Resource> = registry.get_all("people");
    assert_eq!(people.len(), 2);
    let tags: Vec<Resource> = registry.get_all("tags");
    assert_eq!(tags.len(), 1);
}

#[test]
fn test_get_all_missing_type() {
    let registry = Registry::from_included(&[]).unwrap();
    let people: Vec<Resource> = registry.get_all("people");
    assert!(people.is_empty());
}

#[test]
fn test_registry_multiple_types() {
    let included = vec![
        make_resource("people", "1", r#"{"name": "Alice"}"#),
        make_resource("people", "2", r#"{"name": "Bob"}"#),
        make_resource("tags", "1", r#"{"label": "rust"}"#),
    ];
    let registry = Registry::from_included(&included).unwrap();

    let person: Resource = registry.get_by_id("people", "2").unwrap();
    assert_eq!(to_serde(&person.attributes)["name"], "Bob");

    let tag: Resource = registry.get_by_id("tags", "1").unwrap();
    assert_eq!(to_serde(&tag.attributes)["label"], "rust");

    // people/1 and tags/1 are distinct
    let p1: Resource = registry.get_by_id("people", "1").unwrap();
    assert_eq!(to_serde(&p1.attributes)["name"], "Alice");
}

#[test]
fn test_resolve_simple_flatten_and_resolve() {
    let author = make_resource("people", "9", r#"{"name": "Dan"}"#);
    let article = make_resource_with_rels(
        "articles",
        "1",
        r#"{"title": "Hello"}"#,
        rels(vec![(
            "author",
            RelationshipData::ToOne(Some(ResourceIdentifier {
                type_: "people".into(),
                identity: Identity::Id("9".into()),
                meta: None,
            })),
        )]),
    );
    let registry = Registry::from_included(&[author]).unwrap();
    let input = article.to_json();
    let resolved = to_serde(&registry.resolve(&input, &ResolveConfig::default()));

    assert_eq!(resolved["type"], "articles");
    assert_eq!(resolved["id"], "1");
    assert_eq!(resolved["title"], "Hello");
    assert_eq!(resolved["author"]["type"], "people");
    assert_eq!(resolved["author"]["id"], "9");
    assert_eq!(resolved["author"]["name"], "Dan");
    // Envelope stripped
    assert!(resolved.get("attributes").is_none());
    assert!(resolved.get("relationships").is_none());
}

#[test]
fn test_resolve_to_many() {
    let tag1 = make_resource("tags", "1", r#"{"label": "rust"}"#);
    let tag2 = make_resource("tags", "2", r#"{"label": "serde"}"#);
    let article = make_resource_with_rels(
        "articles",
        "1",
        r#"{"title": "Hello"}"#,
        rels(vec![(
            "tags",
            RelationshipData::ToMany(vec![
                ResourceIdentifier {
                    type_: "tags".into(),
                    identity: Identity::Id("1".into()),
                    meta: None,
                },
                ResourceIdentifier {
                    type_: "tags".into(),
                    identity: Identity::Id("2".into()),
                    meta: None,
                },
            ]),
        )]),
    );
    let registry = Registry::from_included(&[tag1, tag2]).unwrap();
    let input = article.to_json();
    let resolved = to_serde(&registry.resolve(&input, &ResolveConfig::default()));

    assert_eq!(resolved["tags"][0]["label"], "rust");
    assert_eq!(resolved["tags"][1]["label"], "serde");
}

#[test]
fn test_resolve_no_relationships() {
    let resource = make_resource("articles", "1", r#"{"title": "Hello"}"#);
    let registry = Registry::from_included(&[]).unwrap();
    let input = resource.to_json();
    let resolved = to_serde(&registry.resolve(&input, &ResolveConfig::default()));

    assert_eq!(resolved["type"], "articles");
    assert_eq!(resolved["title"], "Hello");
    assert!(resolved.get("attributes").is_none());
}

#[test]
fn test_resolve_nested() {
    let org = make_resource("orgs", "5", r#"{"name": "Acme"}"#);
    let person = make_resource_with_rels(
        "people",
        "9",
        r#"{"name": "Dan"}"#,
        rels(vec![(
            "org",
            RelationshipData::ToOne(Some(ResourceIdentifier {
                type_: "orgs".into(),
                identity: Identity::Id("5".into()),
                meta: None,
            })),
        )]),
    );
    let article = make_resource_with_rels(
        "articles",
        "1",
        r#"{"title": "Hello"}"#,
        rels(vec![(
            "author",
            RelationshipData::ToOne(Some(ResourceIdentifier {
                type_: "people".into(),
                identity: Identity::Id("9".into()),
                meta: None,
            })),
        )]),
    );
    let registry = Registry::from_included(&[person, org]).unwrap();
    let input = article.to_json();
    let resolved = to_serde(&registry.resolve(&input, &ResolveConfig::default()));

    assert_eq!(resolved["author"]["name"], "Dan");
    assert_eq!(resolved["author"]["org"]["name"], "Acme");
}

#[test]
fn test_resolve_cycle() {
    // Article 1 -> author Person 9 -> articles [Article 1] (cycle)
    let article = make_resource_with_rels(
        "articles",
        "1",
        r#"{"title": "Hello"}"#,
        rels(vec![(
            "author",
            RelationshipData::ToOne(Some(ResourceIdentifier {
                type_: "people".into(),
                identity: Identity::Id("9".into()),
                meta: None,
            })),
        )]),
    );
    let person = make_resource_with_rels(
        "people",
        "9",
        r#"{"name": "Dan"}"#,
        rels(vec![(
            "articles",
            RelationshipData::ToMany(vec![ResourceIdentifier {
                type_: "articles".into(),
                identity: Identity::Id("1".into()),
                meta: None,
            }]),
        )]),
    );
    let registry = Registry::from_included(&[article.clone(), person]).unwrap();
    let input = article.to_json();
    let resolved = to_serde(&registry.resolve(&input, &ResolveConfig::default()));

    // Author resolved
    assert_eq!(resolved["author"]["name"], "Dan");
    // Back-reference to article is left as identifier (cycle broken)
    assert_eq!(resolved["author"]["articles"][0]["type"], "articles");
    assert_eq!(resolved["author"]["articles"][0]["id"], "1");
    assert!(resolved["author"]["articles"][0].get("title").is_none());
}

#[test]
fn test_resolve_missing_resource() {
    let article = make_resource_with_rels(
        "articles",
        "1",
        r#"{"title": "Hello"}"#,
        rels(vec![(
            "author",
            RelationshipData::ToOne(Some(ResourceIdentifier {
                type_: "people".into(),
                identity: Identity::Id("99".into()),
                meta: None,
            })),
        )]),
    );
    let registry = Registry::from_included(&[]).unwrap();
    let input = article.to_json();
    let resolved = to_serde(&registry.resolve(&input, &ResolveConfig::default()));

    // Author left as identifier
    assert_eq!(resolved["author"]["type"], "people");
    assert_eq!(resolved["author"]["id"], "99");
    assert!(resolved["author"].get("name").is_none());
}

#[test]
fn test_resolve_null_to_one() {
    let article = make_resource_with_rels(
        "articles",
        "1",
        r#"{"title": "Hello"}"#,
        rels(vec![("author", RelationshipData::ToOne(None))]),
    );
    let registry = Registry::from_included(&[]).unwrap();
    let input = article.to_json();
    let resolved = to_serde(&registry.resolve(&input, &ResolveConfig::default()));

    assert!(resolved["author"].is_null());
}

#[test]
fn test_resolve_empty_to_many() {
    let article = make_resource_with_rels(
        "articles",
        "1",
        r#"{"title": "Hello"}"#,
        rels(vec![("tags", RelationshipData::ToMany(vec![]))]),
    );
    let registry = Registry::from_included(&[]).unwrap();
    let input = article.to_json();
    let resolved = to_serde(&registry.resolve(&input, &ResolveConfig::default()));

    assert_eq!(resolved["tags"], json_value("[]"));
}

#[test]
fn test_resolve_depth_limit() {
    let org = make_resource("orgs", "5", r#"{"name": "Acme"}"#);
    let person = make_resource_with_rels(
        "people",
        "9",
        r#"{"name": "Dan"}"#,
        rels(vec![(
            "org",
            RelationshipData::ToOne(Some(ResourceIdentifier {
                type_: "orgs".into(),
                identity: Identity::Id("5".into()),
                meta: None,
            })),
        )]),
    );
    let article = make_resource_with_rels(
        "articles",
        "1",
        r#"{"title": "Hello"}"#,
        rels(vec![(
            "author",
            RelationshipData::ToOne(Some(ResourceIdentifier {
                type_: "people".into(),
                identity: Identity::Id("9".into()),
                meta: None,
            })),
        )]),
    );
    let registry = Registry::from_included(&[person, org]).unwrap();
    let input = article.to_json();
    let resolved = to_serde(&registry.resolve(&input, &ResolveConfig { max_depth: 1 }));

    // Author resolved (depth 0 < max_depth 1)
    assert_eq!(resolved["author"]["name"], "Dan");
    // Org NOT resolved (depth 1 is not < max_depth 1)
    assert_eq!(resolved["author"]["org"]["type"], "orgs");
    assert_eq!(resolved["author"]["org"]["id"], "5");
    assert!(resolved["author"]["org"].get("name").is_none());
}

#[test]
fn test_resolve_preserves_resource_meta_links() {
    let input = parse(r#"{
        "type": "articles", "id": "1",
        "attributes": {"title": "Hello"},
        "meta": {"featured": true},
        "links": {"self": "/articles/1"}
    }"#);
    let registry = Registry::from_included(&[]).unwrap();
    let resolved = to_serde(&registry.resolve(&input, &ResolveConfig::default()));

    assert_eq!(resolved["title"], "Hello");
    assert_eq!(resolved["meta"]["featured"], true);
    assert_eq!(resolved["links"]["self"], "/articles/1");
}

#[test]
fn test_resolve_depth_zero() {
    let author = make_resource("people", "9", r#"{"name": "Dan"}"#);
    let article = make_resource_with_rels(
        "articles",
        "1",
        r#"{"title": "Hello"}"#,
        rels(vec![(
            "author",
            RelationshipData::ToOne(Some(ResourceIdentifier {
                type_: "people".into(),
                identity: Identity::Id("9".into()),
                meta: None,
            })),
        )]),
    );
    let registry = Registry::from_included(&[author]).unwrap();
    let input = article.to_json();
    let resolved = to_serde(&registry.resolve(&input, &ResolveConfig { max_depth: 0 }));

    // With max_depth: 0, no relationships should be resolved
    assert_eq!(resolved["title"], "Hello");
    assert_eq!(resolved["author"]["type"], "people");
    assert_eq!(resolved["author"]["id"], "9");
    assert!(resolved["author"].get("name").is_none());
}

#[test]
fn test_from_included_skips_lid_only_resources() {
    let lid_only = Resource {
        type_: "drafts".into(),
        id: None,
        lid: Some("temp-1".into()),
        attributes: parse(r#"{"title": "Draft"}"#),
        relationships: StrMap::new(),
        links: None,
        meta: None,
    };
    let with_id = make_resource("articles", "1", r#"{"title": "Hello"}"#);
    let registry = Registry::from_included(&[lid_only, with_id]).unwrap();

    // lid-only resource not findable
    let result: std::result::Result<Resource, _> = registry.get_by_id("drafts", "temp-1");
    assert!(result.is_err());

    // id-bearing resource is findable
    let article: Resource = registry.get_by_id("articles", "1").unwrap();
    assert_eq!(to_serde(&article.attributes)["title"], "Hello");
}

#[test]
fn test_resolve_two_hop_cycle() {
    // A -> B -> A (different types, two-hop cycle)
    let a = make_resource_with_rels(
        "articles",
        "1",
        r#"{"title": "Hello"}"#,
        rels(vec![(
            "editor",
            RelationshipData::ToOne(Some(ResourceIdentifier {
                type_: "people".into(),
                identity: Identity::Id("9".into()),
                meta: None,
            })),
        )]),
    );
    let b = make_resource_with_rels(
        "people",
        "9",
        r#"{"name": "Dan"}"#,
        rels(vec![(
            "favorite",
            RelationshipData::ToOne(Some(ResourceIdentifier {
                type_: "articles".into(),
                identity: Identity::Id("1".into()),
                meta: None,
            })),
        )]),
    );
    let registry = Registry::from_included(&[a.clone(), b]).unwrap();
    let input = a.to_json();
    let resolved = to_serde(&registry.resolve(&input, &ResolveConfig::default()));

    // Editor resolved
    assert_eq!(resolved["editor"]["name"], "Dan");
    // Back-reference to article is a cycle — left as identifier
    assert_eq!(resolved["editor"]["favorite"]["type"], "articles");
    assert_eq!(resolved["editor"]["favorite"]["id"], "1");
    assert!(resolved["editor"]["favorite"].get("title").is_none());
}

#[test]
fn test_resolve_drops_relationship_links_meta() {
    // Construct raw JSON with relationship-level links/meta
    // (Resource struct doesn't store these, so we use json! directly)
    let input = parse(r#"{
        "type": "articles", "id": "1",
        "attributes": {"title": "Hello"},
        "relationships": {
            "author": {
                "data": {"type": "people", "id": "9"},
                "links": {"self": "/articles/1/relationships/author"},
                "meta": {"verified": true}
            }
        }
    }"#);
    let author = make_resource("people", "9", r#"{"name": "Dan"}"#);
    let registry = Registry::from_included(&[author]).unwrap();
    let resolved = to_serde(&registry.resolve(&input, &ResolveConfig::default()));

    // Author resolved from registry (which has no links/meta)
    assert_eq!(resolved["author"]["name"], "Dan");
    // Relationship-level links/meta did not leak into resolved output
    assert!(resolved["author"].get("links").is_none());
    assert!(resolved["author"].get("meta").is_none());
}

#[test]
fn registry_last_included_resource_wins() {
    let first = make_resource("people", "9", r#"{"name": "Old"}"#);
    let second = make_resource("people", "9", r#"{"name": "New"}"#);
    let registry = Registry::from_included(&[first, second]).unwrap();
    let person = registry.get_by_id("people", "9").unwrap();
    assert_eq!(to_serde(&person.attributes)["name"], "New");
    assert_eq!(registry.get_all("people").len(), 1);
}

#[test]
fn registry_gives_back_what_was_included() {
    let text = r#"{"type":"people","id":"9","attributes":{"name":"Dan"},
        "relationships":{"org":{"data":{"type":"orgs","id":"5"}}},
        "links":{"self":"/people/9"},"meta":{"rank":1}}"#;
    let written = Resource::from_json(&parse(text)).unwrap();
    let registry = Registry::from_included(&[written.clone()]).unwrap();
    assert_eq!(registry.get_by_id("people", "9").unwrap(), written);
}

#[test]
fn resolve_flattens_member_by_member() {
    let input = parse(
        r#"{"type":"articles","id":"1","lid":"l1",
            "attributes":{"title":"Hi"},
            "relationships":{
                "author":{"data":null,"links":{"self":"/x"}},
                "editor":{"links":{"self":"/y"}},
                "tags":{"data":[{"type":"tags","id":"7"}]}
            },
            "meta":{"m":1},"links":{"self":"/articles/1"}}"#,
    );
    let registry = Registry::new();
    let resolved = to_serde(&registry.resolve(&input, &ResolveConfig::default()));
    assert_eq!(
        resolved,
        json_value(
            r#"{"type":"articles","id":"1","lid":"l1","title":"Hi",
                "author":null,"tags":[{"type":"tags","id":"7"}],
                "meta":{"m":1},"links":{"self":"/articles/1"}}"#
        )
    );
    // A value that is not a resource is kept as it is.
    let plain = parse(r#"{"id":"1"}"#);
    assert_eq!(registry.resolve(&plain, &ResolveConfig::default()), plain);
}
