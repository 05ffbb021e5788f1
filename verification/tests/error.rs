use jsonapi_core::Error;

#[test]
fn test_error_from_serde_json() {
    let json_err = serde_json::from_str::<String>("not json").unwrap_err();
    let err: Error = json_err.into();
    assert!(matches!(err, Error::Json(_)));
}

#[test]
fn test_error_display() {
    let err = Error::RegistryLookup { type_: "people".into(), id: "99".into() };
    assert_eq!(err.message(), "resource not found in registry: type=people, id=99");
}

#[test]
fn test_invalid_include_path_display() {
    let err = Error::InvalidIncludePath {
        path: "author.posts".into(),
        segment: "posts".into(),
        type_: "people".into(),
    };
    assert_eq!(
        err.message(),
        "invalid include path 'author.posts': relationship 'posts' not found on type 'people'"
    );
}

#[test]
fn test_missing_attribute_display() {
    let err = Error::MissingAttribute {
        resource_type: "articles",
        attribute: "title",
        location: "data".into(),
    };
    assert_eq!(err.message(), "missing required attribute `title` on `articles` at data");
}

#[test]
fn test_included_ref_missing_display() {
    let err = Error::IncludedRefMissing {
        name: "author".into(),
        type_: "people".into(),
        id: "9".into(),
        location: "data.relationships.author".into(),
    };
    assert_eq!(
        err.message(),
        "relationship `author` at data.relationships.author references people:9, but no such resource is included"
    );
}

#[test]
fn error_messages_of_other_variants() {
    let err = Error::InvalidMemberName { name: "a b".into(), reason: "space".into() };
    assert_eq!(err.message(), "invalid member name: a b \u{2014} space");
    let err = Error::InvalidAtomicOperation { index: 12, reason: "dangling lid".into() };
    assert_eq!(err.message(), "invalid atomic operation at index 12: dangling lid");
    let err = Error::UnexpectedDocumentShape { expected: "single resource", found: "errors document" };
    assert_eq!(err.message(), "expected single resource document, got errors document");
    let err = Error::QueryParse { param: "sort".into(), reason: "empty sort field".into() };
    assert_eq!(err.message(), "invalid query parameter `sort`: empty sort field");
    let json_err = serde_json::from_str::<String>("not json").unwrap_err();
    let err: Error = json_err.into();
    assert!(err.message().starts_with("JSON serialization error: "));
    assert!(err.message().len() > "JSON serialization error: ".len());
}
