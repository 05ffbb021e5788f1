use jsonapi_core::media_type::parser::parse_media_type_params;
use jsonapi_core::{negotiate_accept, validate_content_type, Error, JsonApiMediaType};


#[test]
fn base_type_only() {
    let (base, params) = parse_media_type_params("application/json").unwrap();
    assert_eq!(base, "application/json");
    assert!(params.is_empty());
}

#[test]
fn base_type_trimmed() {
    let (base, params) = parse_media_type_params("  application/json  ").unwrap();
    assert_eq!(base, "application/json");
    assert!(params.is_empty());
}

#[test]
fn single_quoted_param() {
    let (base, params) =
        parse_media_type_params("application/vnd.api+json; ext=\"uri1\"").unwrap();
    assert_eq!(base, "application/vnd.api+json");
    assert_eq!(params, vec![("ext", "uri1".to_string())]);
}

#[test]
fn multiple_params() {
    let (base, params) = parse_media_type_params(
        "application/vnd.api+json; ext=\"uri1 uri2\"; profile=\"uri3\"",
    )
    .unwrap();
    assert_eq!(base, "application/vnd.api+json");
    assert_eq!(
        params,
        vec![
            ("ext", "uri1 uri2".to_string()),
            ("profile", "uri3".to_string()),
        ]
    );
}

#[test]
fn bare_token_value() {
    let (base, params) = parse_media_type_params("text/html; charset=utf-8").unwrap();
    assert_eq!(base, "text/html");
    assert_eq!(params, vec![("charset", "utf-8".to_string())]);
}

#[test]
fn escaped_quote_in_value() {
    let (_, params) =
        parse_media_type_params("application/vnd.api+json; ext=\"has\\\"quote\"").unwrap();
    assert_eq!(params[0].1, "has\"quote");
}

#[test]
fn whitespace_around_equals() {
    let (_, params) = parse_media_type_params("application/json; charset = utf-8").unwrap();
    assert_eq!(params, vec![("charset", "utf-8".to_string())]);
}

#[test]
fn whitespace_around_semicolons() {
    let (base, params) =
        parse_media_type_params("application/json ;  charset=utf-8  ;  boundary=something")
            .unwrap();
    assert_eq!(base, "application/json");
    assert_eq!(params.len(), 2);
    assert_eq!(params[0], ("charset", "utf-8".to_string()));
    assert_eq!(params[1], ("boundary", "something".to_string()));
}

#[test]
fn empty_input_is_error() {
    assert!(parse_media_type_params("").is_err());
}

#[test]
fn unterminated_quoted_string_is_error() {
    assert!(parse_media_type_params("application/json; ext=\"unterminated").is_err());
}

#[test]
fn empty_parameter_key_is_error() {
    let result = parse_media_type_params("application/json; =value");
    assert!(result.is_err());
}


// --- parse ---

#[test]
fn parse_bare() {
    let mt = JsonApiMediaType::parse("application/vnd.api+json").unwrap();
    assert!(mt.ext.is_empty());
    assert!(mt.profile.is_empty());
}

#[test]
fn parse_with_ext() {
    let mt =
        JsonApiMediaType::parse("application/vnd.api+json; ext=\"https://example.com/ext1\"")
            .unwrap();
    assert_eq!(mt.ext, vec!["https://example.com/ext1"]);
    assert!(mt.profile.is_empty());
}

#[test]
fn parse_with_profile() {
    let mt =
        JsonApiMediaType::parse("application/vnd.api+json; profile=\"https://example.com/p1\"")
            .unwrap();
    assert!(mt.ext.is_empty());
    assert_eq!(mt.profile, vec!["https://example.com/p1"]);
}

#[test]
fn parse_with_both() {
    let mt = JsonApiMediaType::parse(
        "application/vnd.api+json; ext=\"https://e1 https://e2\"; profile=\"https://p1\"",
    )
    .unwrap();
    assert_eq!(mt.ext, vec!["https://e1", "https://e2"]);
    assert_eq!(mt.profile, vec!["https://p1"]);
}

#[test]
fn parse_ignores_unknown_params() {
    let mt =
        JsonApiMediaType::parse("application/vnd.api+json; charset=utf-8; ext=\"https://e1\"")
            .unwrap();
    assert_eq!(mt.ext, vec!["https://e1"]);
}

#[test]
fn parse_case_insensitive_base() {
    let mt = JsonApiMediaType::parse("Application/Vnd.Api+JSON").unwrap();
    assert!(mt.ext.is_empty());
}

#[test]
fn parse_wrong_base_type() {
    let err = JsonApiMediaType::parse("text/html").unwrap_err();
    assert!(matches!(err, Error::MediaTypeMismatch { .. }));
}

// --- to_header_value ---

#[test]
fn to_header_value_bare() {
    let mt = JsonApiMediaType {
        ext: vec![],
        profile: vec![],
    };
    assert_eq!(mt.to_header_value(), "application/vnd.api+json");
}

#[test]
fn to_header_value_with_ext() {
    let mt = JsonApiMediaType {
        ext: vec!["https://e1".into(), "https://e2".into()],
        profile: vec![],
    };
    assert_eq!(
        mt.to_header_value(),
        "application/vnd.api+json; ext=\"https://e1 https://e2\""
    );
}

#[test]
fn to_header_value_with_both() {
    let mt = JsonApiMediaType {
        ext: vec!["https://e1".into()],
        profile: vec!["https://p1".into()],
    };
    assert_eq!(
        mt.to_header_value(),
        "application/vnd.api+json; ext=\"https://e1\"; profile=\"https://p1\""
    );
}

// --- validate_content_type ---

#[test]
fn validate_ct_bare() {
    let mt = validate_content_type("application/vnd.api+json").unwrap();
    assert!(mt.ext.is_empty());
    assert!(mt.profile.is_empty());
}

#[test]
fn validate_ct_with_ext_and_profile() {
    let mt = validate_content_type(
        "application/vnd.api+json; ext=\"https://e1\"; profile=\"https://p1\"",
    )
    .unwrap();
    assert_eq!(mt.ext, vec!["https://e1"]);
    assert_eq!(mt.profile, vec!["https://p1"]);
}

#[test]
fn validate_ct_rejects_unknown_param() {
    let err = validate_content_type("application/vnd.api+json; charset=utf-8").unwrap_err();
    assert!(matches!(
        err,
        Error::UnsupportedMediaTypeParam { .. }
    ));
}

#[test]
fn validate_ct_rejects_wrong_base() {
    let err = validate_content_type("text/html").unwrap_err();
    assert!(matches!(err, Error::MediaTypeMismatch { .. }));
}

#[test]
fn validate_ct_rejects_unknown_mixed_with_known() {
    let err =
        validate_content_type("application/vnd.api+json; ext=\"https://e1\"; charset=utf-8")
            .unwrap_err();
    assert!(matches!(
        err,
        Error::UnsupportedMediaTypeParam { .. }
    ));
}

// --- is_compatible_with ---

#[test]
fn compatible_both_empty() {
    let a = JsonApiMediaType {
        ext: vec![],
        profile: vec![],
    };
    let b = JsonApiMediaType {
        ext: vec![],
        profile: vec![],
    };
    assert!(a.is_compatible_with(&b));
}

#[test]
fn compatible_subset_ext() {
    let requested = JsonApiMediaType {
        ext: vec!["https://e1".into()],
        profile: vec![],
    };
    let server = JsonApiMediaType {
        ext: vec!["https://e1".into(), "https://e2".into()],
        profile: vec![],
    };
    assert!(requested.is_compatible_with(&server));
}

#[test]
fn incompatible_ext_not_in_server() {
    let requested = JsonApiMediaType {
        ext: vec!["https://e3".into()],
        profile: vec![],
    };
    let server = JsonApiMediaType {
        ext: vec!["https://e1".into()],
        profile: vec![],
    };
    assert!(!requested.is_compatible_with(&server));
}

#[test]
fn compatible_subset_profile() {
    let requested = JsonApiMediaType {
        ext: vec![],
        profile: vec!["https://p1".into()],
    };
    let server = JsonApiMediaType {
        ext: vec![],
        profile: vec!["https://p1".into(), "https://p2".into()],
    };
    assert!(requested.is_compatible_with(&server));
}

#[test]
fn compatible_empty_requested_ext() {
    let requested = JsonApiMediaType {
        ext: vec![],
        profile: vec![],
    };
    let server = JsonApiMediaType {
        ext: vec!["https://e1".into()],
        profile: vec![],
    };
    assert!(requested.is_compatible_with(&server));
}

// --- negotiate_accept ---

#[test]
fn negotiate_bare_accept() {
    let mt = negotiate_accept("application/vnd.api+json", &[], &[]).unwrap();
    assert!(mt.ext.is_empty());
    assert!(mt.profile.is_empty());
}

#[test]
fn negotiate_with_server_capabilities() {
    let mt =
        negotiate_accept("application/vnd.api+json", &["https://e1"], &["https://p1"]).unwrap();
    assert_eq!(mt.ext, vec!["https://e1"]);
    assert_eq!(mt.profile, vec!["https://p1"]);
}

#[test]
fn negotiate_wildcard_accepts() {
    let mt = negotiate_accept("*/*", &["https://e1"], &[]).unwrap();
    assert_eq!(mt.ext, vec!["https://e1"]);
}

#[test]
fn negotiate_application_wildcard() {
    let mt = negotiate_accept("application/*", &[], &["https://p1"]).unwrap();
    assert_eq!(mt.profile, vec!["https://p1"]);
}

#[test]
fn negotiate_multiple_entries_first_valid_wins() {
    let mt = negotiate_accept(
        "text/html, application/vnd.api+json; ext=\"https://e1\"",
        &["https://e1"],
        &[],
    )
    .unwrap();
    assert_eq!(mt.ext, vec!["https://e1"]);
}

#[test]
fn negotiate_skips_entries_with_unknown_params() {
    let mt = negotiate_accept(
        "application/vnd.api+json; charset=utf-8, application/vnd.api+json",
        &[],
        &[],
    )
    .unwrap();
    assert!(mt.ext.is_empty());
}

#[test]
fn negotiate_all_jsonapi_have_unknown_params_is_406() {
    let err =
        negotiate_accept("application/vnd.api+json; charset=utf-8", &[], &[]).unwrap_err();
    assert!(matches!(err, Error::AllMediaTypesUnsupportedParams));
}

#[test]
fn negotiate_no_jsonapi_at_all_is_error() {
    let err = negotiate_accept("text/html, application/xml", &[], &[]).unwrap_err();
    assert!(matches!(err, Error::NoAcceptableMediaType));
}

#[test]
fn negotiate_empty_accept_is_error() {
    let err = negotiate_accept("", &[], &[]).unwrap_err();
    assert!(matches!(err, Error::NoAcceptableMediaType));
}

// --- round-trip ---

#[test]
fn round_trip() {
    let written =
        "application/vnd.api+json; ext=\"https://e1 https://e2\"; profile=\"https://p1\"";
    let mt = JsonApiMediaType::parse(written).unwrap();
    let reparsed = JsonApiMediaType::parse(&mt.to_header_value()).unwrap();
    assert_eq!(mt, reparsed);
}

// --- plain / with_ext constructors ---

#[test]
fn plain_media_type_has_no_params() {
    let mt = JsonApiMediaType::plain();
    assert!(mt.ext.is_empty());
    assert!(mt.profile.is_empty());
    assert_eq!(mt.to_header_value(), "application/vnd.api+json");
}

#[test]
fn with_ext_single_uri() {
    let mt = JsonApiMediaType::with_ext(vec!["https://jsonapi.org/ext/atomic".to_string()]);
    assert_eq!(mt.ext, vec!["https://jsonapi.org/ext/atomic".to_string()]);
    assert!(mt.profile.is_empty());
}

#[test]
fn with_ext_multiple_uris() {
    let mt = JsonApiMediaType::with_ext(vec!["uri1".to_string(), "uri2".to_string()]);
    assert_eq!(mt.ext, vec!["uri1".to_string(), "uri2".to_string()]);
}

#[test]
fn with_ext_from_owned_strings() {
    let uris: Vec<String> = vec!["a".into(), "b".into()];
    let mt = JsonApiMediaType::with_ext(uris);
    assert_eq!(mt.ext, vec!["a".to_string(), "b".to_string()]);
}

#[test]
fn with_ext_round_trips_through_header_value() {
    let written = JsonApiMediaType::with_ext(vec!["https://jsonapi.org/ext/atomic".to_string()]);
    let header = written.to_header_value();
    let parsed = JsonApiMediaType::parse(&header).unwrap();
    assert_eq!(parsed, written);
}

#[test]
fn parse_errors_say_what_is_wrong() {
    let msg = |h: &str| match parse_media_type_params(h).unwrap_err() {
        Error::MediaTypeParse(m) => m,
        other => panic!("unexpected error: {other:?}"),
    };
    assert_eq!(msg("   "), "empty media type");
    assert_eq!(msg("text/html; charset"), "parameter missing '=': charset");
    assert_eq!(msg("text/html; =x"), "empty parameter key");
    assert_eq!(msg("text/html; a=\"open"), "unterminated quoted string");
    assert_eq!(msg("text/html; a=\"open\\"), "unterminated escape in quoted string");
    assert_eq!(msg("text/html; a=1; b"), "parameter missing '=': b");
}
