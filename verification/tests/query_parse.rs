use jsonapi_core::{Error, Query, SortField};

#[test]
fn parses_sort_with_descending() {
    let q = Query::from_pairs(&[("sort", "-created,title")]).unwrap();
    assert_eq!(q.sort.len(), 2);
    assert_eq!(q.sort[0], SortField { field: "created".into(), descending: true });
    assert_eq!(q.sort[1], SortField { field: "title".into(), descending: false });
}

#[test]
fn empty_sort_token_is_error() {
    let err = Query::from_pairs(&[("sort", "a,,b")]).unwrap_err();
    assert!(matches!(err, Error::QueryParse { .. }));
}

#[test]
fn parses_include_paths() {
    let q = Query::from_pairs(&[("include", "author,comments.author")]).unwrap();
    assert_eq!(q.include_paths, vec!["author".to_string(), "comments.author".to_string()]);
}

#[test]
fn parses_fields_into_fieldset_config() {
    let q = Query::from_pairs(&[("fields[articles]", "title,body")]).unwrap();
    assert!(q.fields.has_type("articles"));
    assert!(q.fields.is_included("articles", "title"));
    assert!(q.fields.is_included("articles", "body"));
    assert!(!q.fields.is_included("articles", "secret"));
}

#[test]
fn parses_page_into_generic_map() {
    let q = Query::from_pairs(&[("page[size]", "25"), ("page[after]", "abc")]).unwrap();
    assert_eq!(q.page.get("size").map(String::as_str), Some("25"));
    assert_eq!(q.page.get("after").map(String::as_str), Some("abc"));
}

#[test]
fn parses_filter_accumulating_repeated_keys() {
    let q = Query::from_pairs(&[("filter[tag]", "a"), ("filter[tag]", "b")]).unwrap();
    assert_eq!(q.filter.get("tag").unwrap(), &vec!["a".to_string(), "b".to_string()]);
}

#[test]
fn bracket_param_without_close_is_error() {
    let err = Query::from_pairs(&[("filter[tag", "a")]).unwrap_err();
    assert!(matches!(err, Error::QueryParse { .. }));
}

#[test]
fn unknown_top_level_param_is_ignored() {
    let q = Query::from_pairs(&[("unknown", "x"), ("sort", "title")]).unwrap();
    assert_eq!(q.sort.len(), 1);
}

#[test]
fn from_query_string_matches_from_pairs_and_decodes() {
    let q = Query::from_query_string("?sort=-created&filter[name]=john%20doe").unwrap();
    assert_eq!(q.sort[0], SortField { field: "created".into(), descending: true });
    assert_eq!(q.filter.get("name").unwrap(), &vec!["john doe".to_string()]);
}

#[test]
fn from_query_string_empty_is_default() {
    let q = Query::from_query_string("").unwrap();
    assert_eq!(q, Query::default());
}

#[test]
fn page_duplicate_key_is_last_wins_but_filter_accumulates() {
    let q = Query::from_pairs(&[
        ("page[size]", "10"),
        ("page[size]", "20"),
        ("filter[t]", "a"),
        ("filter[t]", "b"),
    ])
    .unwrap();
    assert_eq!(q.page.get("size").map(String::as_str), Some("20"));
    assert_eq!(q.filter.get("t").unwrap(), &vec!["a".to_string(), "b".to_string()]);
}

#[test]
fn from_query_string_rejects_invalid_percent_encoding() {
    let err = Query::from_query_string("?sort=%FF").unwrap_err();
    assert!(matches!(err, Error::QueryParse { .. }));
}

#[test]
fn empty_include_path_names_include() {
    let err = Query::from_pairs(&[("include", "author,")]).unwrap_err();
    assert!(matches!(err, Error::QueryParse { ref param, .. } if param == "include"));
}

#[test]
fn empty_bracket_names_the_key() {
    let err = Query::from_pairs(&[("page[]", "1")]).unwrap_err();
    assert!(matches!(err, Error::QueryParse { ref param, .. } if param == "page[]"));
}

#[test]
fn fields_drop_empty_names() {
    let q = Query::from_pairs(&[("fields[people]", ",name,")]).unwrap();
    assert!(q.fields.is_included("people", "name"));
    assert!(!q.fields.is_included("people", ""));
}

#[test]
fn query_string_piece_without_equals_is_a_key() {
    let q = Query::from_query_string("?&page[x]&&sort=a").unwrap();
    assert_eq!(q.page.get("x").map(String::as_str), Some(""));
    assert_eq!(q.sort.len(), 1);
}

#[test]
fn plus_is_not_a_space() {
    let q = Query::from_query_string("filter[q]=a+b").unwrap();
    assert_eq!(q.filter.get("q").unwrap(), &vec!["a+b".to_string()]);
}

#[test]
fn sort_field_default_is_empty_ascending() {
    let f = SortField::default();
    assert_eq!(f.field, "");
    assert!(!f.descending);
}

#[test]
fn builder_output_reads_back() {
    let qs = jsonapi_core::QueryBuilder::new()
        .filter("name", "J&ne = 100%, café")
        .page("size", "10")
        .sort(&["-created", "title"])
        .include_paths(&["author", "comments.author"])
        .build();
    let q = Query::from_query_string(&qs).unwrap();
    assert_eq!(q.filter.get("name"), Some(&vec!["J&ne = 100%, café".to_string()]));
    assert_eq!(q.page.get("size"), Some(&"10".to_string()));
    assert_eq!(q.sort[0], SortField { field: "created".into(), descending: true });
    assert_eq!(q.sort[1], SortField { field: "title".into(), descending: false });
    assert_eq!(q.include_paths, vec!["author".to_string(), "comments.author".to_string()]);
}

#[test]
fn query_errors_give_reasons() {
    match Query::from_pairs(&[("page[size", "1")]).unwrap_err() {
        Error::QueryParse { param, reason } => {
            assert_eq!(param, "page[size");
            assert_eq!(reason, "malformed `page[...]` parameter");
        }
        other => panic!("unexpected error: {other:?}"),
    }
    match Query::from_query_string("filter[x]=%FF").unwrap_err() {
        Error::QueryParse { param, reason } => {
            assert_eq!(param, "%FF");
            assert!(reason.starts_with("invalid percent-encoding: "));
        }
        other => panic!("unexpected error: {other:?}"),
    }
}

#[test]
fn sort_and_include_pairs_concatenate_in_order() {
    let q = Query::from_pairs(&[
        ("sort", "a,-b"),
        ("include", "author"),
        ("sort", "c"),
        ("include", "comments.author,tags"),
    ])
    .unwrap();
    let sort: Vec<(String, bool)> = q.sort.iter().map(|f| (f.field.clone(), f.descending)).collect();
    assert_eq!(
        sort,
        vec![("a".to_string(), false), ("b".to_string(), true), ("c".to_string(), false)]
    );
    assert_eq!(q.include_paths, vec!["author", "comments.author", "tags"]);
}

#[test]
fn unknown_parameters_are_dropped_without_effect() {
    let with_unknown = Query::from_pairs(&[("unknown", "x"), ("sort", "title"), ("other[", "y")]).unwrap();
    let without = Query::from_pairs(&[("sort", "title")]).unwrap();
    assert_eq!(with_unknown.sort.len(), 1);
    assert_eq!(with_unknown, without);
}

#[test]
fn a_bad_pair_anywhere_is_an_error_naming_the_first() {
    assert!(Query::from_pairs(&[("sort", "a,,b")]).is_err());
    match Query::from_pairs(&[("sort", "a"), ("filter[tag", "a"), ("include", "")]) {
        Err(Error::QueryParse { param, .. }) => assert_eq!(param, "filter[tag"),
        other => panic!("expected QueryParse, got {other:?}"),
    }
    assert!(Query::from_pairs(&[("sort", "a"), ("include", "b"), ("page[size]", "5")]).is_ok());
}
