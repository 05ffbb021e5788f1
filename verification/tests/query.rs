use jsonapi_core::QueryBuilder;

#[test]
fn empty_builder_returns_empty_string() {
    let qs = QueryBuilder::new().build();
    assert_eq!(qs, "");
}

#[test]
fn single_filter() {
    let qs = QueryBuilder::new().filter("name", "john").build();
    assert_eq!(qs, "filter[name]=john");
}

#[test]
fn multiple_filters() {
    let qs = QueryBuilder::new().filter("name", "john").filter("age", "30").build();
    assert_eq!(qs, "filter[name]=john&filter[age]=30");
}

#[test]
fn sort_single_field() {
    let qs = QueryBuilder::new().sort(&["title"]).build();
    assert_eq!(qs, "sort=title");
}

#[test]
fn sort_multiple_with_descending() {
    let qs = QueryBuilder::new().sort(&["-created", "title"]).build();
    assert_eq!(qs, "sort=-created,title");
}

#[test]
fn include_single_path() {
    let qs = QueryBuilder::new().include_paths(&["author"]).build();
    assert_eq!(qs, "include=author");
}

#[test]
fn include_multiple_paths() {
    let qs = QueryBuilder::new().include_paths(&["author", "comments.author"]).build();
    assert_eq!(qs, "include=author,comments.author");
}

#[test]
fn fields_sparse_fieldset() {
    let qs = QueryBuilder::new().fields("articles", &["title", "body"]).build();
    assert_eq!(qs, "fields[articles]=title,body");
}

#[test]
fn fields_multiple_types() {
    let qs = QueryBuilder::new().fields("articles", &["title"]).fields("people", &["name"]).build();
    assert_eq!(qs, "fields[articles]=title&fields[people]=name");
}

#[test]
fn page_parameter() {
    let qs = QueryBuilder::new().page("size", "25").build();
    assert_eq!(qs, "page[size]=25");
}

#[test]
fn page_multiple() {
    let qs = QueryBuilder::new().page("size", "25").page("number", "2").build();
    assert_eq!(qs, "page[size]=25&page[number]=2");
}

#[test]
fn raw_param() {
    let qs = QueryBuilder::new().param("custom", "value").build();
    assert_eq!(qs, "custom=value");
}

#[test]
fn raw_param_with_brackets() {
    let qs = QueryBuilder::new().param("stats[total]", "true").build();
    assert_eq!(qs, "stats[total]=true");
}

#[test]
fn value_with_spaces_encoded() {
    let qs = QueryBuilder::new().filter("name", "john doe").build();
    assert_eq!(qs, "filter[name]=john%20doe");
}

#[test]
fn value_with_special_chars_encoded() {
    let qs = QueryBuilder::new().filter("q", "a&b=c").build();
    assert_eq!(qs, "filter[q]=a%26b%3Dc");
}

#[test]
fn unreserved_chars_not_encoded() {
    let qs = QueryBuilder::new().filter("q", "a-b_c.d~e").build();
    assert_eq!(qs, "filter[q]=a-b_c.d~e");
}

#[test]
fn unicode_value_encoded() {
    let qs = QueryBuilder::new().filter("name", "café").build();
    assert_eq!(qs, "filter[name]=caf%C3%A9");
}

#[test]
fn brackets_in_keys_are_literal() {
    let qs = QueryBuilder::new().filter("name", "x").build();
    assert!(qs.contains("filter[name]"));
    assert!(!qs.contains("%5B"));
    assert!(!qs.contains("%5D"));
}

#[test]
fn method_chaining_preserves_insertion_order() {
    let qs = QueryBuilder::new()
        .include_paths(&["author"])
        .filter("status", "published")
        .sort(&["-created"])
        .page("size", "10")
        .fields("articles", &["title"])
        .build();
    assert_eq!(
        qs,
        "include=author&filter[status]=published&sort=-created&page[size]=10&fields[articles]=title"
    );
}

#[test]
fn commas_in_sort_are_literal() {
    let qs = QueryBuilder::new().sort(&["a", "b", "c"]).build();
    assert_eq!(qs, "sort=a,b,c");
    assert!(!qs.contains("%2C"));
}

#[test]
fn commas_in_filter_values_are_encoded() {
    let qs = QueryBuilder::new().filter("tags", "a,b").build();
    assert_eq!(qs, "filter[tags]=a%2Cb");
}

#[test]
fn commas_in_param_values_are_encoded() {
    let qs = QueryBuilder::new().param("q", "a,b,c").build();
    assert_eq!(qs, "q=a%2Cb%2Cc");
}

#[test]
fn comma_separated_segments_are_encoded_one_by_one() {
    let qs = QueryBuilder::new().sort(&["a b", "c&d"]).build();
    assert_eq!(qs, "sort=a%20b,c%26d");
}

#[test]
fn default_builder_is_empty() {
    assert_eq!(QueryBuilder::default().build(), "");
}
