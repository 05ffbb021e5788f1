use jsonapi_core::links::{
    collection_self, collection_self_links, relationship_links, relationship_related,
    relationship_self, resource_self, resource_self_links,
};
use jsonapi_core::Link;

#[test]
fn resource_and_collection_self_links() {
    assert_eq!(collection_self("https://api.test", "articles"), "https://api.test/articles");
    assert_eq!(resource_self("https://api.test", "articles", "1"), "https://api.test/articles/1");
}

#[test]
fn trailing_slash_in_base_is_not_doubled() {
    assert_eq!(resource_self("https://api.test/", "articles", "1"), "https://api.test/articles/1");
}

#[test]
fn relationship_self_and_related_links() {
    assert_eq!(
        relationship_self("https://api.test", "articles", "1", "author"),
        "https://api.test/articles/1/relationships/author"
    );
    assert_eq!(
        relationship_related("https://api.test", "articles", "1", "author"),
        "https://api.test/articles/1/author"
    );
}

#[test]
fn id_is_percent_encoded_as_a_path_segment() {
    assert_eq!(
        resource_self("https://api.test", "articles", "a/b c"),
        "https://api.test/articles/a%2Fb%20c"
    );
    assert_eq!(
        resource_self("https://api.test", "articles", "a-b_c.d~e"),
        "https://api.test/articles/a-b_c.d~e"
    );
}

#[test]
fn links_maps_carry_self_and_related() {
    let links = resource_self_links("https://api.test", "articles", "1");
    assert!(matches!(links.get("self"), Some(Link::String(s)) if s == "https://api.test/articles/1"));

    let rel = relationship_links("https://api.test", "articles", "1", "author");
    assert!(rel.get("self").is_some());
    assert!(rel.get("related").is_some());
}

#[test]
fn collection_links_hold_only_self() {
    let links = collection_self_links("https://api.test/", "people");
    assert_eq!(links.len(), 1);
    assert!(matches!(links.get("self"), Some(Link::String(s)) if s == "https://api.test/people"));
}

#[test]
fn non_ascii_id_is_percent_encoded() {
    assert_eq!(resource_self("b", "t", "é"), "b/t/%C3%A9");
}
