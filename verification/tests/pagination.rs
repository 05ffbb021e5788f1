use jsonapi_core::{
    CursorLinks, CursorPage, Error, Link, Links, OffsetPage, PageNumberPage, PageStrategy,
    PaginationLinks, Query, CURSOR_PAGINATION_PROFILE,
};


#[test]
fn profile_constant_is_the_ethanresnick_uri() {
    assert_eq!(
        CURSOR_PAGINATION_PROFILE,
        "https://jsonapi.org/profiles/ethanresnick/cursor-pagination"
    );
}

#[test]
fn cursor_page_from_query_reads_size_after_before() {
    let q = Query::from_pairs(&[
        ("page[size]", "25"),
        ("page[after]", "abc"),
        ("page[before]", "xyz"),
    ])
    .unwrap();
    let cp = CursorPage::from_query(&q).unwrap();
    assert_eq!(cp.size, Some(25));
    assert_eq!(cp.after.as_deref(), Some("abc"));
    assert_eq!(cp.before.as_deref(), Some("xyz"));
}

#[test]
fn cursor_page_bad_size_is_query_parse_error() {
    let q = Query::from_pairs(&[("page[size]", "notanumber")]).unwrap();
    let err = CursorPage::from_query(&q).unwrap_err();
    assert!(matches!(err, Error::QueryParse { .. }));
}

#[test]
fn cursor_links_build_emits_requested_links_with_cursors() {
    let links = CursorLinks::new("/articles")
        .preserve(&[("filter[status]", "published")])
        .size(10)
        .first()
        .prev("prevcur")
        .next("nextcur")
        .links();

    assert!(links.contains("first"));
    assert!(links.contains("prev"));
    assert!(links.contains("next"));
    assert!(!links.contains("last"));

    let next_str = match links.get("next").unwrap() {
        Link::String(s) => s.clone(),
        _ => panic!("expected a string link"),
    };
    assert!(next_str.starts_with("/articles?"));
    assert!(next_str.contains("page[after]=nextcur"));
    assert!(next_str.contains("page[size]=10"));
    assert!(next_str.contains("filter[status]=published"));

    let prev_str = match links.get("prev").unwrap() {
        Link::String(s) => s.clone(),
        _ => panic!("expected a string link"),
    };
    assert!(prev_str.contains("page[before]=prevcur"));
}

#[test]
fn cursor_links_first_has_no_cursor() {
    let links = CursorLinks::new("/a").size(5).first().links();
    let first = match links.get("first").unwrap() {
        Link::String(s) => s.clone(),
        _ => panic!(),
    };
    assert!(!first.contains("page[after]"));
    assert!(!first.contains("page[before]"));
    assert!(first.contains("page[size]=5"));
}

#[test]
fn cursor_links_build_emits_last_link_with_before_cursor() {
    let links = CursorLinks::new("/articles")
        .size(10)
        .last("endcur")
        .links();

    assert!(links.contains("last"));
    assert!(!links.contains("first"));
    assert!(!links.contains("prev"));
    assert!(!links.contains("next"));

    let last = match links.get("last").unwrap() {
        Link::String(s) => s.clone(),
        _ => panic!("expected a string link"),
    };
    assert!(last.contains("page[before]=endcur"));
    assert!(!last.contains("page[after]"));
    assert!(last.contains("page[size]=10"));
}

#[test]
#[allow(deprecated)]
fn cursor_links_deprecated_build_matches_fluent() {
    let base = CursorLinks::new("/articles").size(10);
    let positional = base.clone().build(true, None, Some("nextcur"), None);
    let fluent = base.first().next("nextcur").links();
    assert_eq!(positional.get("next"), fluent.get("next"));
    assert_eq!(positional.get("first"), fluent.get("first"));
}

// --- Offset & page-number typed views + link builders (G7) ---

fn link_str(links: &Links, rel: &str) -> String {
    match links.get(rel).unwrap() {
        Link::String(s) => s.clone(),
        _ => panic!("expected a string link for {rel}"),
    }
}

#[test]
fn offset_page_from_query_defaults_offset_to_zero() {
    let q = Query::from_pairs(&[("page[limit]", "10")]).unwrap();
    let op = OffsetPage::from_query(&q).unwrap();
    assert_eq!(op.offset, 0);
    assert_eq!(op.limit, Some(10));
}

#[test]
fn page_number_from_query_defaults_number_to_one() {
    let q = Query::from_pairs(&[("page[size]", "20")]).unwrap();
    let pn = PageNumberPage::from_query(&q).unwrap();
    assert_eq!(pn.number, 1);
    assert_eq!(pn.size, Some(20));
}

#[test]
fn offset_page_bad_value_is_query_parse_error() {
    let q = Query::from_pairs(&[("page[offset]", "nope")]).unwrap();
    let err = OffsetPage::from_query(&q).unwrap_err();
    assert!(
        matches!(err, Error::QueryParse { ref param, .. } if param == "page[offset]")
    );
}

#[test]
fn offset_middle_page_has_all_rels_and_preserves_params() {
    // offset=20, limit=10, total=35 → middle page.
    let links = PaginationLinks::new(
        "/articles",
        PageStrategy::Offset {
            offset: 20,
            limit: 10,
        },
    )
    .preserve(&[("sort", "-created"), ("filter[status]", "published")])
    .total(35)
    .build();

    assert!(links.contains("self"));
    assert!(links.contains("first"));
    assert!(links.contains("prev"));
    assert!(links.contains("next"));
    assert!(links.contains("last"));

    let next = link_str(&links, "next");
    assert!(next.contains("page[offset]=30"), "{next}");
    assert!(next.contains("page[limit]=10"), "{next}");
    assert!(next.contains("sort=-created"), "{next}");
    assert!(next.contains("filter[status]=published"), "{next}");

    assert!(link_str(&links, "prev").contains("page[offset]=10"));
    assert!(link_str(&links, "first").contains("page[offset]=0"));
    // last offset = floor((35-1)/10)*10 = 30.
    assert!(link_str(&links, "last").contains("page[offset]=30"));
    assert!(link_str(&links, "self").contains("page[offset]=20"));
}

#[test]
fn offset_first_page_omits_prev() {
    let links = PaginationLinks::new(
        "/articles",
        PageStrategy::Offset {
            offset: 0,
            limit: 10,
        },
    )
    .total(35)
    .build();
    assert!(!links.contains("prev"));
    assert!(links.contains("next"));
    assert!(links.contains("last"));
}

#[test]
fn offset_last_page_omits_next() {
    // offset=30, limit=10, total=35 → last page (30..35).
    let links = PaginationLinks::new(
        "/articles",
        PageStrategy::Offset {
            offset: 30,
            limit: 10,
        },
    )
    .total(35)
    .build();
    assert!(links.contains("prev"));
    assert!(!links.contains("next"), "at/after end must omit next");
    assert!(links.contains("last"));
}

#[test]
fn unknown_total_omits_last_but_keeps_next() {
    let links = PaginationLinks::new(
        "/articles",
        PageStrategy::Offset {
            offset: 10,
            limit: 10,
        },
    )
    .build();
    assert!(!links.contains("last"), "unknown total → no last");
    assert!(links.contains("next"), "unknown total → next still emitted");
    assert!(links.contains("prev"));
}

#[test]
fn page_number_middle_page_computes_neighbors_and_last() {
    // number=2, size=10, total=35 → last page = ceil(35/10) = 4.
    let links = PaginationLinks::new(
        "/articles",
        PageStrategy::PageNumber {
            number: 2,
            size: 10,
        },
    )
    .total(35)
    .build();
    assert!(link_str(&links, "prev").contains("page[number]=1"));
    assert!(link_str(&links, "next").contains("page[number]=3"));
    assert!(link_str(&links, "last").contains("page[number]=4"));
    assert!(link_str(&links, "first").contains("page[number]=1"));
    assert!(link_str(&links, "self").contains("page[number]=2"));
}

#[test]
fn page_number_last_page_omits_next() {
    let links = PaginationLinks::new(
        "/articles",
        PageStrategy::PageNumber {
            number: 4,
            size: 10,
        },
    )
    .total(35)
    .build();
    assert!(!links.contains("next"));
    assert!(links.contains("prev"));
    assert!(link_str(&links, "last").contains("page[number]=4"));
}

#[test]
fn a_later_preserve_replaces_the_earlier_one() {
    let strategy = PageStrategy::Offset { offset: 10, limit: 10 };
    let twice = PaginationLinks::new("/articles", strategy)
        .preserve(&[("sort", "-created")])
        .preserve(&[("filter[status]", "published")])
        .total(50)
        .build();
    let once = PaginationLinks::new("/articles", strategy)
        .preserve(&[("filter[status]", "published")])
        .total(50)
        .build();
    assert_eq!(twice, once);
    assert!(!link_str(&twice, "next").contains("sort="));
}

#[test]
fn zero_limit_and_zero_size_give_only_self_and_first() {
    let links = PaginationLinks::new("/a", PageStrategy::Offset { offset: 5, limit: 0 }).total(50).build();
    assert_eq!(links.keys(), vec!["first", "self"]);
    let links = PaginationLinks::new("/a", PageStrategy::PageNumber { number: 2, size: 0 }).build();
    assert_eq!(links.keys(), vec!["first", "self"]);
}

#[test]
fn cursor_links_have_exactly_the_asked_links() {
    let links = CursorLinks::new("/articles").first().links();
    assert_eq!(links.keys(), vec!["first"]);
    assert_eq!(link_str(&links, "first"), "/articles");
    let links = CursorLinks::new("/articles").prev("p").next("n").links();
    assert_eq!(links.keys(), vec!["next", "prev"]);
    assert!(link_str(&links, "prev").contains("page[before]=p"));
    assert!(link_str(&links, "next").contains("page[after]=n"));
}
