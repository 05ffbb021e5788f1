//! Pagination: typed views over the generic `page[...]` parameters of a
//! [`Query`], and builders of pagination links (cursor, offset and
//! page-number strategies).
use crate::decimal::{decimal, decimal_string, parse_u64, parse_u64_text};
use crate::error::{Error, Result};
use crate::json::opt_text;
use crate::model::link::{holds_string_links, Link, Links};
use crate::query::{bracketed, param_text, query_text, QueryBuilder};
use crate::query_parse::Query;
use crate::encoding::{lemma_encode_unreserved, unreserved_text, EncodeSet};
use crate::text::{contains_text, lemma_contains_text_extend, lemma_join_contains, owned, push_str};
use vstd::prelude::*;

verus! {

/// The ethanresnick cursor-pagination profile URI.
pub const CURSOR_PAGINATION_PROFILE: &'static str =
    "https://jsonapi.org/profiles/ethanresnick/cursor-pagination";

/// The views of owned `(key, value)` string pairs.
pub open spec fn kv_views(p: Seq<(String, String)>) -> Seq<(Seq<char>, Seq<char>)> {
    p.map_values(|e: (String, String)| (e.0@, e.1@))
}

/// The views of borrowed `(key, value)` string pairs.
pub open spec fn kv_str_views(p: Seq<(&str, &str)>) -> Seq<(Seq<char>, Seq<char>)> {
    p.map_values(|e: (&str, &str)| (e.0@, e.1@))
}

/// The view of an optional string slice.
pub open spec fn opt_str_text(o: Option<&str>) -> Option<Seq<char>> {
    match o {
        Some(s) => Some(s@),
        None => None,
    }
}

/// The raw text of `page[key]`, if present.
pub open spec fn page_text(page: Map<Seq<char>, Seq<char>>, key: Seq<char>) -> Option<Seq<char>> {
    if page.contains_key(key) {
        Some(page[key])
    } else {
        None
    }
}

/// Whether `page[key]` is present but not a non-negative integer.
pub open spec fn page_bad(page: Map<Seq<char>, Seq<char>>, key: Seq<char>) -> bool {
    page.contains_key(key) && parse_u64_text(page[key]) is None
}

/// The number in `page[key]`, `None` when absent.
pub open spec fn page_number_of(page: Map<Seq<char>, Seq<char>>, key: Seq<char>) -> Option<u64> {
    if page.contains_key(key) {
        parse_u64_text(page[key])
    } else {
        None
    }
}

/// The error of a bad `page[key]` value.
pub open spec fn is_page_error(e: Error, key: Seq<char>) -> bool {
    e matches Error::QueryParse { param, reason } && param@ == bracketed("page"@, key) && reason@
        == "expected a non-negative integer"@
}

/// Parameters carried into generated links as they are.
pub open spec fn preserved_params(p: Seq<(Seq<char>, Seq<char>)>) -> Seq<(Seq<char>, Seq<char>, bool)> {
    p.map_values(|kv: (Seq<char>, Seq<char>)| (kv.0, kv.1, false))
}

/// `page[key]=value` parameters.
pub open spec fn page_params(p: Seq<(Seq<char>, Seq<char>)>) -> Seq<(Seq<char>, Seq<char>, bool)> {
    p.map_values(|kv: (Seq<char>, Seq<char>)| (bracketed("page"@, kv.0), kv.1, false))
}

/// `base`, followed by `?` and the query string when there is one.
pub open spec fn with_query(base: Seq<char>, qs: Seq<char>) -> Seq<char> {
    if qs.len() == 0 {
        base
    } else {
        base + "?"@ + qs
    }
}

/// The URL of a page: the preserved parameters, then the `page[...]` ones.
pub open spec fn page_url(
    base: Seq<char>,
    preserved: Seq<(Seq<char>, Seq<char>)>,
    page: Seq<(Seq<char>, Seq<char>)>,
) -> Seq<char> {
    with_query(base, query_text(preserved_params(preserved) + page_params(page)))
}

/// The error for a bad `page[key]` value.
fn page_error(key: &str) -> (e: Error)
    ensures
        is_page_error(e, key@),
{
    let mut param = owned("page[");
    push_str(&mut param, key);
    push_str(&mut param, "]");
    proof {
        reveal_strlit("page[");
        reveal_strlit("page");
        reveal_strlit("[");
        reveal_strlit("]");
        assert(param@ =~= bracketed("page"@, key@));
    }
    Error::QueryParse { param, reason: owned("expected a non-negative integer") }
}

/// `page[key]` of `query` read as a number: `Ok(None)` when absent, an error
/// naming `page[key]` when present but not a non-negative integer.
fn parse_page_u64(query: &Query, key: &str) -> (r: Result<Option<u64>>)
    ensures
        match r {
            Ok(v) => !page_bad(query@.page, key@) && v == page_number_of(query@.page, key@),
            Err(e) => page_bad(query@.page, key@) && is_page_error(e, key@),
        },
{
    match query.page.get(key) {
        Some(raw) => {
            assert(query.page.has(key@));
            match parse_u64(raw.as_str()) {
                Some(n) => Ok(Some(n)),
                None => Err(page_error(key)),
            }
        },
        None => {
            assert(!query@.page.contains_key(key@));
            Ok(None)
        },
    }
}

/// A copy of an optional string.
fn copy_opt(s: Option<&String>) -> (r: Option<String>)
    ensures
        opt_text(r) == match s {
            Some(x) => Some(x@),
            None => None::<Seq<char>>,
        },
{
    match s {
        Some(x) => Some(x.clone()),
        None => None,
    }
}

/// A typed view over the generic `page` map for the cursor-pagination
/// profile.
#[derive(Debug, Clone, Default, PartialEq, Eq)]
pub struct CursorPage {
    /// `page[size]`.
    pub size: Option<u64>,
    /// `page[after]` cursor.
    pub after: Option<String>,
    /// `page[before]` cursor.
    pub before: Option<String>,
}

impl CursorPage {
    /// Extract the cursor-profile page parameters from a parsed [`Query`].
    /// A `page[size]` that is not a non-negative integer is
    /// [`Error::QueryParse`] naming `page[size]`.
    pub fn from_query(query: &Query) -> (r: Result<CursorPage>)
        ensures
            match r {
                Ok(cp) => {
                    &&& !page_bad(query@.page, "size"@)
                    &&& cp.size == page_number_of(query@.page, "size"@)
                    &&& opt_text(cp.after) == page_text(query@.page, "after"@)
                    &&& opt_text(cp.before) == page_text(query@.page, "before"@)
                },
                Err(e) => page_bad(query@.page, "size"@) && is_page_error(e, "size"@),
            },
    {
        let size = parse_page_u64(query, "size")?;
        let after = copy_opt(query.page.get("after"));
        let before = copy_opt(query.page.get("before"));
        Ok(CursorPage { size, after, before })
    }
}

/// A typed view over the generic `page` map for offset pagination
/// (`page[offset]` / `page[limit]`).
#[derive(Debug, Clone, Default, PartialEq, Eq)]
pub struct OffsetPage {
    /// `page[offset]` (defaults to `0`).
    pub offset: u64,
    /// `page[limit]`, if the client supplied one.
    pub limit: Option<u64>,
}

impl OffsetPage {
    /// Extract the offset-strategy page parameters from a parsed [`Query`]:
    /// `offset` defaults to `0`, `limit` to `None`. A value that is present
    /// but not a non-negative integer is [`Error::QueryParse`] naming it
    /// (`page[offset]` is checked first).
    pub fn from_query(query: &Query) -> (r: Result<OffsetPage>)
        ensures
            match r {
                Ok(op) => {
                    &&& !page_bad(query@.page, "offset"@)
                    &&& !page_bad(query@.page, "limit"@)
                    &&& op.offset == match page_number_of(query@.page, "offset"@) {
                        Some(n) => n,
                        None => 0,
                    }
                    &&& op.limit == page_number_of(query@.page, "limit"@)
                },
                Err(e) => if page_bad(query@.page, "offset"@) {
                    is_page_error(e, "offset"@)
                } else {
                    page_bad(query@.page, "limit"@) && is_page_error(e, "limit"@)
                },
            },
    {
        let offset = match parse_page_u64(query, "offset")? {
            Some(n) => n,
            None => 0,
        };
        let limit = parse_page_u64(query, "limit")?;
        Ok(OffsetPage { offset, limit })
    }
}

/// A typed view over the generic `page` map for page-number pagination
/// (`page[number]` / `page[size]`).
#[derive(Debug, Clone, PartialEq, Eq)]
pub struct PageNumberPage {
    /// `page[number]`, 1-based (defaults to `1`).
    pub number: u64,
    /// `page[size]`, if the client supplied one.
    pub size: Option<u64>,
}

impl Default for PageNumberPage {
    /// The first page, with no size.
    fn default() -> (r: Self)
        ensures
            r.number == 1,
            r.size is None,
    {
        PageNumberPage { number: 1, size: None }
    }
}

impl PageNumberPage {
    /// Extract the page-number-strategy page parameters from a parsed
    /// [`Query`]: `number` defaults to `1`, `size` to `None`. A value that is
    /// present but not a non-negative integer is [`Error::QueryParse`] naming
    /// it (`page[number]` is checked first).
    pub fn from_query(query: &Query) -> (r: Result<PageNumberPage>)
        ensures
            match r {
                Ok(pn) => {
                    &&& !page_bad(query@.page, "number"@)
                    &&& !page_bad(query@.page, "size"@)
                    &&& pn.number == match page_number_of(query@.page, "number"@) {
                        Some(n) => n,
                        None => 1,
                    }
                    &&& pn.size == page_number_of(query@.page, "size"@)
                },
                Err(e) => if page_bad(query@.page, "number"@) {
                    is_page_error(e, "number"@)
                } else {
                    page_bad(query@.page, "size"@) && is_page_error(e, "size"@)
                },
            },
    {
        let number = match parse_page_u64(query, "number")? {
            Some(n) => n,
            None => 1,
        };
        let size = parse_page_u64(query, "size")?;
        Ok(PageNumberPage { number, size })
    }
}

/// Owned copies of borrowed `(key, value)` pairs.
fn owned_pairs(pairs: &[(&str, &str)]) -> (r: Vec<(String, String)>)
    ensures
        kv_views(r@) == kv_str_views(pairs@),
{
    let mut out: Vec<(String, String)> = Vec::new();
    let mut i: usize = 0;
    while i < pairs.len()
        invariant
            0 <= i <= pairs@.len(),
            kv_views(out@) == kv_str_views(pairs@).take(i as int),
        decreases pairs@.len() - i,
    {
        let (k, v) = pairs[i];
        let ghost before = kv_views(out@);
        out.push((owned(k), owned(v)));
        assert(kv_views(out@) =~= before.push((k@, v@)));
        assert(kv_str_views(pairs@).take(i + 1) =~= kv_str_views(pairs@).take(i as int).push(
            (k@, v@),
        ));
        i += 1;
    }
    assert(kv_str_views(pairs@).take(i as int) =~= kv_str_views(pairs@));
    out
}

/// The URL of one page of the collection at `base`.
fn link_url(base: &str, preserved: &Vec<(String, String)>, page: &Vec<(String, String)>) -> (r:
    String)
    ensures
        r@ == page_url(base@, kv_views(preserved@), kv_views(page@)),
{
    let ghost pv = kv_views(preserved@);
    let ghost gv = kv_views(page@);
    let mut qb = QueryBuilder::new();
    let mut i: usize = 0;
    assert(qb@ =~= preserved_params(pv.take(0)));
    while i < preserved.len()
        invariant
            0 <= i <= preserved@.len(),
            pv == kv_views(preserved@),
            qb@ == preserved_params(pv.take(i as int)),
        decreases preserved@.len() - i,
    {
        let ghost before = qb@;
        qb = qb.param(preserved[i].0.as_str(), preserved[i].1.as_str());
        assert(pv[i as int] == (preserved@[i as int].0@, preserved@[i as int].1@));
        assert(preserved_params(pv.take(i + 1)) =~= preserved_params(pv.take(i as int)).push(
            (pv[i as int].0, pv[i as int].1, false),
        ));
        i += 1;
    }
    assert(pv.take(i as int) =~= pv);
    let mut j: usize = 0;
    assert(qb@ =~= preserved_params(pv) + page_params(gv.take(0)));
    while j < page.len()
        invariant
            0 <= j <= page@.len(),
            gv == kv_views(page@),
            qb@ == preserved_params(pv) + page_params(gv.take(j as int)),
        decreases page@.len() - j,
    {
        qb = qb.page(page[j].0.as_str(), page[j].1.as_str());
        assert(gv[j as int] == (page@[j as int].0@, page@[j as int].1@));
        assert(page_params(gv.take(j + 1)) =~= page_params(gv.take(j as int)).push(
            (bracketed("page"@, gv[j as int].0), gv[j as int].1, false),
        ));
        assert(preserved_params(pv) + page_params(gv.take(j + 1)) =~= (preserved_params(pv)
            + page_params(gv.take(j as int))).push(
            (bracketed("page"@, gv[j as int].0), gv[j as int].1, false),
        ));
        j += 1;
    }
    assert(gv.take(j as int) =~= gv);
    let qs = qb.build();
    if qs.as_str().unicode_len() == 0 {
        owned(base)
    } else {
        let mut s = owned(base);
        push_str(&mut s, "?");
        push_str(&mut s, qs.as_str());
        s
    }
}

/// Stores a string link under `rel`.
fn put_link(
    links: &mut Links,
    rel: &str,
    url: String,
    Ghost(urls): Ghost<Map<Seq<char>, Seq<char>>>,
)
    requires
        holds_string_links(*old(links), urls),
    ensures
        holds_string_links(*final(links), urls.insert(rel@, url@)),
{
    let ghost u = url@;
    links.insert(rel, Some(Link::String(url)));
    assert forall|k: Seq<char>|
        match #[trigger] links.0.lookup(k) {
            None => !urls.insert(rel@, u).contains_key(k),
            Some(Some(Link::String(s))) => urls.insert(rel@, u).contains_key(k) && s@ == urls.insert(
                rel@,
                u,
            )[k],
            Some(_) => false,
        } by {
        if k != rel@ {
            assert(links.0.lookup(k) == old(links).0.lookup(k));
        }
    }
}

/// A new, empty link map that holds no string links.
fn empty_links() -> (r: Links)
    ensures
        holds_string_links(r, Map::empty()),
{
    Links::new()
}

/// The mathematical value of a [`CursorLinks`] builder.
pub struct CursorLinksView {
    /// The collection path.
    pub base: Seq<char>,
    /// Query parameters carried into every link.
    pub preserved: Seq<(Seq<char>, Seq<char>)>,
    /// `page[size]` of every link.
    pub size: Option<u64>,
    /// Whether a `first` link is emitted.
    pub first: bool,
    /// The `prev` cursor.
    pub prev: Option<Seq<char>>,
    /// The `next` cursor.
    pub next: Option<Seq<char>>,
    /// The `last` cursor.
    pub last: Option<Seq<char>>,
}

/// The `page[...]` pairs of a cursor link.
pub open spec fn cursor_page(size: Option<u64>, cursor: Option<(Seq<char>, Seq<char>)>) -> Seq<
    (Seq<char>, Seq<char>),
> {
    (match size {
        Some(n) => seq![("size"@, decimal(n as nat))],
        None => Seq::empty(),
    }) + match cursor {
        Some(c) => seq![c],
        None => Seq::empty(),
    }
}

/// The URL of a cursor link.
pub open spec fn cursor_url(v: CursorLinksView, cursor: Option<(Seq<char>, Seq<char>)>) -> Seq<
    char,
> {
    page_url(v.base, v.preserved, cursor_page(v.size, cursor))
}

/// The cursor links to emit: `first` without a cursor, `prev` and `last`
/// at `page[before]`, `next` at `page[after]`.
pub open spec fn cursor_link_urls(
    v: CursorLinksView,
    first: bool,
    prev: Option<Seq<char>>,
    next: Option<Seq<char>>,
    last: Option<Seq<char>>,
) -> Map<Seq<char>, Seq<char>> {
    let m0 = Map::<Seq<char>, Seq<char>>::empty();
    let m1 = if first {
        m0.insert("first"@, cursor_url(v, None))
    } else {
        m0
    };
    let m2 = match prev {
        Some(c) => m1.insert("prev"@, cursor_url(v, Some(("before"@, c)))),
        None => m1,
    };
    let m3 = match next {
        Some(c) => m2.insert("next"@, cursor_url(v, Some(("after"@, c)))),
        None => m2,
    };
    match last {
        Some(c) => m3.insert("last"@, cursor_url(v, Some(("before"@, c)))),
        None => m3,
    }
}

/// Builds `first`/`prev`/`next`/`last` pagination links for a
/// cursor-paginated collection, preserving caller-provided query parameters.
#[derive(Debug, Clone)]
pub struct CursorLinks<'a> {
    base_path: &'a str,
    preserved: Vec<(String, String)>,
    size: Option<u64>,
    include_first: bool,
    prev_cursor: Option<String>,
    next_cursor: Option<String>,
    last_cursor: Option<String>,
}

impl<'a> View for CursorLinks<'a> {
    type V = CursorLinksView;

    closed spec fn view(&self) -> CursorLinksView {
        CursorLinksView {
            base: self.base_path@,
            preserved: kv_views(self.preserved@),
            size: self.size,
            first: self.include_first,
            prev: opt_text(self.prev_cursor),
            next: opt_text(self.next_cursor),
            last: opt_text(self.last_cursor),
        }
    }
}

impl<'a> CursorLinks<'a> {
    /// Start building links for a collection at `base_path` (e.g.
    /// `/articles`): no preserved parameters, no size, no links.
    pub fn new(base_path: &'a str) -> (r: Self)
        ensures
            r@ == (CursorLinksView {
                base: base_path@,
                preserved: Seq::empty(),
                size: None,
                first: false,
                prev: None,
                next: None,
                last: None,
            }),
    {
        let r = CursorLinks {
            base_path,
            preserved: Vec::new(),
            size: None,
            include_first: false,
            prev_cursor: None,
            next_cursor: None,
            last_cursor: None,
        };
        assert(r@.preserved =~= Seq::<(Seq<char>, Seq<char>)>::empty());
        r
    }

    /// Carry these (already-decoded) non-`page` query params forward into
    /// every generated link, replacing any set by a prior call.
    pub fn preserve(self, pairs: &[(&str, &str)]) -> (r: Self)
        ensures
            r@ == (CursorLinksView { preserved: kv_str_views(pairs@), ..self@ }),
    {
        let mut s = self;
        s.preserved = owned_pairs(pairs);
        s
    }

    /// Set `page[size]` on every generated link.
    pub fn size(self, size: u64) -> (r: Self)
        ensures
            r@ == (CursorLinksView { size: Some(size), ..self@ }),
    {
        let mut s = self;
        s.size = Some(size);
        s
    }

    /// Emit a cursor-less `first` link.
    pub fn first(self) -> (r: Self)
        ensures
            r@ == (CursorLinksView { first: true, ..self@ }),
    {
        let mut s = self;
        s.include_first = true;
        s
    }

    /// Emit a `prev` link at the given `page[before]` cursor.
    pub fn prev(self, cursor: &str) -> (r: Self)
        ensures
            r@ == (CursorLinksView { prev: Some(cursor@), ..self@ }),
    {
        let mut s = self;
        s.prev_cursor = Some(owned(cursor));
        s
    }

    /// Emit a `next` link at the given `page[after]` cursor.
    pub fn next(self, cursor: &str) -> (r: Self)
        ensures
            r@ == (CursorLinksView { next: Some(cursor@), ..self@ }),
    {
        let mut s = self;
        s.next_cursor = Some(owned(cursor));
        s
    }

    /// Emit a `last` link at the given `page[before]` end-boundary cursor.
    pub fn last(self, cursor: &str) -> (r: Self)
        ensures
            r@ == (CursorLinksView { last: Some(cursor@), ..self@ }),
    {
        let mut s = self;
        s.last_cursor = Some(owned(cursor));
        s
    }

    /// Finish and build the configured links.
    pub fn links(&self) -> (r: Links)
        ensures
            holds_string_links(
                r,
                cursor_link_urls(self@, self@.first, self@.prev, self@.next, self@.last),
            ),
    {
        self.emit(
            self.include_first,
            match &self.prev_cursor {
                Some(c) => Some(c.as_str()),
                None => None,
            },
            match &self.next_cursor {
                Some(c) => Some(c.as_str()),
                None => None,
            },
            match &self.last_cursor {
                Some(c) => Some(c.as_str()),
                None => None,
            },
        )
    }

    /// Build the links from positional arguments (the fluent setters and
    /// [`links`](Self::links) read more clearly at the call site).
    pub fn build(&self, first: bool, prev: Option<&str>, next: Option<&str>, last: Option<&str>) -> (r:
        Links)
        ensures
            holds_string_links(
                r,
                cursor_link_urls(
                    self@,
                    first,
                    opt_str_text(prev),
                    opt_str_text(next),
                    opt_str_text(last),
                ),
            ),
    {
        self.emit(first, prev, next, last)
    }

    fn emit(&self, first: bool, prev: Option<&str>, next: Option<&str>, last: Option<&str>) -> (r:
        Links)
        ensures
            holds_string_links(
                r,
                cursor_link_urls(
                    self@,
                    first,
                    opt_str_text(prev),
                    opt_str_text(next),
                    opt_str_text(last),
                ),
            ),
    {
        proof {
            reveal_strlit("before");
            reveal_strlit("after");
        }
        let ghost v = self@;
        let mut links = empty_links();
        let ghost mut m = Map::<Seq<char>, Seq<char>>::empty();
        if first {
            put_link(&mut links, "first", self.url(None), Ghost(m));
            proof {
                m = m.insert("first"@, cursor_url(v, None));
            }
        }
        if let Some(cur) = prev {
            put_link(&mut links, "prev", self.url(Some(("before", cur))), Ghost(m));
            proof {
                m = m.insert("prev"@, cursor_url(v, Some(("before"@, cur@))));
            }
        }
        if let Some(cur) = next {
            put_link(&mut links, "next", self.url(Some(("after", cur))), Ghost(m));
            proof {
                m = m.insert("next"@, cursor_url(v, Some(("after"@, cur@))));
            }
        }
        if let Some(cur) = last {
            put_link(&mut links, "last", self.url(Some(("before", cur))), Ghost(m));
            proof {
                m = m.insert("last"@, cursor_url(v, Some(("before"@, cur@))));
            }
        }
        assert(m =~= cursor_link_urls(
            v,
            first,
            opt_str_text(prev),
            opt_str_text(next),
            opt_str_text(last),
        ));
        links
    }

    fn url(&self, cursor: Option<(&str, &str)>) -> (r: String)
        ensures
            r@ == cursor_url(
                self@,
                match cursor {
                    Some(c) => Some((c.0@, c.1@)),
                    None => None,
                },
            ),
    {
        let mut page: Vec<(String, String)> = Vec::new();
        if let Some(size) = self.size {
            page.push((owned("size"), decimal_string(size)));
        }
        if let Some((key, value)) = cursor {
            page.push((owned(key), owned(value)));
        }
        let ghost c = match cursor {
            Some(c) => Some((c.0@, c.1@)),
            None => None::<(Seq<char>, Seq<char>)>,
        };
        proof {
            reveal_strlit("size");
        }
        assert(kv_views(page@) =~= cursor_page(self.size, c));
        link_url(self.base_path, &self.preserved, &page)
    }
}

/// The concrete page a [`PaginationLinks`] builder is centered on: either
/// offset/limit or (1-based) number/size.
#[derive(Debug, Clone, Copy, PartialEq, Eq)]
pub enum PageStrategy {
    /// `page[offset]` / `page[limit]` pagination.
    Offset {
        /// The current page's `page[offset]`.
        offset: u64,
        /// The page size, `page[limit]`.
        limit: u64,
    },
    /// `page[number]` / `page[size]` pagination (1-based `number`).
    PageNumber {
        /// The current page's `page[number]` (1-based).
        number: u64,
        /// The page size, `page[size]`.
        size: u64,
    },
}

/// The mathematical value of a [`PaginationLinks`] builder.
pub struct PaginationLinksView {
    /// The collection path.
    pub base: Seq<char>,
    /// Query parameters carried into every link.
    pub preserved: Seq<(Seq<char>, Seq<char>)>,
    /// The current page.
    pub strategy: PageStrategy,
    /// The total number of resources, when known.
    pub total: Option<u64>,
}

/// The offset of the page that holds the last of `total` resources.
pub open spec fn last_offset(total: u64, limit: u64) -> nat {
    if total == 0 {
        0
    } else {
        (((total - 1) as nat / limit as nat) * limit as nat) as nat
    }
}

/// The page offsets an offset link map points at, by link name: `self` and
/// `first` always; with a positive limit, `prev` off the first page, `next`
/// while the next offset is before the total (always with an unknown
/// total), `last` with a known total.
pub open spec fn offset_targets(offset: u64, limit: u64, total: Option<u64>) -> Map<Seq<char>, nat> {
    let m0 = Map::<Seq<char>, nat>::empty().insert("self"@, offset as nat).insert("first"@, 0nat);
    if limit == 0 {
        m0
    } else {
        let m1 = if offset > 0 {
            m0.insert(
                "prev"@,
                if offset >= limit {
                    (offset - limit) as nat
                } else {
                    0nat
                },
            )
        } else {
            m0
        };
        let next_offset: nat = if offset + limit <= u64::MAX {
            (offset + limit) as nat
        } else {
            u64::MAX as nat
        };
        let has_next = match total {
            Some(t) => next_offset < t,
            None => true,
        };
        let m2 = if has_next {
            m1.insert("next"@, next_offset)
        } else {
            m1
        };
        match total {
            Some(t) => m2.insert("last"@, last_offset(t, limit)),
            None => m2,
        }
    }
}

/// `n / d` rounded up.
pub open spec fn ceil_div(n: nat, d: nat) -> nat {
    if n % d == 0 {
        n / d
    } else {
        n / d + 1
    }
}

/// The number of the last page: `total / size` rounded up, at least `1`.
pub open spec fn last_number(total: u64, size: u64) -> nat {
    let c = ceil_div(total as nat, size as nat);
    if c >= 1 {
        c
    } else {
        1
    }
}

/// The page numbers a page-number link map points at, by link name (the
/// current number is taken as at least `1`): `self` and `first` always;
/// with a positive size, `prev` after the first page, `next` before the last
/// page (always with an unknown total), `last` with a known total.
pub open spec fn page_number_targets(number: u64, size: u64, total: Option<u64>) -> Map<
    Seq<char>,
    nat,
> {
    let n: nat = if number >= 1 {
        number as nat
    } else {
        1
    };
    let m0 = Map::<Seq<char>, nat>::empty().insert("self"@, n).insert("first"@, 1nat);
    if size == 0 {
        m0
    } else {
        let m1 = if n > 1 {
            m0.insert("prev"@, (n - 1) as nat)
        } else {
            m0
        };
        let has_next = match total {
            Some(t) => n < last_number(t, size),
            None => true,
        };
        let m2 = if has_next {
            m1.insert("next"@, n + 1)
        } else {
            m1
        };
        match total {
            Some(t) => m2.insert("last"@, last_number(t, size)),
            None => m2,
        }
    }
}

/// The `page[...]` pairs of an offset link.
pub open spec fn offset_page(offset: nat, limit: u64) -> Seq<(Seq<char>, Seq<char>)> {
    seq![("offset"@, decimal(offset)), ("limit"@, decimal(limit as nat))]
}

/// The `page[...]` pairs of a page-number link.
pub open spec fn number_page(number: nat, size: u64) -> Seq<(Seq<char>, Seq<char>)> {
    seq![("number"@, decimal(number)), ("size"@, decimal(size as nat))]
}

/// The URLs of a pagination link map, by link name.
pub open spec fn pagination_link_urls(v: PaginationLinksView) -> Map<Seq<char>, Seq<char>> {
    match v.strategy {
        PageStrategy::Offset { offset, limit } => offset_targets(offset, limit, v.total).map_values(
            |o: nat| page_url(v.base, v.preserved, offset_page(o, limit)),
        ),
        PageStrategy::PageNumber { number, size } => page_number_targets(
            number,
            size,
            v.total,
        ).map_values(|n: nat| page_url(v.base, v.preserved, number_page(n, size))),
    }
}

/// Whether a next page number can be written: with an unknown total the
/// number after the current one must fit in 64 bits.
pub open spec fn next_number_fits(v: PaginationLinksView) -> bool {
    match v.strategy {
        PageStrategy::PageNumber { number, size } => !(v.total is None && size > 0 && number
            == u64::MAX),
        PageStrategy::Offset { .. } => true,
    }
}

/// Builds top-level `self`/`first`/`prev`/`next`/`last` pagination links for
/// an offset- or page-number-paginated collection, preserving
/// caller-provided query parameters.
#[derive(Debug, Clone)]
pub struct PaginationLinks<'a> {
    base_path: &'a str,
    preserved: Vec<(String, String)>,
    strategy: PageStrategy,
    total: Option<u64>,
}

impl<'a> View for PaginationLinks<'a> {
    type V = PaginationLinksView;

    closed spec fn view(&self) -> PaginationLinksView {
        PaginationLinksView {
            base: self.base_path@,
            preserved: kv_views(self.preserved@),
            strategy: self.strategy,
            total: self.total,
        }
    }
}

impl<'a> PaginationLinks<'a> {
    /// Start building links for a collection at `base_path` centered on
    /// `strategy`'s current page, with no preserved parameters and an
    /// unknown total.
    pub fn new(base_path: &'a str, strategy: PageStrategy) -> (r: Self)
        ensures
            r@ == (PaginationLinksView {
                base: base_path@,
                preserved: Seq::empty(),
                strategy,
                total: None,
            }),
    {
        let r = PaginationLinks { base_path, preserved: Vec::new(), strategy, total: None };
        assert(r@.preserved =~= Seq::<(Seq<char>, Seq<char>)>::empty());
        r
    }

    /// Carry these (already-decoded) non-`page` query params forward into
    /// every generated link, replacing any set by a prior call.
    pub fn preserve(self, pairs: &[(&str, &str)]) -> (r: Self)
        ensures
            r@ == (PaginationLinksView { preserved: kv_str_views(pairs@), ..self@ }),
    {
        let mut s = self;
        s.preserved = owned_pairs(pairs);
        s
    }

    /// Set the total number of resources, enabling `last` and bounding
    /// `next`.
    pub fn total(self, total: u64) -> (r: Self)
        ensures
            r@ == (PaginationLinksView { total: Some(total), ..self@ }),
    {
        let mut s = self;
        s.total = Some(total);
        s
    }

    /// Build the `self`/`first`/`prev`/`next`/`last` links.
    pub fn build(&self) -> (r: Links)
        requires
            next_number_fits(self@),
        ensures
            holds_string_links(r, pagination_link_urls(self@)),
    {
        match self.strategy {
            PageStrategy::Offset { offset, limit } => self.build_offset(offset, limit),
            PageStrategy::PageNumber { number, size } => self.build_page_number(number, size),
        }
    }

    fn offset_url(&self, offset: u64, limit: u64) -> (r: String)
        ensures
            r@ == page_url(self@.base, self@.preserved, offset_page(offset as nat, limit)),
    {
        let page = vec![(owned("offset"), decimal_string(offset)), (owned("limit"), decimal_string(limit))];
        assert(kv_views(page@) =~= offset_page(offset as nat, limit));
        link_url(self.base_path, &self.preserved, &page)
    }

    fn number_url(&self, number: u64, size: u64) -> (r: String)
        ensures
            r@ == page_url(self@.base, self@.preserved, number_page(number as nat, size)),
    {
        let page = vec![(owned("number"), decimal_string(number)), (owned("size"), decimal_string(size))];
        assert(kv_views(page@) =~= number_page(number as nat, size));
        link_url(self.base_path, &self.preserved, &page)
    }

    fn build_offset(&self, offset: u64, limit: u64) -> (r: Links)
        requires
            self@.strategy == (PageStrategy::Offset { offset, limit }),
        ensures
            holds_string_links(r, pagination_link_urls(self@)),
    {
        let ghost v = self@;
        let ghost url = |o: nat| page_url(v.base, v.preserved, offset_page(o, limit));
        let mut links = empty_links();
        let ghost mut t = Map::<Seq<char>, nat>::empty();
        assert(Map::<Seq<char>, Seq<char>>::empty() =~= t.map_values(url));
        put_link(&mut links, "self", self.offset_url(offset, limit), Ghost(t.map_values(url)));
        proof {
            assert(t.map_values(url).insert("self"@, url(offset as nat)) =~= t.insert(
                "self"@,
                offset as nat,
            ).map_values(url));
            t = t.insert("self"@, offset as nat);
        }
        put_link(&mut links, "first", self.offset_url(0, limit), Ghost(t.map_values(url)));
        proof {
            assert(t.map_values(url).insert("first"@, url(0nat)) =~= t.insert(
                "first"@,
                0nat,
            ).map_values(url));
            t = t.insert("first"@, 0nat);
        }
        if limit == 0 {
            assert(t =~= offset_targets(offset, limit, v.total));
            return links;
        }
        if offset > 0 {
            let prev = if offset >= limit {
                offset - limit
            } else {
                0
            };
            put_link(&mut links, "prev", self.offset_url(prev, limit), Ghost(t.map_values(url)));
            proof {
                assert(t.map_values(url).insert("prev"@, url(prev as nat)) =~= t.insert(
                    "prev"@,
                    prev as nat,
                ).map_values(url));
                t = t.insert("prev"@, prev as nat);
            }
        }
        let next_offset = if offset > u64::MAX - limit {
            u64::MAX
        } else {
            offset + limit
        };
        let has_next = match self.total {
            Some(total) => next_offset < total,
            None => true,
        };
        if has_next {
            put_link(
                &mut links,
                "next",
                self.offset_url(next_offset, limit),
                Ghost(t.map_values(url)),
            );
            proof {
                assert(t.map_values(url).insert("next"@, url(next_offset as nat)) =~= t.insert(
                    "next"@,
                    next_offset as nat,
                ).map_values(url));
                t = t.insert("next"@, next_offset as nat);
            }
        }
        if let Some(total) = self.total {
            let last = if total == 0 {
                0
            } else {
                let q = (total - 1) / limit;
                assert(q * limit <= total - 1) by (nonlinear_arith)
                    requires
                        limit > 0,
                        q as int == (total - 1) as int / limit as int,
                ;
                q * limit
            };
            assert(last as nat == last_offset(total, limit));
            put_link(&mut links, "last", self.offset_url(last, limit), Ghost(t.map_values(url)));
            proof {
                assert(t.map_values(url).insert("last"@, url(last as nat)) =~= t.insert(
                    "last"@,
                    last as nat,
                ).map_values(url));
                t = t.insert("last"@, last as nat);
            }
        }
        assert(t =~= offset_targets(offset, limit, v.total));
        links
    }

    fn build_page_number(&self, number: u64, size: u64) -> (r: Links)
        requires
            self@.strategy == (PageStrategy::PageNumber { number, size }),
            next_number_fits(self@),
        ensures
            holds_string_links(r, pagination_link_urls(self@)),
    {
        let ghost v = self@;
        let ghost url = |n: nat| page_url(v.base, v.preserved, number_page(n, size));
        let number = if number >= 1 {
            number
        } else {
            1
        };
        let mut links = empty_links();
        let ghost mut t = Map::<Seq<char>, nat>::empty();
        assert(Map::<Seq<char>, Seq<char>>::empty() =~= t.map_values(url));
        put_link(&mut links, "self", self.number_url(number, size), Ghost(t.map_values(url)));
        proof {
            assert(t.map_values(url).insert("self"@, url(number as nat)) =~= t.insert(
                "self"@,
                number as nat,
            ).map_values(url));
            t = t.insert("self"@, number as nat);
        }
        put_link(&mut links, "first", self.number_url(1, size), Ghost(t.map_values(url)));
        proof {
            assert(t.map_values(url).insert("first"@, url(1nat)) =~= t.insert(
                "first"@,
                1nat,
            ).map_values(url));
            t = t.insert("first"@, 1nat);
        }
        if size == 0 {
            assert(t =~= page_number_targets(v.strategy->number, size, v.total));
            return links;
        }
        if number > 1 {
            put_link(
                &mut links,
                "prev",
                self.number_url(number - 1, size),
                Ghost(t.map_values(url)),
            );
            proof {
                assert(t.map_values(url).insert("prev"@, url((number - 1) as nat)) =~= t.insert(
                    "prev"@,
                    (number - 1) as nat,
                ).map_values(url));
                t = t.insert("prev"@, (number - 1) as nat);
            }
        }
        let last: Option<u64> = match self.total {
            Some(total) => {
                let q = total / size;
                assert(q <= total) by (nonlinear_arith)
                    requires
                        size > 0,
                        q == total / size,
                ;
                assert(total % size != 0 ==> q < total) by (nonlinear_arith)
                    requires
                        size > 0,
                        q == total / size,
                ;
                let c = if total % size == 0 {
                    q
                } else {
                    q + 1
                };
                Some(
                    if c >= 1 {
                        c
                    } else {
                        1
                    },
                )
            },
            None => None,
        };
        assert(match self.total {
            Some(t) => last == Some(last_number(t, size) as u64) && last_number(t, size)
                <= u64::MAX,
            None => last is None,
        });
        let has_next = match last {
            Some(l) => number < l,
            None => true,
        };
        if has_next {
            put_link(
                &mut links,
                "next",
                self.number_url(number + 1, size),
                Ghost(t.map_values(url)),
            );
            proof {
                assert(t.map_values(url).insert("next"@, url((number + 1) as nat)) =~= t.insert(
                    "next"@,
                    (number + 1) as nat,
                ).map_values(url));
                t = t.insert("next"@, (number + 1) as nat);
            }
        }
        if let Some(l) = last {
            put_link(&mut links, "last", self.number_url(l, size), Ghost(t.map_values(url)));
            proof {
                assert(t.map_values(url).insert("last"@, url(l as nat)) =~= t.insert(
                    "last"@,
                    l as nat,
                ).map_values(url));
                t = t.insert("last"@, l as nat);
            }
        }
        assert(t =~= page_number_targets(v.strategy->number, size, v.total));
        links
    }
}

/// The `last` offset link points at the page holding the last resource: a
/// multiple of the limit, before the total, less than one page from it.
pub proof fn lemma_last_offset_is_last_page(total: u64, limit: u64)
    requires
        total > 0,
        limit > 0,
    ensures
        last_offset(total, limit) % (limit as nat) == 0,
        last_offset(total, limit) < total,
        total <= last_offset(total, limit) + limit,
{
    let l = limit as int;
    let t = total - 1;
    let q = t / l;
    let r = t % l;
    assert(q * l + r == t && 0 <= r < l && q >= 0) by (nonlinear_arith)
        requires
            l > 0,
            t >= 0,
            q == t / l,
            r == t % l,
    ;
    assert((q * l) % l == 0) by (nonlinear_arith)
        requires
            l > 0,
    ;
    assert(last_offset(total, limit) == q * l);
}

/// The `last` page number is the page holding the last resource: pages
/// before it hold fewer than `total` resources, pages up to it hold them
/// all; with no resources it is the first page.
pub proof fn lemma_last_number_is_last_page(total: u64, size: u64)
    requires
        size > 0,
    ensures
        total == 0 ==> last_number(total, size) == 1,
        total > 0 ==> (last_number(total, size) - 1) * size < total,
        total <= last_number(total, size) * size,
{
    let s = size as int;
    let t = total as int;
    let q = t / s;
    let r = t % s;
    assert(q * s + r == t && 0 <= r < s && q >= 0) by (nonlinear_arith)
        requires
            s > 0,
            t >= 0,
            q == t / s,
            r == t % s,
    ;
    if t > 0 {
        if r == 0 {
            assert(q >= 1) by (nonlinear_arith)
                requires
                    q * s + r == t,
                    r == 0,
                    t > 0,
                    s > 0,
                    q >= 0,
            ;
            assert(last_number(total, size) == q);
            assert((q - 1) * s == q * s - s) by (nonlinear_arith);
        } else {
            assert(last_number(total, size) == q + 1);
            assert((q + 1) * s == q * s + s) by (nonlinear_arith);
        }
    } else {
        assert(q == 0) by (nonlinear_arith)
            requires
                q * s + r == t,
                t == 0,
                s > 0,
                0 <= r < s,
                q >= 0,
        ;
        assert(last_number(total, size) == 1);
    }
}

/// The link names are distinct.
proof fn lemma_rel_names_distinct()
    ensures
        "prev"@ != "self"@,
        "prev"@ != "first"@,
        "next"@ != "self"@,
        "next"@ != "first"@,
        "next"@ != "prev"@,
        "last"@ != "self"@,
        "last"@ != "first"@,
        "last"@ != "prev"@,
        "last"@ != "next"@,
        "self"@ != "first"@,
{
    reveal_strlit("prev");
    reveal_strlit("self");
    reveal_strlit("first");
    reveal_strlit("next");
    reveal_strlit("last");
    assert("prev"@[0] != "self"@[0]);
    assert("self"@[0] != "first"@[0]);
    assert("prev"@[0] != "first"@[0]);
    assert("next"@[0] != "self"@[0]);
    assert("next"@[0] != "first"@[0]);
    assert("next"@[0] != "prev"@[0]);
    assert("last"@[0] != "self"@[0]);
    assert("last"@[0] != "first"@[0]);
    assert("last"@[0] != "prev"@[0]);
    assert("last"@[0] != "next"@[0]);
}

/// No `prev` link on the first page, in either strategy.
pub proof fn lemma_first_page_has_no_prev(limit: u64, number: u64, size: u64, total: Option<u64>)
    requires
        number <= 1,
    ensures
        !offset_targets(0, limit, total).contains_key("prev"@),
        !page_number_targets(number, size, total).contains_key("prev"@),
{
    lemma_rel_names_distinct();
}

/// With an unknown total there is no `last` link, and a `next` link
/// whenever the page size is positive.
pub proof fn lemma_unknown_total(offset: u64, limit: u64, number: u64, size: u64)
    ensures
        !offset_targets(offset, limit, None).contains_key("last"@),
        limit > 0 ==> offset_targets(offset, limit, None).contains_key("next"@),
        !page_number_targets(number, size, None).contains_key("last"@),
        size > 0 ==> page_number_targets(number, size, None).contains_key("next"@),
{
    lemma_rel_names_distinct();
}

/// At or after the end there is no `next` link: an offset page whose next
/// offset reaches the total, a page number at or past the last page.
pub proof fn lemma_no_next_at_end(offset: u64, limit: u64, number: u64, size: u64, total: u64)
    ensures
        offset + limit >= total ==> !offset_targets(offset, limit, Some(total)).contains_key(
            "next"@,
        ),
        size > 0 && number >= last_number(total, size) ==> !page_number_targets(
            number,
            size,
            Some(total),
        ).contains_key("next"@),
{
    lemma_rel_names_distinct();
}

/// The positional build gives the links of the fluent calls: for a
/// builder on which only `preserve` and `size` were called,
/// `build(first, prev, next, last)` gives what `links()` gives after
/// calling `first()` when `first` holds and `prev`, `next`, `last` with
/// each cursor that is given.
pub proof fn lemma_build_matches_fluent(
    v: CursorLinksView,
    first: bool,
    prev: Option<Seq<char>>,
    next: Option<Seq<char>>,
    last: Option<Seq<char>>,
)
    requires
        !v.first,
        v.prev is None,
        v.next is None,
        v.last is None,
    ensures
        ({
            let fluent = CursorLinksView {
                first: first || v.first,
                prev: if prev is Some {
                    prev
                } else {
                    v.prev
                },
                next: if next is Some {
                    next
                } else {
                    v.next
                },
                last: if last is Some {
                    last
                } else {
                    v.last
                },
                ..v
            };
            cursor_link_urls(v, first, prev, next, last) == cursor_link_urls(
                fluent,
                fluent.first,
                fluent.prev,
                fluent.next,
                fluent.last,
            )
        }),
{
}

/// The cursor links, link by link: `first` exactly when asked for, with
/// no cursor; `prev` and `last` exactly when their cursors are set, at
/// `page[before]`; `next` exactly when its cursor is set, at
/// `page[after]`; no other link. With nothing preserved and no size,
/// `first` is the base path itself.
pub proof fn lemma_cursor_links(v: CursorLinksView)
    ensures
        ({
            let m = cursor_link_urls(v, v.first, v.prev, v.next, v.last);
            &&& forall|k: Seq<char>| #[trigger] m.contains_key(k) ==> k == "first"@ || k == "prev"@ || k
                == "next"@ || k == "last"@
            &&& m.contains_key("first"@) <==> v.first
            &&& m.contains_key("prev"@) <==> v.prev is Some
            &&& m.contains_key("next"@) <==> v.next is Some
            &&& m.contains_key("last"@) <==> v.last is Some
            &&& v.first ==> m["first"@] == page_url(v.base, v.preserved, cursor_page(v.size, None))
            &&& v.prev matches Some(c) ==> m["prev"@] == page_url(
                v.base,
                v.preserved,
                cursor_page(v.size, Some(("before"@, c))),
            )
            &&& v.next matches Some(c) ==> m["next"@] == page_url(
                v.base,
                v.preserved,
                cursor_page(v.size, Some(("after"@, c))),
            )
            &&& v.last matches Some(c) ==> m["last"@] == page_url(
                v.base,
                v.preserved,
                cursor_page(v.size, Some(("before"@, c))),
            )
            &&& v.first && v.preserved.len() == 0 && v.size is None ==> m["first"@] == v.base
        }),
{
    lemma_rel_names_distinct();
    let e = Seq::<(Seq<char>, Seq<char>, bool)>::empty();
    assert(preserved_params(Seq::empty()) + page_params(cursor_page(None, None)) =~= e);
    assert(e.map_values(|p: (Seq<char>, Seq<char>, bool)| param_text(p)) =~= Seq::<Seq<char>>::empty());
}

/// A later `preserve` replaces the parameters of an earlier one: the links
/// built after both are those built after the later one alone.
pub proof fn lemma_preserve_replaces(
    v: PaginationLinksView,
    earlier: Seq<(Seq<char>, Seq<char>)>,
    later: Seq<(Seq<char>, Seq<char>)>,
)
    ensures
        pagination_link_urls(
            PaginationLinksView { preserved: later, ..PaginationLinksView { preserved: earlier, ..v } },
        ) == pagination_link_urls(PaginationLinksView { preserved: later, ..v }),
{
    assert(PaginationLinksView { preserved: later, ..PaginationLinksView { preserved: earlier, ..v } }
        == PaginationLinksView { preserved: later, ..v });
}

/// The next offset after `offset`: one `limit` on, saturating at the
/// largest `u64`.
pub open spec fn next_offset(offset: u64, limit: u64) -> nat {
    if offset + limit <= u64::MAX {
        (offset + limit) as nat
    } else {
        u64::MAX as nat
    }
}

/// The offset links, link by link: `self` at the offset and `first` at `0`;
/// with a zero limit nothing else; otherwise `prev` exactly off the first
/// page (one limit back, saturating at `0`), `next` exactly while the next
/// offset is before the total or the total is unknown, and `last` exactly
/// with a known total, at the page holding the last resource.
pub proof fn lemma_offset_links(offset: u64, limit: u64, total: Option<u64>)
    ensures
        offset_targets(offset, limit, total).contains_key("self"@),
        offset_targets(offset, limit, total)["self"@] == offset,
        offset_targets(offset, limit, total).contains_key("first"@),
        offset_targets(offset, limit, total)["first"@] == 0,
        limit == 0 ==> offset_targets(offset, limit, total).dom() == set!["self"@, "first"@],
        limit > 0 ==> (offset_targets(offset, limit, total).contains_key("prev"@) <==> offset > 0),
        limit > 0 && offset > 0 ==> offset_targets(offset, limit, total)["prev"@] == if offset
            >= limit {
            (offset - limit) as nat
        } else {
            0nat
        },
        limit > 0 ==> (offset_targets(offset, limit, total).contains_key("next"@) <==> match total {
            Some(t) => next_offset(offset, limit) < t,
            None => true,
        }),
        limit > 0 && offset_targets(offset, limit, total).contains_key("next"@) ==> offset_targets(
            offset,
            limit,
            total,
        )["next"@] == next_offset(offset, limit),
        limit > 0 ==> (offset_targets(offset, limit, total).contains_key("last"@) <==> total is Some),
        limit > 0 && total is Some ==> offset_targets(offset, limit, total)["last"@] == last_offset(
            total->0,
            limit,
        ),
{
    lemma_rel_names_distinct();
    let m0 = Map::<Seq<char>, nat>::empty().insert("self"@, offset as nat).insert("first"@, 0nat);
    if limit == 0 {
        assert(m0.dom() =~= set!["self"@, "first"@]);
    }
}

/// The page-number links, link by link, with the current number taken as
/// at least `1`: `self` at it and `first` at `1`; with a zero size nothing
/// else; otherwise `prev` exactly after the first page (one back), `next`
/// exactly before the last page or with an unknown total (one on), and
/// `last` exactly with a known total, at the last page.
pub proof fn lemma_page_number_links(number: u64, size: u64, total: Option<u64>)
    ensures
        ({
            let n: nat = if number >= 1 {
                number as nat
            } else {
                1
            };
            let m = page_number_targets(number, size, total);
            &&& m.contains_key("self"@)
            &&& m["self"@] == n
            &&& m.contains_key("first"@)
            &&& m["first"@] == 1
            &&& size == 0 ==> m.dom() == set!["self"@, "first"@]
            &&& size > 0 ==> (m.contains_key("prev"@) <==> n > 1)
            &&& size > 0 && n > 1 ==> m["prev"@] == n - 1
            &&& size > 0 ==> (m.contains_key("next"@) <==> match total {
                Some(t) => n < last_number(t, size),
                None => true,
            })
            &&& size > 0 && m.contains_key("next"@) ==> m["next"@] == n + 1
            &&& size > 0 ==> (m.contains_key("last"@) <==> total is Some)
            &&& size > 0 && total is Some ==> m["last"@] == last_number(total->0, size)
        }),
{
    lemma_rel_names_distinct();
    let n: nat = if number >= 1 {
        number as nat
    } else {
        1
    };
    let m0 = Map::<Seq<char>, nat>::empty().insert("self"@, n).insert("first"@, 1nat);
    if size == 0 {
        assert(m0.dom() =~= set!["self"@, "first"@]);
    }
}

/// A page URL holds each preserved parameter as `name=value`, when the
/// value has only unreserved characters (and so is written as it is).
proof fn lemma_page_url_has_param(
    base: Seq<char>,
    preserved: Seq<(Seq<char>, Seq<char>)>,
    page: Seq<(Seq<char>, Seq<char>)>,
    j: int,
)
    requires
        0 <= j < preserved.len(),
        unreserved_text(preserved[j].1),
    ensures
        contains_text(page_url(base, preserved, page), preserved[j].0 + "="@ + preserved[j].1),
{
    let ps = preserved_params(preserved) + page_params(page);
    let items = ps.map_values(|p: (Seq<char>, Seq<char>, bool)| param_text(p));
    let (k, v) = preserved[j];
    assert(ps[j] == (k, v, false));
    lemma_encode_unreserved(EncodeSet::Unreserved, v);
    assert(items[j] == k + "="@ + v);
    lemma_join_contains(items, "&"@, j);
    let qs = query_text(ps);
    reveal_strlit("=");
    assert((k + "="@ + v).len() > 0);
    assert(qs.len() > 0) by {
        let p = choose|p: int| 0 <= p && p + items[j].len() <= qs.len() && #[trigger] qs.subrange(
            p,
            p + items[j].len(),
        ) == items[j];
    }
    lemma_contains_text_extend(base + "?"@, qs, k + "="@ + v);
}

/// Every link carries each preserved parameter whose value has only
/// unreserved characters as `name=value`, e.g. `sort=-created`.
pub proof fn lemma_preserved_in_every_link(v: PaginationLinksView, j: int)
    requires
        0 <= j < v.preserved.len(),
        unreserved_text(v.preserved[j].1),
    ensures
        forall|name: Seq<char>|
            #[trigger] pagination_link_urls(v).contains_key(name) ==> contains_text(
                pagination_link_urls(v)[name],
                v.preserved[j].0 + "="@ + v.preserved[j].1,
            ),
{
    assert forall|name: Seq<char>| #[trigger] pagination_link_urls(v).contains_key(name) implies contains_text(
        pagination_link_urls(v)[name],
        v.preserved[j].0 + "="@ + v.preserved[j].1,
    ) by {
        match v.strategy {
            PageStrategy::Offset { offset, limit } => {
                let o = offset_targets(offset, limit, v.total)[name];
                lemma_page_url_has_param(v.base, v.preserved, offset_page(o, limit), j);
            },
            PageStrategy::PageNumber { number, size } => {
                let n = page_number_targets(number, size, v.total)[name];
                lemma_page_url_has_param(v.base, v.preserved, number_page(n, size), j);
            },
        }
    }
}

/// Whether `s` ends with `t`.
pub open spec fn ends_with(s: Seq<char>, t: Seq<char>) -> bool {
    s.len() >= t.len() && s.skip(s.len() - t.len()) == t
}

/// Items joined by a separator end with the last item.
proof fn lemma_join_ends(items: Seq<Seq<char>>, sep: Seq<char>)
    requires
        items.len() > 0,
    ensures
        ends_with(crate::text::join_with(items, sep), items.last()),
    decreases items.len(),
{
    let j = crate::text::join_with(items, sep);
    if items.len() == 1 {
        assert(j.skip(0) =~= j);
    } else {
        let x = crate::text::join_with(items.drop_last(), sep) + sep;
        assert(j == x + items.last());
        assert((x + items.last()).skip(x.len() as int) =~= items.last());
    }
}

/// A page URL ends with its two `page[...]` parameters, written
/// `page[a]=x&page[b]=y`, when their values are digit strings.
proof fn lemma_page_url_ends(
    base: Seq<char>,
    preserved: Seq<(Seq<char>, Seq<char>)>,
    a: (Seq<char>, Seq<char>),
    b: (Seq<char>, Seq<char>),
)
    requires
        crate::decimal::all_digits(a.1),
        crate::decimal::all_digits(b.1),
    ensures
        ends_with(
            page_url(base, preserved, seq![a, b]),
            bracketed("page"@, a.0) + "="@ + a.1 + "&"@ + bracketed("page"@, b.0) + "="@ + b.1,
        ),
{
    let ps = preserved_params(preserved) + page_params(seq![a, b]);
    let items = ps.map_values(|p: (Seq<char>, Seq<char>, bool)| param_text(p));
    let n = items.len();
    assert(n >= 2);
    assert(ps[n - 2] == (bracketed("page"@, a.0), a.1, false));
    assert(ps[n - 1] == (bracketed("page"@, b.0), b.1, false));
    assert(unreserved_text(a.1)) by {
        assert forall|i: int| 0 <= i < a.1.len() implies crate::encoding::is_unreserved_char(#[trigger] a.1[i]) by {
            assert(crate::decimal::is_digit(a.1[i]));
        }
    }
    assert(unreserved_text(b.1)) by {
        assert forall|i: int| 0 <= i < b.1.len() implies crate::encoding::is_unreserved_char(#[trigger] b.1[i]) by {
            assert(crate::decimal::is_digit(b.1[i]));
        }
    }
    lemma_encode_unreserved(EncodeSet::Unreserved, a.1);
    lemma_encode_unreserved(EncodeSet::Unreserved, b.1);
    let ia = bracketed("page"@, a.0) + "="@ + a.1;
    let ib = bracketed("page"@, b.0) + "="@ + b.1;
    assert(items[n - 2] == ia);
    assert(items[n - 1] == ib);
    let d = items.drop_last();
    assert(d.last() == ia);
    lemma_join_ends(d, "&"@);
    let jd = crate::text::join_with(d, "&"@);
    let pre = jd.take(jd.len() - ia.len());
    assert(jd =~= pre + ia);
    let qs = query_text(ps);
    assert(qs == jd + "&"@ + ib);
    let suffix = ia + "&"@ + ib;
    assert(qs =~= pre + suffix);
    reveal_strlit("&");
    assert(qs.len() > 0);
    let url = page_url(base, preserved, seq![a, b]);
    assert(url =~= (base + "?"@ + pre) + suffix);
    assert(((base + "?"@ + pre) + suffix).skip((base + "?"@ + pre).len() as int) =~= suffix);
    assert(suffix =~= bracketed("page"@, a.0) + "="@ + a.1 + "&"@ + bracketed("page"@, b.0) + "="@
        + b.1);
    assert(url == with_query(base, qs));
    assert(url == base + "?"@ + qs);
}

/// Every pagination link carries the page it points at and the page size
/// as its last two parameters: `page[number]=N&page[size]=S` for
/// page-number links, with `S` the strategy's size, and
/// `page[offset]=O&page[limit]=L` for offset links, with `L` the
/// strategy's limit.
pub proof fn lemma_links_carry_page_params(v: PaginationLinksView, name: Seq<char>)
    requires
        pagination_link_urls(v).contains_key(name),
    ensures
        match v.strategy {
            PageStrategy::PageNumber { number, size } => ends_with(
                pagination_link_urls(v)[name],
                "page[number]="@ + decimal(page_number_targets(number, size, v.total)[name])
                    + "&page[size]="@ + decimal(size as nat),
            ),
            PageStrategy::Offset { offset, limit } => ends_with(
                pagination_link_urls(v)[name],
                "page[offset]="@ + decimal(offset_targets(offset, limit, v.total)[name])
                    + "&page[limit]="@ + decimal(limit as nat),
            ),
        },
{
    reveal_strlit("page");
    reveal_strlit("[");
    reveal_strlit("]");
    reveal_strlit("=");
    reveal_strlit("&");
    reveal_strlit("number");
    reveal_strlit("size");
    reveal_strlit("offset");
    reveal_strlit("limit");
    reveal_strlit("page[number]=");
    reveal_strlit("&page[size]=");
    reveal_strlit("page[offset]=");
    reveal_strlit("&page[limit]=");
    match v.strategy {
        PageStrategy::PageNumber { number, size } => {
            let n = page_number_targets(number, size, v.total)[name];
            crate::decimal::lemma_decimal_digits(n);
            crate::decimal::lemma_decimal_digits(size as nat);
            lemma_page_url_ends(v.base, v.preserved, ("number"@, decimal(n)), ("size"@, decimal(size as nat)));
            assert(bracketed("page"@, "number"@) + "="@ + decimal(n) + "&"@ + bracketed("page"@, "size"@) + "="@
                + decimal(size as nat) =~= "page[number]="@ + decimal(n) + "&page[size]="@ + decimal(size as nat));
        },
        PageStrategy::Offset { offset, limit } => {
            let o = offset_targets(offset, limit, v.total)[name];
            crate::decimal::lemma_decimal_digits(o);
            crate::decimal::lemma_decimal_digits(limit as nat);
            lemma_page_url_ends(v.base, v.preserved, ("offset"@, decimal(o)), ("limit"@, decimal(limit as nat)));
            assert(bracketed("page"@, "offset"@) + "="@ + decimal(o) + "&"@ + bracketed("page"@, "limit"@) + "="@
                + decimal(limit as nat) =~= "page[offset]="@ + decimal(o) + "&page[limit]="@ + decimal(limit as nat));
        },
    }
}

} // verus!
