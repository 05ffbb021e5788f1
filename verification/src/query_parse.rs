//! Server-side parsing of JSON:API request query parameters into a [`Query`].
use crate::encoding::percent_decode_utf8;
use crate::error::{Error, Result};
use crate::fieldset::{str_set, FieldsetConfig};
use crate::str_map::StrMap;
use crate::text::{
    chars_of, find_char, first_index_of, owned, split_char, split_on, starts_with, str_eq,
    str_starts_with,
};
use vstd::prelude::*;
use vstd::utf8::{decode_utf8, encode_utf8, valid_utf8};
use crate::encoding::percent_decoded;

verus! {

/// A single `sort` field with its direction.
#[derive(Debug, Clone, PartialEq, Eq)]
pub struct SortField {
    /// The field name (without the leading `-`).
    pub field: String,
    /// Whether the sort is descending (leading `-` in the token).
    pub descending: bool,
}

impl Default for SortField {
    /// An empty ascending field.
    fn default() -> (r: Self)
        ensures
            r.field@.len() == 0,
            !r.descending,
    {
        SortField { field: String::new(), descending: false }
    }
}

/// A parsed JSON:API request query.
///
/// Filter and page values are kept as generic maps — JSON:API leaves their
/// semantics to the server. Unknown top-level parameters are ignored.
#[derive(Debug, Clone, PartialEq)]
pub struct Query {
    /// Parsed `sort` fields, in request order.
    pub sort: Vec<SortField>,
    /// Parsed `include` dot-paths, in request order.
    pub include_paths: Vec<String>,
    /// Parsed `fields[type]` sparse-fieldset configuration.
    pub fields: FieldsetConfig,
    /// Generic `page[...]` parameters (strategy left to the server).
    pub page: StrMap<String>,
    /// Generic `filter[...]` parameters; repeated keys accumulate.
    pub filter: StrMap<Vec<String>>,
}

/// The mathematical value of a [`Query`].
pub struct QueryView {
    /// `(field, descending)` pairs.
    pub sort: Seq<(Seq<char>, bool)>,
    /// Include paths.
    pub include_paths: Seq<Seq<char>>,
    /// Sparse fieldsets.
    pub fields: Map<Seq<char>, Set<Seq<char>>>,
    /// Page parameters.
    pub page: Map<Seq<char>, Seq<char>>,
    /// Filter parameters.
    pub filter: Map<Seq<char>, Seq<Seq<char>>>,
}

impl View for Query {
    type V = QueryView;

    open spec fn view(&self) -> QueryView {
        QueryView {
            sort: self.sort@.map_values(|f: SortField| (f.field@, f.descending)),
            include_paths: self.include_paths.deep_view(),
            fields: self.fields@,
            page: self.page.as_map().map_values(|v: String| v@),
            filter: self.filter.as_map().map_values(|v: Vec<String>| v.deep_view()),
        }
    }
}

/// The query with nothing in it.
pub open spec fn empty_query() -> QueryView {
    QueryView {
        sort: Seq::empty(),
        include_paths: Seq::empty(),
        fields: Map::empty(),
        page: Map::empty(),
        filter: Map::empty(),
    }
}

/// A sort token's field and direction: a leading `-` means descending.
pub open spec fn sort_field(token: Seq<char>) -> (Seq<char>, bool) {
    if token.len() > 0 && token[0] == '-' {
        (token.skip(1), true)
    } else {
        (token, false)
    }
}

/// `inner` of a `prefix[inner]` key; `None` without the closing `]` or with
/// nothing inside.
pub open spec fn bracket_inner(key: Seq<char>, prefix: Seq<char>) -> Option<Seq<char>> {
    let after = key.skip(prefix.len() + 1int);
    if after.len() >= 2 && after.last() == ']' {
        Some(after.drop_last())
    } else {
        None
    }
}

/// The reason given for a malformed `prefix[...]` parameter.
pub open spec fn malformed_reason(prefix: Seq<char>) -> Seq<char> {
    "malformed `"@ + prefix + "[...]` parameter"@
}

/// The reason given when the parameter `p` does not parse: an empty sort
/// field, an empty include path, or a malformed bracketed parameter.
pub open spec fn query_error_reason(p: Seq<char>) -> Seq<char> {
    if p == "sort"@ {
        "empty sort field"@
    } else if p == "include"@ {
        "empty include path"@
    } else if starts_with(p, "fields["@) {
        malformed_reason("fields"@)
    } else if starts_with(p, "page["@) {
        malformed_reason("page"@)
    } else {
        malformed_reason("filter"@)
    }
}

/// Whether `reason` is one given for a component that does not decode:
/// `invalid percent-encoding: ` and the UTF-8 error's message.
pub open spec fn is_decode_reason(reason: Seq<char>) -> bool {
    reason.len() >= "invalid percent-encoding: "@.len() && reason.take(
        "invalid percent-encoding: "@.len() as int,
    ) == "invalid percent-encoding: "@
}

/// The reason for a component that does not decode, given the UTF-8
/// error's message.
fn decode_reason(message: &str) -> (r: String)
    ensures
        is_decode_reason(r@),
{
    let mut r = owned("invalid percent-encoding: ");
    let ghost prefix = r@;
    crate::text::push_str(&mut r, message);
    assert(r@.take(prefix.len() as int) =~= prefix);
    r
}

/// Whether `e` is the error for the parameter `p` that does not parse.
pub open spec fn is_query_error(e: Error, p: Seq<char>) -> bool {
    e matches Error::QueryParse { param, reason } && param@ == p && reason@ == query_error_reason(p)
}

/// The non-empty pieces of a comma-separated list.
pub open spec fn nonempty_pieces(v: Seq<char>) -> Seq<Seq<char>> {
    split_on(v, ',').filter(|s: Seq<char>| s.len() > 0)
}

/// One `(key, value)` pair applied to a query; `Err` names the offending
/// parameter.
pub open spec fn query_step(q: QueryView, key: Seq<char>, value: Seq<char>) -> core::result::Result<
    QueryView,
    Seq<char>,
> {
    if key == "sort"@ {
        let tokens = split_on(value, ',');
        if exists|i: int| 0 <= i < tokens.len() && sort_field(#[trigger] tokens[i]).0.len() == 0 {
            Err("sort"@)
        } else {
            Ok(QueryView { sort: q.sort + tokens.map_values(|t: Seq<char>| sort_field(t)), ..q })
        }
    } else if key == "include"@ {
        let paths = split_on(value, ',');
        if exists|i: int| 0 <= i < paths.len() && (#[trigger] paths[i]).len() == 0 {
            Err("include"@)
        } else {
            Ok(QueryView { include_paths: q.include_paths + paths, ..q })
        }
    } else if starts_with(key, "fields["@) {
        match bracket_inner(key, "fields"@) {
            None => Err(key),
            Some(t) => Ok(
                QueryView { fields: q.fields.insert(t, nonempty_pieces(value).to_set()), ..q },
            ),
        }
    } else if starts_with(key, "page["@) {
        match bracket_inner(key, "page"@) {
            None => Err(key),
            Some(p) => Ok(QueryView { page: q.page.insert(p, value), ..q }),
        }
    } else if starts_with(key, "filter["@) {
        match bracket_inner(key, "filter"@) {
            None => Err(key),
            Some(f) => Ok(
                QueryView {
                    filter: q.filter.insert(
                        f,
                        if q.filter.contains_key(f) {
                            q.filter[f]
                        } else {
                            Seq::empty()
                        }.push(value),
                    ),
                    ..q
                },
            ),
        }
    } else {
        Ok(q)
    }
}

/// All pairs applied in order to the empty query; the first failing pair's
/// parameter on error.
pub open spec fn query_of_pairs(pairs: Seq<(Seq<char>, Seq<char>)>) -> core::result::Result<
    QueryView,
    Seq<char>,
>
    decreases pairs.len(),
{
    if pairs.len() == 0 {
        Ok(empty_query())
    } else {
        match query_of_pairs(pairs.drop_last()) {
            Err(p) => Err(p),
            Ok(q) => query_step(q, pairs.last().0, pairs.last().1),
        }
    }
}

/// The views of a list of `(key, value)` string-slice pairs.
pub open spec fn pairs_view(pairs: Seq<(&str, &str)>) -> Seq<(Seq<char>, Seq<char>)> {
    pairs.map_values(|p: (&str, &str)| (p.0@, p.1@))
}

/// Extract `inner` from a `prefix[inner]` key (the key starts with `prefix[`).
fn bracket_inner_exec(key: &str, prefix: &str) -> (r: Result<String>)
    requires
        starts_with(key@, prefix@ + "["@),
    ensures
        match r {
            Ok(inner) => bracket_inner(key@, prefix@) == Some(inner@),
            Err(e) => bracket_inner(key@, prefix@) is None && (e matches Error::QueryParse {
                param,
                reason,
            } && param@ == key@ && reason@ == malformed_reason(prefix@)),
        },
{
    proof {
        reveal_strlit("[");
    }
    let v = chars_of(key);
    let n = v.len();
    let plen = chars_of(prefix).len();
    assert(plen + 1 <= n);
    let start = plen + 1;
    assert(key@.skip(start as int) =~= v@.subrange(start as int, n as int));
    if n - start >= 2 && v[n - 1] == ']' {
        assert(v@.subrange(start as int, n as int).drop_last() =~= v@.subrange(
            start as int,
            n - 1,
        ));
        Ok(crate::text::string_from(&v, start, n - 1))
    } else {
        let mut reason = owned("malformed `");
        crate::text::push_str(&mut reason, prefix);
        crate::text::push_str(&mut reason, "[...]` parameter");
        Err(Error::QueryParse { param: owned(key), reason })
    }
}

/// Appends the sort fields of a `sort` value.
fn push_sort(query: &mut Query, value: &str) -> (r: Result<()>)
    ensures
        match r {
            Ok(()) => query_step(old(query)@, "sort"@, value@) == Ok::<QueryView, Seq<char>>(
                final(query)@,
            ),
            Err(e) => query_step(old(query)@, "sort"@, value@) matches Err(p) && is_query_error(e, p),
        },
{
    let tokens = split_char(value, ',');
    let ghost tv = split_on(value@, ',');
    let ghost start = query@;
    let mut i: usize = 0;
    while i < tokens.len()
        invariant
            0 <= i <= tokens@.len(),
            tokens@.map_values(|x: &str| x@) == tv,
            tv == split_on(value@, ','),
            query@ == (QueryView {
                sort: start.sort + tv.take(i as int).map_values(|t: Seq<char>| sort_field(t)),
                ..start
            }),
            forall|j: int| 0 <= j < i ==> sort_field(#[trigger] tv[j]).0.len() > 0,
        decreases tokens@.len() - i,
    {
        let tok = tokens[i];
        assert(tv[i as int] == tok@);
        let tc = chars_of(tok);
        let (field, descending) = if tc.len() > 0 && tc[0] == '-' {
            assert(tok@.skip(1) =~= tc@.subrange(1, tc@.len() as int));
            (crate::text::string_from(&tc, 1, tc.len()), true)
        } else {
            (owned(tok), false)
        };
        assert((field@, descending) == sort_field(tv[i as int]));
        if field.unicode_len() == 0 {
            assert(query_step(start, "sort"@, value@) == Err::<QueryView, Seq<char>>("sort"@));
            return Err(
                Error::QueryParse { param: owned("sort"), reason: owned("empty sort field") },
            );
        }
        let ghost before = query.sort@;
        query.sort.push(SortField { field, descending });
        proof {
            assert(tv.take(i + 1).map_values(|t: Seq<char>| sort_field(t)) =~= tv.take(
                i as int,
            ).map_values(|t: Seq<char>| sort_field(t)).push(sort_field(tv[i as int])));
            assert(query.sort@.map_values(|f: SortField| (f.field@, f.descending)) =~= before.map_values(
                |f: SortField| (f.field@, f.descending),
            ).push((field@, descending)));
        }
        i += 1;
    }
    assert(tv.take(i as int) =~= tv);
    Ok(())
}

/// Appends the paths of an `include` value.
fn push_include(query: &mut Query, value: &str) -> (r: Result<()>)
    ensures
        match r {
            Ok(()) => query_step(old(query)@, "include"@, value@) == Ok::<QueryView, Seq<char>>(
                final(query)@,
            ),
            Err(e) => query_step(old(query)@, "include"@, value@) matches Err(p) && is_query_error(e, p),
        },
{
    proof {
        reveal_strlit("sort");
        reveal_strlit("include");
    }
    let paths = split_char(value, ',');
    let ghost pv = split_on(value@, ',');
    let ghost start = query@;
    let mut i: usize = 0;
    while i < paths.len()
        invariant
            0 <= i <= paths@.len(),
            paths@.map_values(|x: &str| x@) == pv,
            pv == split_on(value@, ','),
            query@ == (QueryView { include_paths: start.include_paths + pv.take(i as int), ..start }),
            forall|j: int| 0 <= j < i ==> (#[trigger] pv[j]).len() > 0,
        decreases paths@.len() - i,
    {
        let p = paths[i];
        assert(pv[i as int] == p@);
        if p.unicode_len() == 0 {
            proof {
                reveal_strlit("sort");
                reveal_strlit("include");
            }
            assert(query_step(start, "include"@, value@) == Err::<QueryView, Seq<char>>(
                "include"@,
            ));
            proof {
                reveal_strlit("sort");
                reveal_strlit("include");
                assert("include"@[0] != "sort"@[0]);
                assert(query_error_reason("include"@) == "empty include path"@);
            }
            return Err(
                Error::QueryParse { param: owned("include"), reason: owned("empty include path") },
            );
        }
        let ghost before = query.include_paths.deep_view();
        query.include_paths.push(owned(p));
        proof {
            assert(pv.take(i + 1) =~= pv.take(i as int).push(pv[i as int]));
            assert(query.include_paths.deep_view() =~= before.push(p@));
        }
        i += 1;
    }
    assert(pv.take(i as int) =~= pv);
    proof {
        reveal_strlit("sort");
        reveal_strlit("include");
        assert("include"@ != "sort"@);
        assert(!(exists|j: int| 0 <= j < pv.len() && (#[trigger] pv[j]).len() == 0));
        assert(start == old(query)@);
    }
    Ok(())
}

/// The non-empty comma-separated pieces of `value`.
fn nonempty_split(value: &str) -> (r: Vec<&str>)
    ensures
        r@.map_values(|x: &str| x@) == nonempty_pieces(value@),
{
    let pieces = split_char(value, ',');
    let ghost pv = split_on(value@, ',');
    let mut out: Vec<&str> = Vec::new();
    let mut i: usize = 0;
    while i < pieces.len()
        invariant
            0 <= i <= pieces@.len(),
            pieces@.map_values(|x: &str| x@) == pv,
            out@.map_values(|x: &str| x@) == pv.take(i as int).filter(|s: Seq<char>| s.len() > 0),
        decreases pieces@.len() - i,
    {
        let p = pieces[i];
        assert(pv[i as int] == p@);
        let ghost before = out@.map_values(|x: &str| x@);
        proof {
            assert(pv.take(i + 1).drop_last() =~= pv.take(i as int));
            reveal_with_fuel(Seq::filter, 1);
        }
        if p.unicode_len() > 0 {
            out.push(p);
            assert(out@.map_values(|x: &str| x@) =~= before.push(p@));
        }
        i += 1;
    }
    assert(pv.take(i as int) =~= pv);
    out
}

/// One `(key, value)` pair applied to `query`.
#[verifier::rlimit(30)]
fn apply_pair(query: &mut Query, key: &str, value: &str) -> (r: Result<()>)
    ensures
        match r {
            Ok(()) => query_step(old(query)@, key@, value@) == Ok::<QueryView, Seq<char>>(
                final(query)@,
            ),
            Err(e) => query_step(old(query)@, key@, value@) matches Err(p) && is_query_error(e, p),
        },
{
    proof {
        reveal_strlit("sort");
        reveal_strlit("include");
        reveal_strlit("fields[");
        reveal_strlit("page[");
        reveal_strlit("filter[");
        reveal_strlit("fields");
        reveal_strlit("page");
        reveal_strlit("filter");
        reveal_strlit("[");
        assert("fields"@ + "["@ =~= "fields["@);
        assert("page"@ + "["@ =~= "page["@);
        assert("filter"@ + "["@ =~= "filter["@);
    }
    if str_eq(key, "sort") {
        push_sort(query, value)
    } else if str_eq(key, "include") {
        push_include(query, value)
    } else if str_starts_with(key, "fields[") {
        let t = bracket_inner_exec(key, "fields")?;
        let names = nonempty_split(value);
        let mut config = FieldsetConfig::new();
        std::mem::swap(&mut config, &mut query.fields);
        query.fields = config.fields(t.as_str(), names.as_slice());
        proof {
            assert(str_set(names@) == nonempty_pieces(value@).to_set());
            assert(query@ =~= (QueryView {
                fields: old(query)@.fields.insert(t@, nonempty_pieces(value@).to_set()),
                ..old(query)@
            }));
        }
        Ok(())
    } else if str_starts_with(key, "page[") {
        let p = bracket_inner_exec(key, "page")?;
        let ghost pk = p@;
        query.page.insert(p, owned(value));
        proof {
            assert(query@.page =~= old(query)@.page.insert(pk, value@)) by {
                assert forall|k: Seq<char>| #[trigger] query@.page.contains_key(k)
                    == old(query)@.page.insert(pk, value@).contains_key(k) by {
                    if k != pk {
                        assert(query.page.has(k) == old(query).page.has(k));
                    }
                }
                assert forall|k: Seq<char>| #[trigger] query@.page.contains_key(k) implies query@.page[k]
                    == old(query)@.page.insert(pk, value@)[k] by {
                    if k != pk {
                        assert(query.page.has(k) == old(query).page.has(k));
                        assert(query.page.lookup(k) == old(query).page.lookup(k));
                    }
                }
            }
            assert(query@ =~= (QueryView { page: old(query)@.page.insert(pk, value@), ..old(query)@ }));
        }
        Ok(())
    } else if str_starts_with(key, "filter[") {
        let f = bracket_inner_exec(key, "filter")?;
        let ghost fk = f@;
        let ghost mid_filter = query.filter;
        let mut values = match query.filter.remove(f.as_str()) {
            Some(vs) => vs,
            None => Vec::new(),
        };
        let ghost prior = if old(query)@.filter.contains_key(fk) {
            old(query)@.filter[fk]
        } else {
            Seq::empty()
        };
        assert(values.deep_view() =~= prior);
        let ghost before = values.deep_view();
        values.push(owned(value));
        assert(values.deep_view() =~= before.push(value@));
        let ghost removed = query.filter;
        query.filter.insert(f, values);
        proof {
            assert(query@.filter =~= old(query)@.filter.insert(fk, prior.push(value@))) by {
                assert forall|k: Seq<char>| #[trigger] query@.filter.contains_key(k)
                    == old(query)@.filter.insert(fk, prior.push(value@)).contains_key(k) by {
                    if k != fk {
                        assert(query.filter.has(k) == removed.has(k));
                        assert(removed.has(k) == mid_filter.has(k));
                    }
                }
                assert forall|k: Seq<char>| #[trigger] query@.filter.contains_key(k) implies query@.filter[k]
                    == old(query)@.filter.insert(fk, prior.push(value@))[k] by {
                    if k != fk {
                        assert(query.filter.has(k) == removed.has(k));
                        assert(removed.has(k) == mid_filter.has(k));
                        assert(query.filter.lookup(k) == removed.lookup(k));
                        assert(removed.lookup(k) == mid_filter.lookup(k));
                    }
                }
            }
            assert(query@ =~= (QueryView {
                filter: old(query)@.filter.insert(fk, prior.push(value@)),
                ..old(query)@
            }));
        }
        Ok(())
    } else {
        Ok(())
    }
}

impl Default for Query {
    /// The empty query.
    fn default() -> (r: Self)
        ensures
            r@ == empty_query(),
    {
        Query::empty()
    }
}

impl Query {
    /// The empty query.
    fn empty() -> (r: Self)
        ensures
            r@ == empty_query(),
    {
        let r = Query {
            sort: Vec::new(),
            include_paths: Vec::new(),
            fields: FieldsetConfig::new(),
            page: StrMap::new(),
            filter: StrMap::new(),
        };
        assert(r@.page =~= Map::<Seq<char>, Seq<char>>::empty());
        assert(r@.filter =~= Map::<Seq<char>, Seq<Seq<char>>>::empty());
        assert(r@.sort =~= Seq::<(Seq<char>, bool)>::empty());
        assert(r@.include_paths =~= Seq::<Seq<char>>::empty());
        r
    }

    /// Parse from already-decoded key/value pairs.
    ///
    /// - Parameters other than `sort`, `include`, `fields[...]`, `page[...]`
    ///   and `filter[...]` are ignored.
    /// - Repeated `filter[key]` values accumulate in encounter order.
    /// - Repeated `page[key]` values are last-wins.
    /// - An empty sort field or include path, or a bracketed parameter without
    ///   its closing `]` or with nothing inside, is [`Error::QueryParse`].
    pub fn from_pairs(pairs: &[(&str, &str)]) -> (r: Result<Query>)
        ensures
            match r {
                Ok(q) => query_of_pairs(pairs_view(pairs@)) == Ok::<QueryView, Seq<char>>(q@),
                Err(e) => query_of_pairs(pairs_view(pairs@)) matches Err(p) && is_query_error(e, p),
            },
    {
        let ghost pv = pairs_view(pairs@);
        let mut query = Query::empty();
        let mut i: usize = 0;
        while i < pairs.len()
            invariant
                0 <= i <= pairs@.len(),
                pv == pairs_view(pairs@),
                query_of_pairs(pv.take(i as int)) == Ok::<QueryView, Seq<char>>(query@),
            decreases pairs@.len() - i,
        {
            let (key, value) = pairs[i];
            assert(pv.take(i + 1).drop_last() =~= pv.take(i as int));
            assert(pv[i as int] == (key@, value@));
            match apply_pair(&mut query, key, value) {
                Ok(()) => {},
                Err(e) => {
                    proof {
                        lemma_query_of_pairs_err(pv, i as int);
                    }
                    return Err(e);
                },
            }
            i += 1;
        }
        assert(pv.take(i as int) =~= pv);
        Ok(query)
    }

    /// Parse from a raw query string (`?a=b&c=d`), percent-decoding keys and
    /// values.
    ///
    /// - A leading `?` is stripped; `""` and `"?"` give the empty query.
    /// - Empty `&`-separated pieces are skipped; a piece without `=` is a key
    ///   with an empty value.
    /// - Keys and values are percent-decoded (`+` is not a space); a piece
    ///   that does not decode to UTF-8 is [`Error::QueryParse`].
    /// - All semantics of [`Query::from_pairs`] apply after decoding.
    pub fn from_query_string(query: &str) -> (r: Result<Query>)
        ensures
            match decoded_pairs(raw_pairs(query@)) {
                Err(bad) => r matches Err(e) && (e matches Error::QueryParse { param, reason }
                    && param@ == bad && is_decode_reason(reason@)),
                Ok(ps) => match r {
                    Ok(q) => query_of_pairs(ps) == Ok::<QueryView, Seq<char>>(q@),
                    Err(e) => query_of_pairs(ps) matches Err(p) && is_query_error(e, p),
                },
            },
    {
        let qv = chars_of(query);
        let n = qv.len();
        let trimmed = if n > 0 && qv[0] == '?' {
            query.substring_char(1, n)
        } else {
            query
        };
        assert(trimmed@ == strip_question(query@)) by {
            if n > 0 && qv@[0] == '?' {
                assert(query@.skip(1) =~= query@.subrange(1, n as int));
            }
        }
        let pieces = split_char(trimmed, '&');
        let ghost all = split_on(trimmed@, '&');
        let ghost raw = raw_pairs(query@);
        let mut decoded: Vec<(String, String)> = Vec::new();
        let mut i: usize = 0;
        assert(all.take(0) =~= Seq::<Seq<char>>::empty());
        assert(decoded@.map_values(|p: (String, String)| (p.0@, p.1@)) =~= Seq::<
            (Seq<char>, Seq<char>),
        >::empty());
        while i < pieces.len()
            invariant
                0 <= i <= pieces@.len(),
                pieces@.map_values(|x: &str| x@) == all,
                all == split_on(strip_question(query@), '&'),
                raw == raw_pairs(query@),
                decoded_pairs(raw_pairs_of(all.take(i as int))) == Ok::<
                    Seq<(Seq<char>, Seq<char>)>,
                    Seq<char>,
                >(decoded@.map_values(|p: (String, String)| (p.0@, p.1@))),
            decreases pieces@.len() - i,
        {
            let piece = pieces[i];
            assert(all[i as int] == piece@);
            assert(all.take(i + 1).drop_last() =~= all.take(i as int));
            let pc = chars_of(piece);
            let np = pc.len();
            if np == 0 {
                proof {
                    lemma_raw_pairs_push(all.take(i as int), piece@);
                    assert(all.take(i + 1) =~= all.take(i as int).push(piece@));
                    assert(raw_pairs_of(all.take(i as int)) + Seq::empty() =~= raw_pairs_of(
                        all.take(i as int),
                    ));
                }
                i += 1;
                continue;
            }
            let (raw_key, raw_val) = match find_char(&pc, 0, np, '=') {
                Some(e) => {
                    assert(pc@.subrange(0, np as int) =~= piece@);
                    assert(piece@.take(e as int) =~= pc@.subrange(0, e as int));
                    assert(piece@.skip(e + 1) =~= pc@.subrange(e + 1, np as int));
                    (piece.substring_char(0, e), piece.substring_char(e + 1, np))
                },
                None => {
                    assert(pc@.subrange(0, np as int) =~= piece@);
                    (piece, "")
                },
            };
            assert((raw_key@, raw_val@) == split_pair(piece@)) by {
                reveal_strlit("");
            }
            proof {
                lemma_raw_pairs_push(all.take(i as int), piece@);
                assert(all.take(i + 1) =~= all.take(i as int).push(piece@));
                assert(raw_pairs_of(all.take(i as int)) + seq![split_pair(piece@)] =~= raw_pairs_of(
                    all.take(i as int),
                ).push(split_pair(piece@)));
                lemma_decoded_pairs_push(raw_pairs_of(all.take(i as int)), split_pair(piece@));
            }
            let key = match percent_decode_utf8(raw_key) {
                Ok(k) => k,
                Err(text) => {
                    proof {
                        lemma_decoded_pairs_err_prefix(raw_pairs_of(all.take(i + 1)), raw, all, i as int);
                    }
                    return Err(
                        Error::QueryParse { param: owned(raw_key), reason: decode_reason(&text) },
                    );
                },
            };
            let val = match percent_decode_utf8(raw_val) {
                Ok(v) => v,
                Err(text) => {
                    proof {
                        lemma_decoded_pairs_err_prefix(raw_pairs_of(all.take(i + 1)), raw, all, i as int);
                    }
                    return Err(
                        Error::QueryParse { param: owned(raw_val), reason: decode_reason(&text) },
                    );
                },
            };
            let ghost before = decoded@.map_values(|p: (String, String)| (p.0@, p.1@));
            decoded.push((key, val));
            assert(decoded@.map_values(|p: (String, String)| (p.0@, p.1@)) =~= before.push(
                (key@, val@),
            ));
            i += 1;
        }
        assert(all.take(i as int) =~= all);
        let mut borrowed: Vec<(&str, &str)> = Vec::new();
        let mut j: usize = 0;
        while j < decoded.len()
            invariant
                0 <= j <= decoded@.len(),
                pairs_view(borrowed@) == decoded@.take(j as int).map_values(
                    |p: (String, String)| (p.0@, p.1@),
                ),
            decreases decoded@.len() - j,
        {
            let ghost before = pairs_view(borrowed@);
            borrowed.push((decoded[j].0.as_str(), decoded[j].1.as_str()));
            assert(pairs_view(borrowed@) =~= before.push((decoded@[j as int].0@, decoded@[j as int].1@)));
            assert(decoded@.take(j + 1).map_values(|p: (String, String)| (p.0@, p.1@)) =~= decoded@.take(
                j as int,
            ).map_values(|p: (String, String)| (p.0@, p.1@)).push(
                (decoded@[j as int].0@, decoded@[j as int].1@),
            ));
            j += 1;
        }
        assert(decoded@.take(j as int) =~= decoded@);
        Query::from_pairs(borrowed.as_slice())
    }
}

/// Once a prefix of the pairs fails, all of them fail the same way.
proof fn lemma_query_of_pairs_err(pv: Seq<(Seq<char>, Seq<char>)>, i: int)
    requires
        0 <= i < pv.len(),
        query_of_pairs(pv.take(i + 1)) is Err,
    ensures
        query_of_pairs(pv) == query_of_pairs(pv.take(i + 1)),
    decreases pv.len() - i,
{
    if i + 1 < pv.len() {
        assert(pv.take(i + 2).drop_last() =~= pv.take(i + 1));
        lemma_query_of_pairs_err(pv, i + 1);
    } else {
        assert(pv.take(i + 1) =~= pv);
    }
}

/// `s` without one leading `?`.
pub open spec fn strip_question(s: Seq<char>) -> Seq<char> {
    if s.len() > 0 && s[0] == '?' {
        s.skip(1)
    } else {
        s
    }
}

/// A raw `key=value` piece split at its first `=` (a piece without `=` is
/// all key).
pub open spec fn split_pair(piece: Seq<char>) -> (Seq<char>, Seq<char>) {
    match first_index_of(piece, '=') {
        Some(e) => (piece.take(e), piece.skip(e + 1)),
        None => (piece, Seq::empty()),
    }
}

/// The raw pairs of some `&`-separated pieces, skipping empty pieces.
pub open spec fn raw_pairs_of(pieces: Seq<Seq<char>>) -> Seq<(Seq<char>, Seq<char>)>
    decreases pieces.len(),
{
    if pieces.len() == 0 {
        Seq::empty()
    } else {
        raw_pairs_of(pieces.drop_last()) + if pieces.last().len() == 0 {
            Seq::empty()
        } else {
            seq![split_pair(pieces.last())]
        }
    }
}

/// The raw (still encoded) pairs of a query string.
pub open spec fn raw_pairs(query: Seq<char>) -> Seq<(Seq<char>, Seq<char>)> {
    raw_pairs_of(split_on(strip_question(query), '&'))
}

/// The percent-decoding of a component, `None` when it is not UTF-8.
pub open spec fn decode_component(s: Seq<char>) -> Option<Seq<char>> {
    if valid_utf8(percent_decoded(encode_utf8(s))) {
        Some(decode_utf8(percent_decoded(encode_utf8(s))))
    } else {
        None
    }
}

/// The decoded pairs, or the first raw component that does not decode.
pub open spec fn decoded_pairs(raw: Seq<(Seq<char>, Seq<char>)>) -> core::result::Result<
    Seq<(Seq<char>, Seq<char>)>,
    Seq<char>,
>
    decreases raw.len(),
{
    if raw.len() == 0 {
        Ok(Seq::empty())
    } else {
        match decoded_pairs(raw.drop_last()) {
            Err(bad) => Err(bad),
            Ok(ps) => match (decode_component(raw.last().0), decode_component(raw.last().1)) {
                (Some(k), Some(v)) => Ok(ps.push((k, v))),
                (None, _) => Err(raw.last().0),
                (Some(_), None) => Err(raw.last().1),
            },
        }
    }
}

proof fn lemma_raw_pairs_push(pieces: Seq<Seq<char>>, p: Seq<char>)
    ensures
        raw_pairs_of(pieces.push(p)) == raw_pairs_of(pieces) + if p.len() == 0 {
            Seq::empty()
        } else {
            seq![split_pair(p)]
        },
{
    assert(pieces.push(p).drop_last() =~= pieces);
}

proof fn lemma_decoded_pairs_push(raw: Seq<(Seq<char>, Seq<char>)>, x: (Seq<char>, Seq<char>))
    ensures
        decoded_pairs(raw.push(x)) == match decoded_pairs(raw) {
            Err(bad) => Err(bad),
            Ok(ps) => match (decode_component(x.0), decode_component(x.1)) {
                (Some(k), Some(v)) => Ok(ps.push((k, v))),
                (None, _) => Err(x.0),
                (Some(_), None) => Err(x.1),
            },
        },
{
    assert(raw.push(x).drop_last() =~= raw);
}

/// A failure on the pairs of a prefix of the pieces is the failure of all.
proof fn lemma_decoded_pairs_err_prefix(
    prefix_raw: Seq<(Seq<char>, Seq<char>)>,
    raw: Seq<(Seq<char>, Seq<char>)>,
    all: Seq<Seq<char>>,
    i: int,
)
    requires
        0 <= i < all.len(),
        prefix_raw == raw_pairs_of(all.take(i + 1)),
        raw == raw_pairs_of(all),
        decoded_pairs(prefix_raw) is Err,
    ensures
        decoded_pairs(raw) == decoded_pairs(prefix_raw),
    decreases all.len() - i,
{
    if i + 1 < all.len() {
        lemma_raw_pairs_push(all.take(i + 1), all[i + 1]);
        assert(all.take(i + 2) =~= all.take(i + 1).push(all[i + 1]));
        let next = raw_pairs_of(all.take(i + 2));
        if all[i + 1].len() == 0 {
            assert(next =~= prefix_raw);
        } else {
            assert(next =~= prefix_raw.push(split_pair(all[i + 1])));
            lemma_decoded_pairs_push(prefix_raw, split_pair(all[i + 1]));
        }
        lemma_decoded_pairs_err_prefix(next, raw, all, i + 1);
    } else {
        assert(all.take(i + 1) =~= all);
    }
}

/// The sort fields that the `sort` pairs of `ps` give, in order: each
/// value split at `,`, each token read by [`sort_field`].
pub open spec fn sorts_of(ps: Seq<(Seq<char>, Seq<char>)>) -> Seq<(Seq<char>, bool)>
    decreases ps.len(),
{
    if ps.len() == 0 {
        Seq::empty()
    } else {
        sorts_of(ps.drop_last()) + if ps.last().0 == "sort"@ {
            split_on(ps.last().1, ',').map_values(|t: Seq<char>| sort_field(t))
        } else {
            Seq::empty()
        }
    }
}

/// The include paths that the `include` pairs of `ps` give, in order: each
/// value split at `,`.
pub open spec fn includes_of(ps: Seq<(Seq<char>, Seq<char>)>) -> Seq<Seq<char>>
    decreases ps.len(),
{
    if ps.len() == 0 {
        Seq::empty()
    } else {
        includes_of(ps.drop_last()) + if ps.last().0 == "include"@ {
            split_on(ps.last().1, ',')
        } else {
            Seq::empty()
        }
    }
}

/// A query's sort fields are those of all its `sort` pairs, and its
/// include paths those of all its `include` pairs, concatenated in order.
pub proof fn lemma_sort_include_concat(ps: Seq<(Seq<char>, Seq<char>)>)
    requires
        query_of_pairs(ps) is Ok,
    ensures
        query_of_pairs(ps)->Ok_0.sort == sorts_of(ps),
        query_of_pairs(ps)->Ok_0.include_paths == includes_of(ps),
    decreases ps.len(),
{
    reveal_strlit("sort");
    reveal_strlit("include");
    assert("sort"@[0] != "include"@[0]);
    if ps.len() == 0 {
    } else {
        let prev = ps.drop_last();
        if query_of_pairs(prev) is Err {
        } else {
            lemma_sort_include_concat(prev);
            let q = query_of_pairs(prev)->Ok_0;
            let k = ps.last().0;
            if k == "sort"@ {
                assert(split_on(ps.last().1, ',').map_values(|t: Seq<char>| sort_field(t)) + Seq::<
                    Seq<char>,
                >::empty().map_values(|t: Seq<char>| sort_field(t)) =~= split_on(ps.last().1, ',').map_values(
                    |t: Seq<char>| sort_field(t),
                ));
                assert(includes_of(ps) =~= includes_of(prev));
            } else if k == "include"@ {
                assert(sorts_of(ps) =~= sorts_of(prev));
            } else {
                assert(sorts_of(ps) =~= sorts_of(prev));
                assert(includes_of(ps) =~= includes_of(prev));
            }
        }
    }
}

/// Whether the pair `(k, v)` does not parse: a `sort` value with an empty
/// field, an `include` value with an empty path, or a `fields[`, `page[` or
/// `filter[` key that is not that prefix, a non-empty name and `]`.
pub open spec fn pair_bad(k: Seq<char>, v: Seq<char>) -> bool {
    if k == "sort"@ {
        exists|i: int|
            0 <= i < split_on(v, ',').len() && sort_field(#[trigger] split_on(v, ',')[i]).0.len() == 0
    } else if k == "include"@ {
        exists|i: int| 0 <= i < split_on(v, ',').len() && (#[trigger] split_on(v, ',')[i]).len() == 0
    } else if starts_with(k, "fields["@) {
        bracket_inner(k, "fields"@) is None
    } else if starts_with(k, "page["@) {
        bracket_inner(k, "page"@) is None
    } else if starts_with(k, "filter["@) {
        bracket_inner(k, "filter"@) is None
    } else {
        false
    }
}

/// A pair fails to apply, to whatever query, exactly when it does not
/// parse, and the error names its key.
proof fn lemma_query_step_err(q: QueryView, k: Seq<char>, v: Seq<char>)
    ensures
        query_step(q, k, v) is Err <==> pair_bad(k, v),
        query_step(q, k, v) matches Err(p) ==> p == k,
{
}

/// Parsing pairs fails exactly when one of them does not parse, and the
/// error names the key of the first such pair.
pub proof fn lemma_query_error_iff(ps: Seq<(Seq<char>, Seq<char>)>)
    ensures
        query_of_pairs(ps) is Err <==> exists|i: int| 0 <= i < ps.len() && pair_bad(#[trigger] ps[i].0, ps[i].1),
        query_of_pairs(ps) matches Err(p) ==> exists|i: int|
            0 <= i < ps.len() && pair_bad(#[trigger] ps[i].0, ps[i].1) && p == ps[i].0 && forall|j: int|
                0 <= j < i ==> !pair_bad(#[trigger] ps[j].0, ps[j].1),
    decreases ps.len(),
{
    if ps.len() > 0 {
        let prev = ps.drop_last();
        lemma_query_error_iff(prev);
        assert forall|j: int| 0 <= j < prev.len() implies #[trigger] prev[j] == ps[j] by {}
        let n = ps.len() - 1;
        assert(ps[n] == ps.last());
        match query_of_pairs(prev) {
            Err(p) => {
                let i = choose|i: int|
                    0 <= i < prev.len() && pair_bad(#[trigger] prev[i].0, prev[i].1) && p == prev[i].0
                        && forall|j: int| 0 <= j < i ==> !pair_bad(#[trigger] prev[j].0, prev[j].1);
                assert(ps[i] == prev[i]);
                assert forall|j: int| 0 <= j < i implies !pair_bad(#[trigger] ps[j].0, ps[j].1) by {
                    assert(ps[j] == prev[j]);
                }
            },
            Ok(q) => {
                lemma_query_step_err(q, ps.last().0, ps.last().1);
                assert forall|j: int| 0 <= j < n implies !pair_bad(#[trigger] ps[j].0, ps[j].1) by {
                    assert(ps[j] == prev[j]);
                }
                if pair_bad(ps[n].0, ps[n].1) {
                } else {
                    assert forall|j: int| 0 <= j < ps.len() implies !pair_bad(#[trigger] ps[j].0, ps[j].1) by {
                        if j < n {
                            assert(ps[j] == prev[j]);
                        }
                    }
                }
            },
        }
    }
}

/// Whether `k` is a parameter a query reads: `sort`, `include`, or one
/// starting with `fields[`, `page[` or `filter[`.
pub open spec fn known_param(k: Seq<char>) -> bool {
    k == "sort"@ || k == "include"@ || starts_with(k, "fields["@) || starts_with(k, "page["@)
        || starts_with(k, "filter["@)
}

/// Unknown top-level parameters are ignored: dropping them changes
/// nothing, neither the query nor the error.
pub proof fn lemma_unknown_params_ignored(ps: Seq<(Seq<char>, Seq<char>)>)
    ensures
        query_of_pairs(ps) == query_of_pairs(
            ps.filter(|p: (Seq<char>, Seq<char>)| known_param(p.0)),
        ),
    decreases ps.len(),
{
    let f = |p: (Seq<char>, Seq<char>)| known_param(p.0);
    reveal_with_fuel(Seq::filter, 1);
    if ps.len() > 0 {
        let prev = ps.drop_last();
        lemma_unknown_params_ignored(prev);
        if known_param(ps.last().0) {
            assert(ps.filter(f) == prev.filter(f).push(ps.last()));
            assert(ps.filter(f).drop_last() =~= prev.filter(f));
            assert(ps.filter(f).last() == ps.last());
        } else {
            assert(ps.filter(f) == prev.filter(f));
            match query_of_pairs(prev) {
                Err(_) => {},
                Ok(q) => {
                    assert(query_step(q, ps.last().0, ps.last().1) == Ok::<QueryView, Seq<char>>(q));
                },
            }
        }
    } else {
        assert(ps.filter(f) =~= ps);
    }
}

/// Whether `k` is the key `fields[t]` of a sparse fieldset for type `t`.
pub open spec fn is_fields_key(k: Seq<char>, t: Seq<char>) -> bool {
    starts_with(k, "fields["@) && bracket_inner(k, "fields"@) == Some(t)
}

/// Sparse fieldsets after parsing: a type `t` has an entry exactly when some
/// `fields[t]` parameter was given, and the entry holds the non-empty
/// comma-separated names of the last such parameter's value; parameters
/// for other types leave it alone.
pub proof fn lemma_fieldsets_of_pairs(ps: Seq<(Seq<char>, Seq<char>)>, t: Seq<char>)
    requires
        query_of_pairs(ps) is Ok,
    ensures
        query_of_pairs(ps)->Ok_0.fields.contains_key(t) <==> exists|i: int|
            0 <= i < ps.len() && is_fields_key(#[trigger] ps[i].0, t),
        query_of_pairs(ps)->Ok_0.fields.contains_key(t) ==> exists|i: int|
            0 <= i < ps.len() && is_fields_key(#[trigger] ps[i].0, t) && (forall|j: int|
                i < j < ps.len() ==> !is_fields_key(#[trigger] ps[j].0, t))
                && query_of_pairs(ps)->Ok_0.fields[t] == nonempty_pieces(ps[i].1).to_set(),
    decreases ps.len(),
{
    reveal_strlit("sort");
    reveal_strlit("include");
    reveal_strlit("fields[");
    if ps.len() > 0 {
        let d = ps.drop_last();
        let n = ps.len() - 1;
        assert(query_of_pairs(d) is Ok);
        lemma_fieldsets_of_pairs(d, t);
        assert forall|j: int| 0 <= j < n implies #[trigger] d[j] == ps[j] by {}
        assert(ps[n] == ps.last());
        let q = query_of_pairs(d)->Ok_0;
        let (k, v) = ps.last();
        assert(!starts_with("sort"@, "fields["@));
        assert("include"@.take(7)[0] != "fields["@[0]);
        assert(!starts_with("include"@, "fields["@));
        if is_fields_key(k, t) {
            assert(k != "sort"@ && k != "include"@);
            assert(query_of_pairs(ps)->Ok_0.fields == q.fields.insert(t, nonempty_pieces(v).to_set()));
            assert(is_fields_key(ps[n].0, t));
        } else {
            assert(query_of_pairs(ps)->Ok_0.fields.contains_key(t) == q.fields.contains_key(t));
            assert(query_of_pairs(ps)->Ok_0.fields.contains_key(t) ==> query_of_pairs(ps)->Ok_0.fields[t]
                == q.fields[t]);
            if q.fields.contains_key(t) {
                let i = choose|i: int|
                    0 <= i < d.len() && is_fields_key(#[trigger] d[i].0, t) && (forall|j: int|
                        i < j < d.len() ==> !is_fields_key(#[trigger] d[j].0, t)) && q.fields[t]
                        == nonempty_pieces(d[i].1).to_set();
                assert(ps[i] == d[i]);
                assert forall|j: int| i < j < ps.len() implies !is_fields_key(#[trigger] ps[j].0, t) by {
                    if j < n {
                        assert(ps[j] == d[j]);
                    }
                }
            } else {
                assert forall|i: int| 0 <= i < ps.len() implies !is_fields_key(#[trigger] ps[i].0, t) by {
                    if i < n {
                        assert(ps[i] == d[i]);
                    }
                }
            }
        }
    }
}

} // verus!
