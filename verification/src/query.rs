//! JSON:API query strings: [`QueryBuilder`] builds them client-side.
//!
//! Bracketed parameter names (`filter[...]`, `fields[...]`, `page[...]`)
//! stay literal; values are percent-encoded per RFC 3986 (everything but
//! `A-Z a-z 0-9 - _ . ~`). Commas in sort/include/fields are kept as
//! delimiters; commas in filter/page/param values are encoded.
use crate::encoding::{percent_encode, percent_encoded, EncodeSet};
use crate::text::{
    chars_of, find_char, join_strs, join_with, lemma_join_push, owned, push_joined, push_str,
    split_on,
};
use vstd::prelude::*;
use vstd::utf8::encode_utf8;

verus! {

/// A method-chaining query string builder for JSON:API requests.
#[derive(Debug, Clone)]
pub struct QueryBuilder {
    params: Vec<(String, String, bool)>,
}

/// The mathematical value of one builder parameter: name, raw value, and
/// whether commas in the value are delimiters.
pub open spec fn param_view(p: (String, String, bool)) -> (Seq<char>, Seq<char>, bool) {
    (p.0@, p.1@, p.2)
}

impl View for QueryBuilder {
    type V = Seq<(Seq<char>, Seq<char>, bool)>;

    closed spec fn view(&self) -> Seq<(Seq<char>, Seq<char>, bool)> {
        self.params@.map_values(|p: (String, String, bool)| param_view(p))
    }
}

/// `prefix[inner]`.
pub open spec fn bracketed(prefix: Seq<char>, inner: Seq<char>) -> Seq<char> {
    prefix + "["@ + inner + "]"@
}

/// The views of a list of string slices.
pub open spec fn str_views(s: Seq<&str>) -> Seq<Seq<char>> {
    s.map_values(|x: &str| x@)
}

/// The percent-encoding of text's UTF-8 bytes, query-value flavour.
pub open spec fn encode_component(s: Seq<char>) -> Seq<char> {
    percent_encoded(EncodeSet::Unreserved, encode_utf8(s))
}

/// How a parameter value is written: comma-separated segments encoded one
/// by one when commas are delimiters, the whole value encoded otherwise.
pub open spec fn encode_value(v: Seq<char>, keep_commas: bool) -> Seq<char> {
    if keep_commas {
        join_with(split_on(v, ',').map_values(|seg: Seq<char>| encode_component(seg)), ","@)
    } else {
        encode_component(v)
    }
}

/// The `name=value` text of one parameter.
pub open spec fn param_text(p: (Seq<char>, Seq<char>, bool)) -> Seq<char> {
    p.0 + "="@ + encode_value(p.1, p.2)
}

/// The query string of a list of parameters: their texts joined by `&`.
pub open spec fn query_text(ps: Seq<(Seq<char>, Seq<char>, bool)>) -> Seq<char> {
    join_with(ps.map_values(|p: (Seq<char>, Seq<char>, bool)| param_text(p)), "&"@)
}

fn bracket(prefix: &str, inner: &str) -> (r: String)
    ensures
        r@ == bracketed(prefix@, inner@),
{
    let mut s = owned(prefix);
    push_str(&mut s, "[");
    push_str(&mut s, inner);
    push_str(&mut s, "]");
    s
}

/// Encodes a value whose commas are delimiters.
fn encode_segments(value: &String) -> (r: String)
    ensures
        r@ == encode_value(value@, true),
{
    let v = chars_of(value.as_str());
    let n = v.len();
    let ghost segs = split_on(value@, ',');
    let ghost enc = segs.map_values(|seg: Seq<char>| encode_component(seg));
    let mut out = String::new();
    let mut lo: usize = 0;
    let ghost mut k: int = 0;
    let mut first = true;
    assert(v@.subrange(0, n as int) =~= v@);
    loop
        invariant_except_break
            segs == segs.take(k as int) + split_on(v@.subrange(lo as int, n as int), ','),
        invariant
            lo <= n == v@.len(),
            v@ == value@,
            segs == split_on(value@, ','),
            enc == segs.map_values(|seg: Seq<char>| encode_component(seg)),
            0 <= k <= segs.len(),
            first == (k == 0),
            out@ == join_with(enc.take(k as int), ","@),
        ensures
            k == segs.len(),
        decreases n - lo,
    {
        let ghost rest = v@.subrange(lo as int, n as int);
        let (end, last) = match find_char(&v, lo, n, ',') {
            Some(c) => (c, false),
            None => (n, true),
        };
        proof {
            if !last {
                assert(rest.take(end - lo) =~= v@.subrange(lo as int, end as int));
                assert(rest.skip(end - lo + 1) =~= v@.subrange(end + 1, n as int));
            }
        }
        assert(split_on(rest, ',')[0] == v@.subrange(lo as int, end as int));
        assert(segs[k as int] == v@.subrange(lo as int, end as int));
        let seg = value.as_str().substring_char(lo, end);
        let e = percent_encode(seg, EncodeSet::Unreserved);
        proof {
            lemma_join_push(enc.take(k as int), ","@, e@);
            assert(enc.take(k + 1) =~= enc.take(k as int).push(e@));
        }
        push_joined(&mut out, first, ",", e.as_str());
        proof {
            if k == 0 {
                assert(out@ =~= e@);
            }
            k = k + 1;
        }
        first = false;
        if last {
            proof {
                assert(split_on(rest, ',') =~= seq![v@.subrange(lo as int, end as int)]);
                assert(segs =~= segs.take(k as int));
            }
            break;
        }
        proof {
            assert(segs.take(k as int) =~= segs.take(k - 1) + seq![segs[k - 1]]);
            assert(segs =~= segs.take(k as int) + split_on(v@.subrange(end + 1, n as int), ','));
        }
        lo = end + 1;
    }
    assert(enc.take(k as int) =~= enc);
    out
}

impl QueryBuilder {
    /// Create an empty query builder.
    pub fn new() -> (r: Self)
        ensures
            r@.len() == 0,
    {
        QueryBuilder { params: Vec::new() }
    }

    fn with(self, name: String, value: String, keep_commas: bool) -> (r: Self)
        ensures
            r@ == self@.push((name@, value@, keep_commas)),
    {
        let ghost before = self@;
        let ghost entry = (name@, value@, keep_commas);
        let mut params = self.params;
        params.push((name, value, keep_commas));
        let r = QueryBuilder { params };
        proof {
            assert(r@ =~= before.push(entry));
        }
        r
    }

    /// Add a filter parameter: `filter[key]=value`.
    pub fn filter(self, key: &str, value: &str) -> (r: Self)
        ensures
            r@ == self@.push((bracketed("filter"@, key@), value@, false)),
    {
        self.with(bracket("filter", key), owned(value), false)
    }

    /// Add a sort parameter: `sort=field1,-field2` (descending fields carry
    /// a `-` prefix).
    pub fn sort(self, fields: &[&str]) -> (r: Self)
        ensures
            r@ == self@.push(("sort"@, join_with(str_views(fields@), ","@), true)),
    {
        self.with(owned("sort"), join_strs(fields, ","), true)
    }

    /// Add an include parameter: `include=path1,path2`.
    pub fn include_paths(self, paths: &[&str]) -> (r: Self)
        ensures
            r@ == self@.push(("include"@, join_with(str_views(paths@), ","@), true)),
    {
        self.with(owned("include"), join_strs(paths, ","), true)
    }

    /// Add a sparse fieldset parameter: `fields[type]=field1,field2`.
    pub fn fields(self, type_: &str, fields: &[&str]) -> (r: Self)
        ensures
            r@ == self@.push((bracketed("fields"@, type_@), join_with(str_views(fields@), ","@), true)),
    {
        self.with(bracket("fields", type_), join_strs(fields, ","), true)
    }

    /// Add a pagination parameter: `page[key]=value`.
    pub fn page(self, key: &str, value: &str) -> (r: Self)
        ensures
            r@ == self@.push((bracketed("page"@, key@), value@, false)),
    {
        self.with(bracket("page", key), owned(value), false)
    }

    /// Add an arbitrary key=value parameter; the key is passed through as-is.
    pub fn param(self, key: &str, value: &str) -> (r: Self)
        ensures
            r@ == self@.push((key@, value@, false)),
    {
        self.with(owned(key), owned(value), false)
    }

    /// Build the query string, without a leading `?`: the parameters in
    /// insertion order as `name=value`, joined by `&`. `""` when empty.
    pub fn build(&self) -> (r: String)
        ensures
            r@ == query_text(self@),
    {
        let ghost texts = self@.map_values(|p: (Seq<char>, Seq<char>, bool)| param_text(p));
        let mut out = String::new();
        let mut i: usize = 0;
        while i < self.params.len()
            invariant
                0 <= i <= self.params@.len(),
                texts == self@.map_values(|p: (Seq<char>, Seq<char>, bool)| param_text(p)),
                out@ == join_with(texts.take(i as int), "&"@),
            decreases self.params@.len() - i,
        {
            let (name, value, keep_commas) = (&self.params[i].0, &self.params[i].1, self.params[i].2);
            assert(self@[i as int] == (name@, value@, keep_commas));
            let mut piece = name.clone();
            push_str(&mut piece, "=");
            let encoded = if keep_commas {
                encode_segments(value)
            } else {
                percent_encode(value.as_str(), EncodeSet::Unreserved)
            };
            push_str(&mut piece, encoded.as_str());
            assert(piece@ == texts[i as int]);
            proof {
                lemma_join_push(texts.take(i as int), "&"@, piece@);
                assert(texts.take(i + 1) =~= texts.take(i as int).push(piece@));
            }
            push_joined(&mut out, i == 0, "&", piece.as_str());
            proof {
                if i == 0 {
                    assert(out@ =~= piece@);
                }
            }
            i += 1;
        }
        assert(texts.take(i as int) =~= texts);
        out
    }
}

impl Default for QueryBuilder {
    /// An empty builder.
    fn default() -> (r: Self)
        ensures
            r@.len() == 0,
    {
        QueryBuilder::new()
    }
}

} // verus!
