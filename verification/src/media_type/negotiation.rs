//! `application/vnd.api+json` with its `ext` and `profile` parameters:
//! parsing, formatting, `Content-Type` validation and `Accept` negotiation.
use crate::error::{Error, Result};
use crate::media_type::parser::{
    is_parse_error, params_view, parse_media_type, parse_media_type_params,
};
use crate::text::{
    chars_of, eq_ignore_ascii_case, find_char, first_index_of, join_with, owned, push_char,
    push_str, push_words, range_eq, range_eq_ignore_ascii_case, split_on, split_ws, str_eq, trim,
    trim_range,
};
use vstd::prelude::*;

verus! {

/// The JSON:API media type.
pub open spec fn jsonapi_media_type() -> Seq<char> {
    "application/vnd.api+json"@
}

/// Parsed JSON:API media type with extension and profile parameters.
#[derive(Debug, Clone, PartialEq, Eq)]
pub struct JsonApiMediaType {
    /// Extension URIs.
    pub ext: Vec<String>,
    /// Profile URIs.
    pub profile: Vec<String>,
}

/// The parameter names JSON:API defines for its media type.
pub open spec fn is_known_param(key: Seq<char>) -> bool {
    key == "ext"@ || key == "profile"@
}

/// The URIs a parameter list gives under `key`: the whitespace-separated
/// words of every value with that key, in order.
pub open spec fn values_for(ps: Seq<(Seq<char>, Seq<char>)>, key: Seq<char>) -> Seq<Seq<char>>
    decreases ps.len(),
{
    if ps.len() == 0 {
        Seq::empty()
    } else {
        values_for(ps.drop_last(), key) + if ps.last().0 == key {
            split_ws(ps.last().1)
        } else {
            Seq::empty()
        }
    }
}

/// Index of the first parameter that is neither `ext` nor `profile`.
pub open spec fn first_unknown(ps: Seq<(Seq<char>, Seq<char>)>) -> Option<int>
    decreases ps.len(),
{
    if ps.len() == 0 {
        None
    } else if !is_known_param(ps[0].0) {
        Some(0)
    } else {
        match first_unknown(ps.drop_first()) {
            Some(i) => Some(i + 1),
            None => None,
        }
    }
}

/// Proves which index `first_unknown` picks.
pub proof fn lemma_first_unknown(ps: Seq<(Seq<char>, Seq<char>)>, i: int)
    requires
        0 <= i <= ps.len(),
        forall|j: int| 0 <= j < i ==> is_known_param(#[trigger] ps[j].0),
        i < ps.len() ==> !is_known_param(ps[i].0),
    ensures
        first_unknown(ps) == if i < ps.len() {
            Some(i)
        } else {
            None
        },
    decreases ps.len(),
{
    if ps.len() > 0 && i > 0 {
        assert(is_known_param(ps[0].0));
        assert forall|j: int| 0 <= j < i - 1 implies is_known_param(
            #[trigger] ps.drop_first()[j].0,
        ) by {
            assert(ps.drop_first()[j] == ps[j + 1]);
        }
        lemma_first_unknown(ps.drop_first(), i - 1);
    }
}

/// The `ext` and `profile` URIs of a JSON:API media-type header, `None` when
/// the header does not parse, its base type is not
/// `application/vnd.api+json` (ASCII case ignored), or — when
/// `reject_unknown` — it carries another parameter.
pub open spec fn jsonapi_params(header: Seq<char>, reject_unknown: bool) -> Option<
    (Seq<Seq<char>>, Seq<Seq<char>>),
> {
    match parse_media_type(header) {
        Some((base, ps)) => if eq_ignore_ascii_case(base, jsonapi_media_type()) && !(reject_unknown
            && first_unknown(ps) is Some) {
            Some((values_for(ps, "ext"@), values_for(ps, "profile"@)))
        } else {
            None
        },
        None => None,
    }
}

/// The error a rejected header gets.
pub open spec fn jsonapi_error(header: Seq<char>, e: Error) -> bool {
    match parse_media_type(header) {
        None => is_parse_error(e, header),
        Some((base, ps)) => if !eq_ignore_ascii_case(base, jsonapi_media_type()) {
            e matches Error::MediaTypeMismatch { expected, got } && expected@ == jsonapi_media_type()
                && got@ == base
        } else {
            e matches Error::UnsupportedMediaTypeParam { param } && param@ == ps[first_unknown(
                ps,
            ).unwrap()].0
        },
    }
}

/// Shared parser. When `reject_unknown_params` is true, returns an error
/// for any parameter other than `ext` or `profile`.
fn parse_jsonapi(header: &str, reject_unknown_params: bool) -> (r: Result<JsonApiMediaType>)
    ensures
        match r {
            Ok(mt) => jsonapi_params(header@, reject_unknown_params) == Some(
                (mt.ext.deep_view(), mt.profile.deep_view()),
            ),
            Err(e) => jsonapi_params(header@, reject_unknown_params) is None && jsonapi_error(
                header@,
                e,
            ),
        },
{
    let (base, params) = match parse_media_type_params(header) {
        Ok(res) => res,
        Err(e) => {
            return Err(e);
        },
    };
    let ghost pv = params_view(params@);
    let bv = chars_of(base);
    let jv = chars_of("application/vnd.api+json");
    assert(bv@.subrange(0, bv@.len() as int) =~= bv@);
    if !range_eq_ignore_ascii_case(&bv, 0, bv.len(), &jv) {
        return Err(
            Error::MediaTypeMismatch {
                expected: owned("application/vnd.api+json"),
                got: owned(base),
            },
        );
    }
    let mut ext: Vec<String> = Vec::new();
    let mut profile: Vec<String> = Vec::new();
    let mut i: usize = 0;
    while i < params.len()
        invariant
            0 <= i <= params@.len(),
            pv == params_view(params@),
            parse_media_type(header@) == Some((base@, pv)),
            eq_ignore_ascii_case(base@, jsonapi_media_type()),
            ext.deep_view() == values_for(pv.take(i as int), "ext"@),
            profile.deep_view() == values_for(pv.take(i as int), "profile"@),
            reject_unknown_params ==> forall|j: int| 0 <= j < i ==> is_known_param(#[trigger] pv[j].0),
        decreases params@.len() - i,
    {
        let key = params[i].0;
        proof {
            reveal_strlit("ext");
            reveal_strlit("profile");
            assert("ext"@.len() == 3 && "profile"@.len() == 7);
            assert("ext"@ != "profile"@);
        }
        let ghost before = pv.take(i as int);
        assert(pv.take(i + 1).drop_last() =~= before);
        assert(pv.take(i + 1).last() == pv[i as int]);
        assert(pv[i as int] == (key@, params@[i as int].1@));
        if str_eq(key, "ext") {
            push_words(&params[i].1, &mut ext);
        } else if str_eq(key, "profile") {
            push_words(&params[i].1, &mut profile);
        } else if reject_unknown_params {
            proof {
                lemma_first_unknown(pv, i as int);
            }
            return Err(Error::UnsupportedMediaTypeParam { param: owned(key) });
        }
        proof {
            assert(Seq::<Seq<char>>::empty() + Seq::<Seq<char>>::empty() =~= Seq::<Seq<char>>::empty());
            assert(ext.deep_view() =~= values_for(pv.take(i + 1), "ext"@));
            assert(profile.deep_view() =~= values_for(pv.take(i + 1), "profile"@));
        }
        i += 1;
    }
    proof {
        assert(pv.take(pv.len() as int) =~= pv);
        if reject_unknown_params {
            lemma_first_unknown(pv, pv.len() as int);
        }
    }
    Ok(JsonApiMediaType { ext, profile })
}

/// Every item of `a` occurs in `b`.
pub open spec fn all_in(a: Seq<Seq<char>>, b: Seq<Seq<char>>) -> bool {
    forall|i: int| 0 <= i < a.len() ==> b.contains(#[trigger] a[i])
}

fn all_contained(a: &Vec<String>, b: &Vec<String>) -> (r: bool)
    ensures
        r == all_in(a.deep_view(), b.deep_view()),
{
    let mut i: usize = 0;
    while i < a.len()
        invariant
            0 <= i <= a@.len(),
            forall|k: int| 0 <= k < i ==> b.deep_view().contains(#[trigger] a.deep_view()[k]),
        decreases a@.len() - i,
    {
        let mut found = false;
        let mut j: usize = 0;
        while j < b.len()
            invariant
                0 <= j <= b@.len(),
                0 <= i < a@.len(),
                found ==> b.deep_view().contains(a.deep_view()[i as int]),
                !found ==> forall|k: int| 0 <= k < j ==> b.deep_view()[k] != a.deep_view()[i as int],
            decreases b@.len() - j,
        {
            if b[j] == a[i] {
                assert(b.deep_view()[j as int] == a.deep_view()[i as int]);
                found = true;
            }
            j += 1;
        }
        if !found {
            assert(!b.deep_view().contains(a.deep_view()[i as int]));
            return false;
        }
        i += 1;
    }
    true
}

/// `"` characters escaped with a backslash.
pub open spec fn escape_quotes(s: Seq<char>) -> Seq<char>
    decreases s.len(),
{
    if s.len() == 0 {
        Seq::empty()
    } else {
        escape_quotes(s.drop_last()) + if s.last() == '"' {
            seq!['\\', '"']
        } else {
            seq![s.last()]
        }
    }
}

/// The `; name="uri uri ..."` suffix of a header, empty without URIs.
pub open spec fn param_suffix(name: Seq<char>, uris: Seq<Seq<char>>) -> Seq<char> {
    if uris.len() == 0 {
        Seq::empty()
    } else {
        "; "@ + name + "=\""@ + escape_quotes(join_with(uris, " "@)) + "\""@
    }
}

/// The header value of a media type with these `ext` and `profile` URIs.
pub open spec fn header_value(ext: Seq<Seq<char>>, profile: Seq<Seq<char>>) -> Seq<char> {
    jsonapi_media_type() + param_suffix("ext"@, ext) + param_suffix("profile"@, profile)
}

/// Appends `s` to `out` with `"` escaped.
fn push_escaped(out: &mut String, s: &String)
    ensures
        final(out)@ == old(out)@ + escape_quotes(s@),
{
    let v = chars_of(s.as_str());
    let mut i: usize = 0;
    while i < v.len()
        invariant
            0 <= i <= v@.len(),
            v@ == s@,
            out@ == old(out)@ + escape_quotes(v@.take(i as int)),
        decreases v@.len() - i,
    {
        assert(v@.take(i + 1).drop_last() =~= v@.take(i as int));
        if v[i] == '"' {
            push_char(out, '\\');
            push_char(out, '"');
        } else {
            push_char(out, v[i]);
        }
        assert(out@ =~= old(out)@ + escape_quotes(v@.take(i + 1)));
        i += 1;
    }
    assert(v@.take(v@.len() as int) =~= v@);
}

/// `escape_quotes` distributes over concatenation.
pub proof fn lemma_escape_quotes_add(a: Seq<char>, b: Seq<char>)
    ensures
        escape_quotes(a + b) == escape_quotes(a) + escape_quotes(b),
    decreases b.len(),
{
    if b.len() == 0 {
        assert(a + b =~= a);
        assert(escape_quotes(a) + escape_quotes(b) =~= escape_quotes(a));
    } else {
        lemma_escape_quotes_add(a, b.drop_last());
        assert((a + b).drop_last() =~= a + b.drop_last());
        assert(escape_quotes(a + b) =~= escape_quotes(a) + escape_quotes(b));
    }
}

/// Appends `; name="..."` for a non-empty URI list.
fn push_param(out: &mut String, name: &str, uris: &Vec<String>)
    requires
        uris@.len() > 0,
    ensures
        final(out)@ == old(out)@ + param_suffix(name@, uris.deep_view()),
{
    push_str(out, "; ");
    push_str(out, name);
    push_str(out, "=\"");
    let ghost start = out@;
    let mut i: usize = 0;
    while i < uris.len()
        invariant
            0 <= i <= uris@.len(),
            uris@.len() > 0,
            out@ == start + escape_quotes(join_with(uris.deep_view().take(i as int), " "@)),
        decreases uris@.len() - i,
    {
        let ghost items = uris.deep_view().take(i + 1);
        assert(items.drop_last() =~= uris.deep_view().take(i as int));
        if i > 0 {
            push_escaped(out, &owned(" "));
            proof {
                lemma_escape_quotes_add(join_with(uris.deep_view().take(i as int), " "@), " "@);
            }
        } else {
            assert(join_with(uris.deep_view().take(0), " "@) =~= Seq::<char>::empty());
        }
        push_escaped(out, &uris[i]);
        proof {
            if i > 0 {
                lemma_escape_quotes_add(
                    join_with(uris.deep_view().take(i as int), " "@) + " "@,
                    uris[i as int]@,
                );
            } else {
                assert(join_with(items, " "@) == items[0]);
                assert(escape_quotes(Seq::<char>::empty()) =~= Seq::<char>::empty());
            }
            assert(out@ =~= start + escape_quotes(join_with(items, " "@)));
        }
        i += 1;
    }
    assert(uris.deep_view().take(uris@.len() as int) =~= uris.deep_view());
    push_str(out, "\"");
    assert(out@ =~= old(out)@ + param_suffix(name@, uris.deep_view()));
}

impl JsonApiMediaType {
    /// Parse from a header value. Validates base type is `application/vnd.api+json`.
    /// Unknown parameters are silently ignored.
    pub fn parse(header: &str) -> (r: Result<Self>)
        ensures
            match r {
                Ok(mt) => jsonapi_params(header@, false) == Some(
                    (mt.ext.deep_view(), mt.profile.deep_view()),
                ),
                Err(e) => jsonapi_params(header@, false) is None && jsonapi_error(header@, e),
            },
    {
        parse_jsonapi(header, false)
    }

    /// Check if this media type is compatible with another: every ext URI
    /// of `self` is among `other`'s, and every profile URI too.
    pub fn is_compatible_with(&self, other: &JsonApiMediaType) -> (r: bool)
        ensures
            r == (all_in(self.ext.deep_view(), other.ext.deep_view()) && all_in(
                self.profile.deep_view(),
                other.profile.deep_view(),
            )),
    {
        all_contained(&self.ext, &other.ext) && all_contained(&self.profile, &other.profile)
    }

    /// Construct a plain `application/vnd.api+json` media type with no
    /// extensions or profiles.
    pub fn plain() -> (r: Self)
        ensures
            r.ext@.len() == 0,
            r.profile@.len() == 0,
    {
        JsonApiMediaType { ext: Vec::new(), profile: Vec::new() }
    }

    /// Construct an `application/vnd.api+json` media type declaring these
    /// extension URIs.
    pub fn with_ext(ext: Vec<String>) -> (r: Self)
        ensures
            r.ext@ == ext@,
            r.profile@.len() == 0,
    {
        JsonApiMediaType { ext, profile: Vec::new() }
    }

    /// Format as a header value string (usable for both Content-Type and Accept).
    pub fn to_header_value(&self) -> (r: String)
        ensures
            r@ == header_value(self.ext.deep_view(), self.profile.deep_view()),
    {
        let mut result = owned("application/vnd.api+json");
        if self.ext.len() > 0 {
            push_param(&mut result, "ext", &self.ext);
        }
        if self.profile.len() > 0 {
            push_param(&mut result, "profile", &self.profile);
        }
        proof {
            if self.ext@.len() == 0 {
                assert(self.ext.deep_view().len() == 0);
            }
            if self.profile@.len() == 0 {
                assert(self.profile.deep_view().len() == 0);
            }
            assert(result@ =~= header_value(self.ext.deep_view(), self.profile.deep_view()));
        }
        result
    }
}

/// Validate a Content-Type header per JSON:API 1.1 rules.
/// Rejects if any parameters other than `ext` and `profile` are present.
pub fn validate_content_type(header: &str) -> (r: Result<JsonApiMediaType>)
    ensures
        match r {
            Ok(mt) => jsonapi_params(header@, true) == Some(
                (mt.ext.deep_view(), mt.profile.deep_view()),
            ),
            Err(e) => jsonapi_params(header@, true) is None && jsonapi_error(header@, e),
        },
{
    parse_jsonapi(header, true)
}

/// How one `Accept` entry bears on negotiation.
pub enum AcceptVerdict {
    /// Not a JSON:API media type (or not parseable): ignored.
    Skip,
    /// A wildcard, or JSON:API with only `ext`/`profile` parameters.
    Accept,
    /// JSON:API, but with a parameter other than `ext`/`profile`.
    Unsupported,
}

/// The part of `s` before its first `c` (all of `s` without one).
pub open spec fn before_first(s: Seq<char>, c: char) -> Seq<char> {
    match first_index_of(s, c) {
        Some(p) => s.take(p),
        None => s,
    }
}

/// The verdict on one comma-separated `Accept` entry.
pub open spec fn accept_entry(e: Seq<char>) -> AcceptVerdict {
    let t = trim(e);
    if t.len() == 0 {
        AcceptVerdict::Skip
    } else {
        let base = trim(before_first(t, ';'));
        if base == "*/*"@ || eq_ignore_ascii_case(base, "application/*"@) {
            AcceptVerdict::Accept
        } else {
            match parse_media_type(t) {
                None => AcceptVerdict::Skip,
                Some((b, ps)) => if !eq_ignore_ascii_case(b, jsonapi_media_type()) {
                    AcceptVerdict::Skip
                } else if first_unknown(ps) is Some {
                    AcceptVerdict::Unsupported
                } else {
                    AcceptVerdict::Accept
                },
            }
        }
    }
}

/// The mathematical value of a list of string slices.
pub open spec fn strs_view(s: Seq<&str>) -> Seq<Seq<char>> {
    s.map_values(|x: &str| x@)
}

/// Whether a parameter list has a parameter other than `ext`/`profile`.
fn has_unknown_param(params: &Vec<(&str, String)>) -> (r: bool)
    ensures
        r == (first_unknown(params_view(params@)) is Some),
{
    let ghost pv = params_view(params@);
    let mut i: usize = 0;
    while i < params.len()
        invariant
            0 <= i <= params@.len(),
            pv == params_view(params@),
            forall|j: int| 0 <= j < i ==> is_known_param(#[trigger] pv[j].0),
        decreases params@.len() - i,
    {
        assert(pv[i as int].0 == params@[i as int].0@);
        if !str_eq(params[i].0, "ext") && !str_eq(params[i].0, "profile") {
            proof {
                lemma_first_unknown(pv, i as int);
            }
            return true;
        }
        i += 1;
    }
    proof {
        lemma_first_unknown(pv, pv.len() as int);
    }
    false
}

/// The verdict on window `[lo, hi)` of `v`, the characters of `header`.
fn classify_entry(header: &str, v: &Vec<char>, lo: usize, hi: usize) -> (r: AcceptVerdict)
    requires
        lo <= hi <= v@.len(),
        v@ == header@,
    ensures
        r == accept_entry(v@.subrange(lo as int, hi as int)),
{
    let (ta, tb) = trim_range(v, lo, hi);
    if ta == tb {
        return AcceptVerdict::Skip;
    }
    let ghost t = v@.subrange(ta as int, tb as int);
    let q = match find_char(v, ta, tb, ';') {
        Some(q) => {
            assert(t.take(q - ta) =~= v@.subrange(ta as int, q as int));
            q
        },
        None => tb,
    };
    assert(before_first(t, ';') == v@.subrange(ta as int, q as int));
    let (ba, bb) = trim_range(v, ta, q);
    let star = chars_of("*/*");
    let app = chars_of("application/*");
    if range_eq(v, ba, bb, &star) || range_eq_ignore_ascii_case(v, ba, bb, &app) {
        return AcceptVerdict::Accept;
    }
    let entry = header.substring_char(ta, tb);
    match parse_media_type_params(entry) {
        Err(_) => AcceptVerdict::Skip,
        Ok((b, params)) => {
            let bv = chars_of(b);
            let jv = chars_of("application/vnd.api+json");
            assert(bv@.subrange(0, bv@.len() as int) =~= bv@);
            if !range_eq_ignore_ascii_case(&bv, 0, bv.len(), &jv) {
                AcceptVerdict::Skip
            } else if has_unknown_param(&params) {
                AcceptVerdict::Unsupported
            } else {
                AcceptVerdict::Accept
            }
        },
    }
}

/// Owned copies of a list of string slices.
fn owned_all(s: &[&str]) -> (r: Vec<String>)
    ensures
        r.deep_view() == strs_view(s@),
{
    let mut r: Vec<String> = Vec::new();
    let mut i: usize = 0;
    while i < s.len()
        invariant
            0 <= i <= s@.len(),
            r.deep_view() == strs_view(s@.take(i as int)),
        decreases s@.len() - i,
    {
        let ghost before = r.deep_view();
        let o = owned(s[i]);
        r.push(o);
        proof {
            assert(o@ == s@[i as int]@);
            assert(r.deep_view() =~= before.push(o@));
            assert(strs_view(s@.take(i + 1)) =~= strs_view(s@.take(i as int)).push(s@[i as int]@));
        }
        i += 1;
    }
    assert(s@.take(s@.len() as int) =~= s@);
    r
}

/// Choose a response media type from an Accept header.
///
/// Parses comma-separated entries. Returns the server's capabilities when a
/// wildcard (`*/*`, `application/*`) or a JSON:API entry with only `ext`
/// and `profile` parameters is found. Otherwise returns
/// [`Error::AllMediaTypesUnsupportedParams`] (406 semantics) when some
/// JSON:API entry was seen, all with unsupported parameters, and
/// [`Error::NoAcceptableMediaType`] when none was.
///
/// This always returns the server's full ext/profile capabilities; use
/// [`JsonApiMediaType::is_compatible_with`] to compare URIs.
pub fn negotiate_accept(accept_header: &str, server_ext: &[&str], server_profile: &[&str]) -> (r:
    Result<JsonApiMediaType>)
    ensures
        match r {
            Ok(mt) => (exists|i: int|
                0 <= i < split_on(accept_header@, ',').len() && accept_entry(
                    #[trigger] split_on(accept_header@, ',')[i],
                ) is Accept) && mt.ext.deep_view() == strs_view(server_ext@)
                && mt.profile.deep_view() == strs_view(server_profile@),
            Err(e) => !(exists|i: int|
                0 <= i < split_on(accept_header@, ',').len() && accept_entry(
                    #[trigger] split_on(accept_header@, ',')[i],
                ) is Accept) && if exists|i: int|
                0 <= i < split_on(accept_header@, ',').len() && accept_entry(
                    #[trigger] split_on(accept_header@, ',')[i],
                ) is Unsupported {
                e is AllMediaTypesUnsupportedParams
            } else {
                e is NoAcceptableMediaType
            },
        },
{
    let ghost entries = split_on(accept_header@, ',');
    let v = chars_of(accept_header);
    let n = v.len();
    assert(v@.subrange(0, n as int) =~= v@);
    let mut found_jsonapi = false;
    let mut lo: usize = 0;
    let ghost mut seen: Seq<Seq<char>> = Seq::empty();
    loop
        invariant_except_break
            entries == seen + split_on(v@.subrange(lo as int, n as int), ','),
        invariant
            lo <= n == v@.len(),
            v@ == accept_header@,
            entries == split_on(accept_header@, ','),
            forall|k: int| 0 <= k < seen.len() ==> !(accept_entry(#[trigger] seen[k]) is Accept),
            found_jsonapi == exists|k: int|
                0 <= k < seen.len() && accept_entry(#[trigger] seen[k]) is Unsupported,
        ensures
            entries == seen,
        decreases n - lo,
    {
        let ghost rest = v@.subrange(lo as int, n as int);
        let (end, last) = match find_char(&v, lo, n, ',') {
            Some(c) => (c, false),
            None => (n, true),
        };
        proof {
            if !last {
                assert(rest.take(end - lo) =~= v@.subrange(lo as int, end as int));
                assert(rest.skip(end - lo + 1) =~= v@.subrange(end + 1, n as int));
            }
        }
        let ghost entry = v@.subrange(lo as int, end as int);
        assert(split_on(rest, ',')[0] == entry);
        let verdict = classify_entry(accept_header, &v, lo, end);
        match verdict {
            AcceptVerdict::Accept => {
                assert(entries[seen.len() as int] == entry);
                return Ok(
                    JsonApiMediaType {
                        ext: owned_all(server_ext),
                        profile: owned_all(server_profile),
                    },
                );
            },
            AcceptVerdict::Unsupported => {
                found_jsonapi = true;
            },
            AcceptVerdict::Skip => {},
        }
        let ghost old_seen = seen;
        proof {
            seen = seen.push(entry);
            assert(seen[old_seen.len() as int] == entry);
            assert forall|k: int| 0 <= k < seen.len() implies !(accept_entry(
                #[trigger] seen[k],
            ) is Accept) by {
                if k < old_seen.len() {
                    assert(seen[k] == old_seen[k]);
                }
            }
            assert(found_jsonapi == exists|k: int|
                0 <= k < seen.len() && accept_entry(#[trigger] seen[k]) is Unsupported) by {
                if found_jsonapi && !(accept_entry(entry) is Unsupported) {
                    let k = choose|k: int|
                        0 <= k < old_seen.len() && accept_entry(#[trigger] old_seen[k]) is Unsupported;
                    assert(seen[k] == old_seen[k]);
                }
                if !found_jsonapi {
                    assert forall|k: int| 0 <= k < seen.len() implies !(accept_entry(
                        #[trigger] seen[k],
                    ) is Unsupported) by {
                        if k < old_seen.len() {
                            assert(seen[k] == old_seen[k]);
                        }
                    }
                }
            }
        }
        if last {
            proof {
                assert(split_on(rest, ',') =~= seq![entry]);
                assert(entries =~= seen);
            }
            break;
        }
        proof {
            assert(entries =~= seen + split_on(v@.subrange(end + 1, n as int), ','));
        }
        lo = end + 1;
    }
    if found_jsonapi {
        Err(Error::AllMediaTypesUnsupportedParams)
    } else {
        Err(Error::NoAcceptableMediaType)
    }
}

/// Text made only of whitespace.
pub open spec fn all_ws(s: Seq<char>) -> bool {
    forall|i: int| 0 <= i < s.len() ==> crate::text::is_ws(#[trigger] s[i])
}

/// Leading whitespace before a non-blank character is what `trim_start`
/// removes.
proof fn lemma_trim_start_lead(lead: Seq<char>, x: Seq<char>)
    requires
        all_ws(lead),
        x.len() > 0,
        !crate::text::is_ws(x[0]),
    ensures
        crate::text::trim_start(lead + x) == x,
    decreases lead.len(),
{
    if lead.len() == 0 {
        assert(lead + x =~= x);
    } else {
        assert((lead + x)[0] == lead[0]);
        assert((lead + x).drop_first() =~= lead.drop_first() + x);
        lemma_trim_start_lead(lead.drop_first(), x);
    }
}

/// Trailing whitespace after a non-blank character is what `trim_end`
/// removes.
proof fn lemma_trim_end_gap(x: Seq<char>, gap: Seq<char>)
    requires
        all_ws(gap),
        x.len() > 0,
        !crate::text::is_ws(x.last()),
    ensures
        crate::text::trim_end(x + gap) == x,
    decreases gap.len(),
{
    if gap.len() == 0 {
        assert(x + gap =~= x);
    } else {
        assert((x + gap).last() == gap.last());
        assert((x + gap).drop_last() =~= x + gap.drop_last());
        lemma_trim_end_gap(x, gap.drop_last());
    }
}

/// `trim_end` keeps everything up to a non-blank character.
proof fn lemma_trim_end_keeps(s: Seq<char>, j: int)
    requires
        0 <= j < s.len(),
        !crate::text::is_ws(s[j]),
    ensures
        exists|m: int| j < m <= s.len() && #[trigger] crate::text::trim_end(s) == s.take(m),
    decreases s.len(),
{
    if j == s.len() - 1 {
        assert(s.take(s.len() as int) =~= s);
        assert(crate::text::trim_end(s) == s.take(s.len() as int));
    } else if crate::text::is_ws(s.last()) {
        let d = s.drop_last();
        assert(d[j] == s[j]);
        lemma_trim_end_keeps(d, j);
        let m = choose|m: int| j < m <= d.len() && #[trigger] crate::text::trim_end(d) == d.take(m);
        assert(d.take(m) =~= s.take(m));
        assert(crate::text::trim_end(s) == s.take(m));
    } else {
        assert(s.take(s.len() as int) =~= s);
        assert(crate::text::trim_end(s) == s.take(s.len() as int));
    }
}

/// A media range that is `*/*`, or `application/*` in any ASCII case.
pub open spec fn is_wildcard_range(range: Seq<char>) -> bool {
    range == "*/*"@ || eq_ignore_ascii_case(range, "application/*"@)
}

/// A wildcard range is not blank at either end and holds no `;`.
proof fn lemma_wildcard_range_shape(range: Seq<char>)
    requires
        is_wildcard_range(range),
    ensures
        range.len() > 0,
        !crate::text::is_ws(range[0]),
        !crate::text::is_ws(range.last()),
        forall|j: int| 0 <= j < range.len() ==> #[trigger] range[j] != ';',
{
    reveal_strlit("*/*");
    reveal_strlit("application/*");
    if range == "*/*"@ {
    } else {
        let w = "application/*"@;
        assert forall|j: int| 0 <= j < range.len() implies #[trigger] range[j] != ';' && (j == 0 || j
            == range.len() - 1 ==> !crate::text::is_ws(range[j])) by {
            assert(crate::text::ascii_lower(range[j]) == crate::text::ascii_lower(w[j]));
            assert(crate::text::ascii_lower(w[j]) == w[j]);
        }
        assert(range[range.len() - 1] == range.last());
    }
}

/// An `Accept` entry whose media range, after any leading whitespace and
/// before any trailing whitespace and `;` parameters (such as a `q`
/// value), is `*/*` or `application/*` (any ASCII case) is accepted,
/// whatever the parameters say.
pub proof fn lemma_wildcard_entry_accepts(
    lead: Seq<char>,
    range: Seq<char>,
    gap: Seq<char>,
    params: Seq<char>,
)
    requires
        all_ws(lead),
        all_ws(gap),
        is_wildcard_range(range),
    ensures
        accept_entry(lead + range + gap) is Accept,
        accept_entry(lead + range + gap + ";"@ + params) is Accept,
{
    reveal_strlit(";");
    lemma_wildcard_range_shape(range);
    assert(forall|j: int| 0 <= j < gap.len() ==> #[trigger] gap[j] != ';') by {
        assert forall|j: int| 0 <= j < gap.len() implies #[trigger] gap[j] != ';' by {
            assert(crate::text::is_ws(gap[j]));
        }
    }
    let rg = range + gap;
    assert(rg[0] == range[0]);
    assert(crate::text::trim_start(rg) == rg);
    lemma_trim_end_gap(range, gap);
    assert(trim(rg) == range);
    assert(forall|j: int| 0 <= j < rg.len() ==> #[trigger] rg[j] != ';') by {
        assert forall|j: int| 0 <= j < rg.len() implies #[trigger] rg[j] != ';' by {
            if j < range.len() {
                assert(rg[j] == range[j]);
            } else {
                assert(rg[j] == gap[j - range.len()]);
            }
        }
    }
    // Without parameters.
    lemma_trim_start_lead(lead, rg);
    assert(lead + range + gap =~= lead + rg);
    crate::text::lemma_first_index_of_none(range, ';');
    assert(trim(range) == range) by {
        assert(crate::text::trim_start(range) == range);
        lemma_trim_end_gap(range, Seq::empty());
        assert(range + Seq::<char>::empty() =~= range);
    }
    // With parameters.
    let x = rg + ";"@ + params;
    let k = rg.len() as int;
    assert(x[k] == ';');
    assert(x[0] == range[0]);
    lemma_trim_start_lead(lead, x);
    assert(lead + range + gap + ";"@ + params =~= lead + x);
    lemma_trim_end_keeps(x, k);
    let m = choose|m: int| k < m <= x.len() && #[trigger] crate::text::trim_end(x) == x.take(m);
    let t = x.take(m);
    assert(t[k] == ';');
    assert forall|j: int| 0 <= j < k implies t[j] != ';' by {
        assert(t[j] == rg[j]);
    }
    crate::text::lemma_first_index_of(t, ';', k);
    assert(t.take(k) =~= rg);
}

/// Negotiation accepts a header that has such a wildcard entry among its
/// comma-separated entries: by [`negotiate_accept`]'s contract it then
/// returns the server's capabilities.
pub proof fn lemma_wildcard_header_accepts(
    header: Seq<char>,
    i: int,
    lead: Seq<char>,
    range: Seq<char>,
    gap: Seq<char>,
    params: Option<Seq<char>>,
)
    requires
        0 <= i < split_on(header, ',').len(),
        all_ws(lead),
        all_ws(gap),
        is_wildcard_range(range),
        split_on(header, ',')[i] == match params {
            Some(p) => lead + range + gap + ";"@ + p,
            None => lead + range + gap,
        },
    ensures
        exists|j: int|
            0 <= j < split_on(header, ',').len() && accept_entry(#[trigger] split_on(header, ',')[j])
                is Accept,
{
    lemma_wildcard_entry_accepts(lead, range, gap, match params {
        Some(p) => p,
        None => Seq::empty(),
    });
}

} // verus!
