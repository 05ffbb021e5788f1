//! Media-type header syntax: a base type followed by `;`-separated
//! `key=value` parameters whose values are bare tokens or quoted strings.
use crate::error::{Error, Result};
use crate::text::{
    chars_of, find_char, first_index_of, lemma_first_index_of_props, lemma_trim_start_suffix, owned, push_char,
    string_from, trim, trim_range, trim_start, trim_start_range,
};
use vstd::prelude::*;

verus! {

/// A quoted-string body (the input starts after the opening `"`): the
/// unescaped value and what follows the closing `"`; `None` when the string
/// or an escape is unterminated. A backslash takes the next character
/// literally.
pub open spec fn quoted_string(s: Seq<char>) -> Option<(Seq<char>, Seq<char>)>
    decreases s.len(),
{
    if s.len() == 0 {
        None
    } else if s[0] == '"' {
        Some((Seq::<char>::empty(), s.skip(1)))
    } else if s[0] == '\\' {
        if s.len() < 2 {
            None
        } else {
            match quoted_string(s.skip(2)) {
                Some((v, rest)) => Some((seq![s[1]] + v, rest)),
                None => None,
            }
        }
    } else {
        match quoted_string(s.skip(1)) {
            Some((v, rest)) => Some((seq![s[0]] + v, rest)),
            None => None,
        }
    }
}

/// What `quoted_string` leaves is a strictly shorter suffix of its input.
pub proof fn lemma_quoted_string_suffix(s: Seq<char>)
    ensures
        quoted_string(s) matches Some((v, rest)) ==> rest.len() < s.len() && rest == s.skip(
            s.len() - rest.len(),
        ),
    decreases s.len(),
{
    if s.len() == 0 {
    } else if s[0] == '"' {
    } else if s[0] == '\\' {
        if s.len() >= 2 {
            lemma_quoted_string_suffix(s.skip(2));
            if let Some((v, rest)) = quoted_string(s.skip(2)) {
                assert(s.skip(2).skip(s.skip(2).len() - rest.len()) =~= s.skip(s.len() - rest.len()));
            }
        }
    } else {
        lemma_quoted_string_suffix(s.skip(1));
        if let Some((v, rest)) = quoted_string(s.skip(1)) {
            assert(s.skip(1).skip(s.skip(1).len() - rest.len()) =~= s.skip(s.len() - rest.len()));
        }
    }
}

/// A bare token value: everything up to the next `;` (trimmed), and the rest
/// starting at that `;`.
pub open spec fn bare_token(s: Seq<char>) -> (Seq<char>, Seq<char>) {
    match first_index_of(s, ';') {
        Some(p) => (trim(s.take(p)), s.skip(p)),
        None => (trim(s), Seq::<char>::empty()),
    }
}

/// A parameter value (quoted or bare) and what follows it.
pub open spec fn param_value(s: Seq<char>) -> Option<(Seq<char>, Seq<char>)> {
    if s.len() > 0 && s[0] == '"' {
        quoted_string(s.skip(1))
    } else {
        Some(bare_token(s))
    }
}

/// What `param_value` leaves is no longer than its input.
pub proof fn lemma_param_value_suffix(s: Seq<char>)
    ensures
        param_value(s) matches Some((v, rest)) ==> rest.len() <= s.len(),
{
    if s.len() > 0 && s[0] == '"' {
        lemma_quoted_string_suffix(s.skip(1));
    } else {
        lemma_first_index_of_props(s, ';');
    }
}

/// Where parsing resumes after a value: past whitespace and one `;`.
pub open spec fn after_value(after: Seq<char>) -> Seq<char> {
    let r = trim_start(after);
    if r.len() > 0 && r[0] == ';' {
        r.skip(1)
    } else {
        r
    }
}

/// One step of the parameter list: `None` on a syntax error (missing `=`,
/// empty key, unterminated quoted string), `Some(None)` when only
/// whitespace is left, else the next `(key, value)` pair and the input
/// after it.
pub open spec fn param_step(r: Seq<char>) -> Option<
    Option<((Seq<char>, Seq<char>), Seq<char>)>,
> {
    if trim(r).len() == 0 {
        Some(None)
    } else {
        let r1 = trim_start(r);
        match first_index_of(r1, '=') {
            None => None,
            Some(e) => {
                let key = trim(r1.take(e));
                if key.len() == 0 {
                    None
                } else {
                    match param_value(trim_start(r1.skip(e + 1))) {
                        None => None,
                        Some((val, after)) => Some(Some(((key, val), after_value(after)))),
                    }
                }
            },
        }
    }
}

/// Each parameter step consumes input.
pub proof fn lemma_param_step_shrinks(r: Seq<char>)
    ensures
        param_step(r) matches Some(Some((kv, next))) ==> next.len() < r.len(),
{
    if trim(r).len() != 0 {
        let r1 = trim_start(r);
        lemma_trim_start_suffix(r);
        lemma_first_index_of_props(r1, '=');
        if let Some(e) = first_index_of(r1, '=') {
            let vs = trim_start(r1.skip(e + 1));
            lemma_trim_start_suffix(r1.skip(e + 1));
            lemma_param_value_suffix(vs);
            if let Some((val, after)) = param_value(vs) {
                lemma_trim_start_suffix(after);
            }
        }
    }
}

/// The parameter list after the first `;` of a header: `key=value` pairs
/// separated by `;`, keys and bare values trimmed. `None` on a missing
/// `=`, an empty key or an unterminated quoted string.
pub open spec fn parse_params(r: Seq<char>) -> Option<Seq<(Seq<char>, Seq<char>)>>
    decreases r.len(),
{
    match param_step(r) {
        None => None,
        Some(None) => Some(Seq::empty()),
        Some(Some((kv, next))) => {
            proof {
                lemma_param_step_shrinks(r);
            }
            match parse_params(next) {
                Some(ps) => Some(seq![kv] + ps),
                None => None,
            }
        },
    }
}

/// A whole media-type header: the trimmed base type and its parameters.
pub open spec fn parse_media_type(header: Seq<char>) -> Option<
    (Seq<char>, Seq<(Seq<char>, Seq<char>)>),
> {
    let h = trim(header);
    if h.len() == 0 {
        None
    } else {
        match first_index_of(h, ';') {
            None => Some((h, Seq::empty())),
            Some(p) => match parse_params(h.skip(p + 1)) {
                Some(ps) => Some((trim(h.take(p)), ps)),
                None => None,
            },
        }
    }
}

/// The message for a quoted-string body that does not close: a backslash
/// with nothing after it, or no closing `"`.
pub open spec fn quoted_error(s: Seq<char>) -> Seq<char>
    decreases s.len(),
{
    if s.len() == 0 || s[0] == '"' {
        "unterminated quoted string"@
    } else if s[0] == '\\' {
        if s.len() < 2 {
            "unterminated escape in quoted string"@
        } else {
            quoted_error(s.skip(2))
        }
    } else {
        quoted_error(s.skip(1))
    }
}

/// The message for a parameter step that fails (see [`param_step`]): no
/// `=` (with what is left), an empty key, or an unterminated quoted value.
pub open spec fn param_error(r: Seq<char>) -> Seq<char> {
    let r1 = trim_start(r);
    match first_index_of(r1, '=') {
        None => "parameter missing '=': "@ + r1,
        Some(e) => if trim(r1.take(e)).len() == 0 {
            "empty parameter key"@
        } else {
            quoted_error(trim_start(r1.skip(e + 1)).skip(1))
        },
    }
}

/// The message for the first parameter of a list that fails.
pub open spec fn params_error(r: Seq<char>) -> Seq<char>
    decreases r.len(),
{
    match param_step(r) {
        Some(Some((kv, next))) => {
            proof {
                lemma_param_step_shrinks(r);
            }
            params_error(next)
        },
        _ => param_error(r),
    }
}

/// The message for a header that does not parse: an empty header, or the
/// first failing parameter.
pub open spec fn media_type_error(header: Seq<char>) -> Seq<char> {
    let h = trim(header);
    if h.len() == 0 {
        "empty media type"@
    } else {
        match first_index_of(h, ';') {
            Some(p) => params_error(h.skip(p + 1)),
            None => Seq::empty(),
        }
    }
}

/// Whether `e` is the parse error for `header`.
pub open spec fn is_parse_error(e: Error, header: Seq<char>) -> bool {
    e matches Error::MediaTypeParse(m) && m@ == media_type_error(header)
}

/// The mathematical value of a parsed parameter list.
pub open spec fn params_view(ps: Seq<(&str, String)>) -> Seq<(Seq<char>, Seq<char>)> {
    ps.map_values(|p: (&str, String)| (p.0@, p.1@))
}

/// Parses the quoted string starting at `v[i]` (just after the opening `"`)
/// and ending before `hi`: the unescaped value and the index after the
/// closing quote.
fn quoted_at(v: &Vec<char>, i: usize, hi: usize) -> (r: core::result::Result<(String, usize), String>)
    requires
        i <= hi <= v@.len(),
    ensures
        match r {
            Ok((val, j)) => i < j <= hi && quoted_string(v@.subrange(i as int, hi as int))
                == Some((val@, v@.subrange(j as int, hi as int))),
            Err(m) => quoted_string(v@.subrange(i as int, hi as int)) is None && m@ == quoted_error(
                v@.subrange(i as int, hi as int),
            ),
        },
{
    let mut value = String::new();
    let mut k = i;
    while k < hi
        invariant
            i <= k <= hi <= v@.len(),
            match quoted_string(v@.subrange(k as int, hi as int)) {
                Some((w, rest)) => quoted_string(v@.subrange(i as int, hi as int)) == Some(
                    (value@ + w, rest),
                ),
                None => quoted_string(v@.subrange(i as int, hi as int)) is None,
            },
            quoted_string(v@.subrange(k as int, hi as int)) is None ==> quoted_error(
                v@.subrange(i as int, hi as int),
            ) == quoted_error(v@.subrange(k as int, hi as int)),
        decreases hi - k,
    {
        let ghost s = v@.subrange(k as int, hi as int);
        let c = v[k];
        if c == '"' {
            assert(s.skip(1) =~= v@.subrange(k + 1, hi as int));
            assert(value@ + Seq::<char>::empty() =~= value@);
            return Ok((value, k + 1));
        } else if c == '\\' {
            if k + 1 < hi {
                assert(s.skip(2) =~= v@.subrange(k + 2, hi as int));
                let ghost old_value = value@;
                push_char(&mut value, v[k + 1]);
                proof {
                    assert forall|w: Seq<char>| true implies old_value + (seq![s[1]] + w) =~= value@
                        + w by {}
                }
                k += 2;
            } else {
                assert(s.len() == 1);
                return Err(owned("unterminated escape in quoted string"));
            }
        } else {
            assert(s.skip(1) =~= v@.subrange(k + 1, hi as int));
            let ghost old_value = value@;
            push_char(&mut value, c);
            proof {
                assert forall|w: Seq<char>| true implies old_value + (seq![s[0]] + w) =~= value@
                    + w by {}
            }
            k += 1;
        }
    }
    assert(v@.subrange(k as int, hi as int) =~= Seq::<char>::empty());
    Err(owned("unterminated quoted string"))
}

/// One parameter of the list in window `[i, b)` of `v` (the characters of
/// `header`): `Ok(None)` when only whitespace is left, else the key (a
/// slice of `header`), the value and where the rest starts.
#[verifier::rlimit(40)]
fn next_param<'a>(header: &'a str, v: &Vec<char>, i: usize, b: usize) -> (r: Result<
    Option<(&'a str, String, usize)>,
>)
    requires
        i <= b <= v@.len(),
        v@ == header@,
    ensures
        match r {
            Ok(None) => param_step(v@.subrange(i as int, b as int)) == Some(
                None::<((Seq<char>, Seq<char>), Seq<char>)>,
            ),
            Ok(Some((key, value, next))) => i < next <= b && param_step(
                v@.subrange(i as int, b as int),
            ) == Some(Some(((key@, value@), v@.subrange(next as int, b as int)))),
            Err(e) => param_step(v@.subrange(i as int, b as int)) is None && (e matches Error::MediaTypeParse(
                m,
            ) && m@ == param_error(v@.subrange(i as int, b as int))),
        },
{
    let ghost r = v@.subrange(i as int, b as int);
    proof {
        lemma_param_step_shrinks(r);
    }
    let (ta, tb) = trim_range(v, i, b);
    if ta == tb {
        return Ok(None);
    }
    let s1 = trim_start_range(v, i, b);
    let ghost r1 = v@.subrange(s1 as int, b as int);
    let e = match find_char(v, s1, b, '=') {
        Some(e) => e,
        None => {
            let mut m = owned("parameter missing '=': ");
            let rest = string_from(v, s1, b);
            crate::text::push_str(&mut m, rest.as_str());
            return Err(Error::MediaTypeParse(m));
        },
    };
    assert(r1.take(e - s1) =~= v@.subrange(s1 as int, e as int));
    assert(r1.skip(e - s1 + 1) =~= v@.subrange(e + 1, b as int));
    let (ka, kb) = trim_range(v, s1, e);
    if ka == kb {
        return Err(Error::MediaTypeParse(owned("empty parameter key")));
    }
    let key = header.substring_char(ka, kb);
    let vs = trim_start_range(v, e + 1, b);
    let ghost vseq = v@.subrange(vs as int, b as int);
    let (value, after) = if vs < b && v[vs] == '"' {
        assert(vseq.skip(1) =~= v@.subrange(vs + 1, b as int));
        match quoted_at(v, vs + 1, b) {
            Ok(res) => res,
            Err(m) => {
                return Err(Error::MediaTypeParse(m));
            },
        }
    } else {
        match find_char(v, vs, b, ';') {
            Some(q) => {
                let (xa, xb) = trim_range(v, vs, q);
                assert(vseq.take(q - vs) =~= v@.subrange(vs as int, q as int));
                assert(vseq.skip(q - vs) =~= v@.subrange(q as int, b as int));
                (string_from(v, xa, xb), q)
            },
            None => {
                let (xa, xb) = trim_range(v, vs, b);
                assert(v@.subrange(b as int, b as int) =~= Seq::<char>::empty());
                (string_from(v, xa, xb), b)
            },
        }
    };
    assert(param_value(vseq) == Some((value@, v@.subrange(after as int, b as int))));
    let t = trim_start_range(v, after, b);
    let next = if t < b && v[t] == ';' {
        assert(v@.subrange(t as int, b as int).skip(1) =~= v@.subrange(t + 1, b as int));
        t + 1
    } else {
        t
    };
    assert(after_value(v@.subrange(after as int, b as int)) == v@.subrange(next as int, b as int));
    assert(v@.subrange(next as int, b as int).len() < r.len());
    Ok(Some((key, value, next)))
}

/// Parse a media type header into base type and parameter list.
///
/// Example: `application/vnd.api+json; ext="uri1 uri2"`
/// → `("application/vnd.api+json", [("ext", "uri1 uri2")])`
///
/// Handles quoted strings with `\"` escaping and bare token values. Fails
/// with [`Error::MediaTypeParse`] exactly when [`parse_media_type`] does.
#[verifier::rlimit(40)]
pub fn parse_media_type_params(header: &str) -> (r: Result<(&str, Vec<(&str, String)>)>)
    ensures
        match r {
            Ok((base, ps)) => parse_media_type(header@) == Some((base@, params_view(ps@))),
            Err(e) => parse_media_type(header@) is None && is_parse_error(e, header@),
        },
{
    let v = chars_of(header);
    let n = v.len();
    assert(v@.subrange(0, n as int) =~= header@);
    let (a, b) = trim_range(&v, 0, n);
    let ghost h = v@.subrange(a as int, b as int);
    if a == b {
        return Err(Error::MediaTypeParse(owned("empty media type")));
    }
    let p = match find_char(&v, a, b, ';') {
        Some(p) => p,
        None => {
            return Ok((header.substring_char(a, b), Vec::new()));
        },
    };
    let (ba, bb) = trim_range(&v, a, p);
    let base = header.substring_char(ba, bb);
    assert(h.take(p - a) =~= v@.subrange(a as int, p as int));
    assert(h.skip(p - a + 1) =~= v@.subrange(p + 1, b as int));
    assert(parse_media_type(header@) == (match parse_params(v@.subrange(p + 1, b as int)) {
        Some(ps) => Some((base@, ps)),
        None => None,
    }));
    let mut params: Vec<(&str, String)> = Vec::new();
    let mut i = p + 1;
    loop
        invariant
            p + 1 <= i <= b <= n,
            n == v@.len(),
            v@ == header@,
            h.skip(p - a + 1) == v@.subrange(p + 1, b as int),
            parse_media_type(header@) == (match parse_params(v@.subrange(p + 1, b as int)) {
                Some(ps) => Some((base@, ps)),
                None => None,
            }),
            media_type_error(header@) == params_error(v@.subrange(p + 1, b as int)),
            params_error(v@.subrange(p + 1, b as int)) == params_error(v@.subrange(i as int, b as int)),
            match parse_params(v@.subrange(i as int, b as int)) {
                Some(rest) => parse_params(v@.subrange(p + 1, b as int)) == Some(
                    params_view(params@) + rest,
                ),
                None => parse_params(v@.subrange(p + 1, b as int)) is None,
            },
        ensures
            parse_params(v@.subrange(p + 1, b as int)) == Some(params_view(params@)),
        decreases b - i,
    {
        proof {
            lemma_param_step_shrinks(v@.subrange(i as int, b as int));
        }
        match next_param(header, &v, i, b) {
            Err(e) => {
                assert(parse_params(v@.subrange(i as int, b as int)) is None);
                return Err(e);
            },
            Ok(None) => {
                assert(params_view(params@) + Seq::<(Seq<char>, Seq<char>)>::empty() =~= params_view(
                    params@,
                ));
                break;
            },
            Ok(Some((key, value, next))) => {
                let ghost before = params_view(params@);
                params.push((key, value));
                proof {
                    assert(params_view(params@) =~= before + seq![(key@, value@)]);
                    assert forall|rest: Seq<(Seq<char>, Seq<char>)>| true implies before + (seq![
                        (key@, value@),
                    ] + rest) =~= params_view(params@) + rest by {}
                }
                i = next;
            },
        }
    }
    Ok((base, params))
}

} // verus!
