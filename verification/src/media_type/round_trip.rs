//! Reading back a formatted header: the header value of a media type
//! parses to the same `ext` and `profile` URIs.
use crate::media_type::negotiation::{
    escape_quotes, first_unknown, header_value, is_known_param, jsonapi_media_type,
    jsonapi_params, lemma_escape_quotes_add, param_suffix, values_for,
};
use crate::media_type::parser::{
    after_value, param_step, param_value, parse_media_type, parse_params, quoted_string,
};
use crate::text::{
    is_ws, join_with, lemma_first_index_of, lemma_first_index_of_none, lemma_join_front,
    lemma_word_len, split_ws, trim, trim_end, trim_start, word_len,
};
use vstd::prelude::*;

verus! {

/// A URI that survives the header format: non-empty, with no whitespace
/// (which separates URIs) and no backslash (which escapes in a quoted
/// string).
pub open spec fn header_safe(u: Seq<char>) -> bool {
    &&& u.len() > 0
    &&& forall|i: int| 0 <= i < u.len() ==> !is_ws(#[trigger] u[i]) && u[i] != '\\'
}

/// Leading whitespace is all `trim_start` removes.
proof fn lemma_trim_start_id(s: Seq<char>)
    requires
        s.len() > 0,
        !is_ws(s[0]),
    ensures
        trim_start(s) == s,
{
}

/// Trailing whitespace is all `trim_end` removes.
proof fn lemma_trim_end_id(s: Seq<char>)
    requires
        s.len() > 0,
        !is_ws(s.last()),
    ensures
        trim_end(s) == s,
{
}

/// `trim_end` keeps a sequence that starts with a non-space non-empty.
proof fn lemma_trim_end_nonempty(s: Seq<char>)
    requires
        s.len() > 0,
        !is_ws(s[0]),
    ensures
        trim_end(s).len() > 0,
    decreases s.len(),
{
    if is_ws(s.last()) {
        if s.len() > 1 {
            assert(s.drop_last()[0] == s[0]);
            lemma_trim_end_nonempty(s.drop_last());
        }
    }
}

/// A word without whitespace and with surrounding non-space characters is
/// its own trim.
proof fn lemma_trim_id(s: Seq<char>)
    requires
        s.len() > 0,
        !is_ws(s[0]),
        !is_ws(s.last()),
    ensures
        trim(s) == s,
{
    lemma_trim_start_id(s);
    lemma_trim_end_id(s);
}

/// Two inputs with the same `trim_start` split into the same words.
proof fn lemma_split_ws_trim(a: Seq<char>, b: Seq<char>)
    requires
        trim_start(a) == trim_start(b),
    ensures
        split_ws(a) == split_ws(b),
{
}

/// `escape_quotes` of one character followed by more.
proof fn lemma_escape_front(c: char, y: Seq<char>)
    ensures
        escape_quotes(seq![c] + y) == (if c == '"' {
            seq!['\\', '"']
        } else {
            seq![c]
        }) + escape_quotes(y),
{
    lemma_escape_quotes_add(seq![c], y);
    assert(seq![c].drop_last() =~= Seq::<char>::empty());
    assert(escape_quotes(Seq::<char>::empty()) =~= Seq::<char>::empty());
    assert(escape_quotes(seq![c]) =~= (if c == '"' {
        seq!['\\', '"']
    } else {
        seq![c]
    }));
}

/// A quoted string written with its quotes escaped reads back as what was
/// written, when it holds no backslash.
proof fn lemma_quoted_escape(x: Seq<char>, rest: Seq<char>)
    requires
        forall|i: int| 0 <= i < x.len() ==> #[trigger] x[i] != '\\',
    ensures
        quoted_string(escape_quotes(x) + seq!['"'] + rest) == Some((x, rest)),
    decreases x.len(),
{
    let s = escape_quotes(x) + seq!['"'] + rest;
    if x.len() == 0 {
        assert(escape_quotes(x) =~= Seq::<char>::empty());
        assert(s.skip(1) =~= rest);
    } else {
        let c = x[0];
        let y = x.drop_first();
        assert(x =~= seq![c] + y);
        assert forall|i: int| 0 <= i < y.len() implies #[trigger] y[i] != '\\' by {
            assert(y[i] == x[i + 1]);
        }
        lemma_quoted_escape(y, rest);
        lemma_escape_front(c, y);
        let t = escape_quotes(y) + seq!['"'] + rest;
        if c == '"' {
            assert(s =~= seq!['\\', '"'] + t);
            assert(s.skip(2) =~= t);
            assert(seq![s[1]] + y =~= x);
        } else {
            assert(s =~= seq![c] + t);
            assert(s.skip(1) =~= t);
            assert(seq![s[0]] + y =~= x);
        }
    }
}

/// Words without whitespace, joined with single spaces, split back into
/// the same words.
proof fn lemma_split_join(xs: Seq<Seq<char>>)
    requires
        forall|i: int| 0 <= i < xs.len() ==> header_safe(#[trigger] xs[i]),
    ensures
        split_ws(join_with(xs, " "@)) == xs,
    decreases xs.len(),
{
    reveal_strlit(" ");
    if xs.len() == 0 {
        assert(trim_start(Seq::<char>::empty()) =~= Seq::<char>::empty());
    } else {
        let x = xs[0];
        let ys = xs.drop_first();
        assert(xs =~= seq![x] + ys);
        assert(header_safe(xs[0]));
        assert forall|i: int| 0 <= i < ys.len() implies header_safe(#[trigger] ys[i]) by {
            assert(ys[i] == xs[i + 1]);
        }
        let j = if ys.len() == 0 {
            x
        } else {
            lemma_join_front(x, ys, " "@);
            x + " "@ + join_with(ys, " "@)
        };
        assert(join_with(xs, " "@) == j) by {
            if ys.len() == 0 {
                assert(xs =~= seq![x]);
            }
        }
        lemma_trim_start_id(j);
        lemma_word_len(j);
        let k = word_len(j);
        if k < x.len() {
            assert(j[k] == x[k]);
        }
        if k > x.len() {
            assert(j[x.len() as int] == ' ');
        }
        assert(split_ws(j) == seq![j.take(k)] + split_ws(j.skip(k)));
        if ys.len() == 0 {
            assert(k == x.len());
            assert(j.take(k) =~= x);
            assert(j.skip(k) =~= Seq::<char>::empty());
            assert(trim_start(Seq::<char>::empty()) =~= Seq::<char>::empty());
            assert(split_ws(Seq::<char>::empty()) =~= Seq::<Seq<char>>::empty());
            assert(seq![x] + Seq::<Seq<char>>::empty() =~= xs);
        } else {
            assert(j[x.len() as int] == ' ');
            assert(k == x.len());
            assert(j.take(k) =~= x);
            let rest = join_with(ys, " "@);
            assert(j.skip(k) =~= seq![' '] + rest);
            assert((seq![' '] + rest).drop_first() =~= rest);
            lemma_split_ws_trim(seq![' '] + rest, rest);
            lemma_split_join(ys);
            assert(seq![x] + ys =~= xs);
        }
    }
}

/// A word list joined with spaces holds no backslash when no word does.
proof fn lemma_join_no_backslash(xs: Seq<Seq<char>>)
    requires
        forall|i: int| 0 <= i < xs.len() ==> header_safe(#[trigger] xs[i]),
    ensures
        forall|i: int| 0 <= i < join_with(xs, " "@).len() ==> #[trigger] join_with(xs, " "@)[i] != '\\',
    decreases xs.len(),
{
    reveal_strlit(" ");
    if xs.len() == 1 {
        assert(header_safe(xs[0]));
    } else if xs.len() > 1 {
        let d = xs.drop_last();
        assert forall|i: int| 0 <= i < d.len() implies header_safe(#[trigger] d[i]) by {
            assert(d[i] == xs[i]);
        }
        lemma_join_no_backslash(d);
        assert(header_safe(xs[xs.len() - 1]));
        let j = join_with(xs, " "@);
        let a = join_with(d, " "@);
        assert(j == a + " "@ + xs.last());
        assert forall|i: int| 0 <= i < j.len() implies #[trigger] j[i] != '\\' by {
            if i < a.len() {
                assert(j[i] == a[i]);
            } else if i == a.len() {
                assert(j[i] == ' ');
            } else {
                assert(j[i] == xs.last()[i - a.len() - 1]);
            }
        }
    }
}

/// A parameter as it is written after the `;` that precedes it.
pub open spec fn written_param(name: Seq<char>, x: Seq<char>) -> Seq<char> {
    seq![' '] + name + seq!['=', '"'] + escape_quotes(x) + seq!['"']
}

/// One written parameter reads back as `(name, x)`, and parsing resumes
/// after what follows it.
proof fn lemma_param_read(name: Seq<char>, x: Seq<char>, rest: Seq<char>)
    requires
        name.len() > 0,
        forall|i: int| 0 <= i < name.len() ==> !is_ws(#[trigger] name[i]) && name[i] != '=',
        forall|i: int| 0 <= i < x.len() ==> #[trigger] x[i] != '\\',
    ensures
        param_step(written_param(name, x) + rest) == Some(Some(((name, x), after_value(rest)))),
{
    let r = written_param(name, x) + rest;
    let r1 = name + seq!['=', '"'] + escape_quotes(x) + seq!['"'] + rest;
    assert(r.drop_first() =~= r1);
    assert(is_ws(' '));
    assert(r1[0] == name[0]);
    lemma_trim_start_id(r1);
    assert(trim_start(r) == trim_start(r1));
    lemma_trim_end_nonempty(r1);
    assert(trim(r).len() > 0);
    let e = name.len() as int;
    assert(r1[e] == '=');
    assert forall|j: int| 0 <= j < e implies r1[j] != '=' by {
        assert(r1[j] == name[j]);
    }
    lemma_first_index_of(r1, '=', e);
    assert(r1.take(e) =~= name);
    lemma_trim_id(name);
    let s = r1.skip(e + 1);
    assert(s =~= seq!['"'] + escape_quotes(x) + seq!['"'] + rest);
    assert(!is_ws('"'));
    lemma_trim_start_id(s);
    assert(s.skip(1) =~= escape_quotes(x) + seq!['"'] + rest);
    lemma_quoted_escape(x, rest);
    assert(param_value(s) == Some((x, rest)));
}

/// Nothing left parses as no parameters.
proof fn lemma_params_empty()
    ensures
        parse_params(Seq::<char>::empty()) == Some(Seq::<(Seq<char>, Seq<char>)>::empty()),
{
    assert(trim_start(Seq::<char>::empty()) =~= Seq::<char>::empty());
    assert(trim_end(Seq::<char>::empty()) =~= Seq::<char>::empty());
}

/// The names `ext` and `profile` are plain words.
proof fn lemma_param_names()
    ensures
        "ext"@.len() > 0,
        "profile"@.len() > 0,
        "ext"@ != "profile"@,
        forall|i: int| 0 <= i < "ext"@.len() ==> !is_ws(#[trigger] "ext"@[i]) && "ext"@[i] != '=',
        forall|i: int| 0 <= i < "profile"@.len() ==> !is_ws(#[trigger] "profile"@[i]) && "profile"@[i]
            != '=',
        is_known_param("ext"@),
        is_known_param("profile"@),
{
    reveal_strlit("ext");
    reveal_strlit("profile");
    assert("ext"@[0] != "profile"@[0]);
}

/// The parameters written after the base type read back as written.
proof fn lemma_params_read(ext: Seq<Seq<char>>, profile: Seq<Seq<char>>)
    requires
        forall|i: int| 0 <= i < ext.len() ==> header_safe(#[trigger] ext[i]),
        forall|i: int| 0 <= i < profile.len() ==> header_safe(#[trigger] profile[i]),
        ext.len() > 0 || profile.len() > 0,
    ensures
        ({
            let je = join_with(ext, " "@);
            let jp = join_with(profile, " "@);
            let pe = written_param("ext"@, je);
            let pp = written_param("profile"@, jp);
            let text = if ext.len() > 0 && profile.len() > 0 {
                pe + seq![';'] + pp
            } else if ext.len() > 0 {
                pe
            } else {
                pp
            };
            parse_params(text) == Some(
                if ext.len() > 0 && profile.len() > 0 {
                    seq![("ext"@, je), ("profile"@, jp)]
                } else if ext.len() > 0 {
                    seq![("ext"@, je)]
                } else {
                    seq![("profile"@, jp)]
                },
            )
        }),
{
    lemma_param_names();
    let je = join_with(ext, " "@);
    let jp = join_with(profile, " "@);
    lemma_join_no_backslash(ext);
    lemma_join_no_backslash(profile);
    let pe = written_param("ext"@, je);
    let pp = written_param("profile"@, jp);
    let empty = Seq::<char>::empty();
    lemma_params_empty();
    assert(after_value(empty) =~= empty) by {
        assert(trim_start(empty) =~= empty);
    }
    lemma_param_read("profile"@, jp, empty);
    assert(pp + empty =~= pp);
    assert(parse_params(pp) == Some(seq![("profile"@, jp)]));
    lemma_param_read("ext"@, je, empty);
    assert(pe + empty =~= pe);
    assert(parse_params(pe) == Some(seq![("ext"@, je)]));
    if ext.len() > 0 && profile.len() > 0 {
        let rest = seq![';'] + pp;
        lemma_param_read("ext"@, je, rest);
        assert(!is_ws(';'));
        lemma_trim_start_id(rest);
        assert(rest.skip(1) =~= pp);
        assert(after_value(rest) == pp);
        assert(pe + seq![';'] + pp =~= pe + rest);
        assert(seq![("ext"@, je)] + seq![("profile"@, jp)] =~= seq![("ext"@, je), ("profile"@, jp)]);
    }
}

/// The parameters a header value carries: `ext` and then `profile`, each
/// with its URIs joined by spaces, when there are any.
pub open spec fn written_params(ext: Seq<Seq<char>>, profile: Seq<Seq<char>>) -> Seq<(Seq<char>, Seq<char>)> {
    (if ext.len() > 0 {
        seq![("ext"@, join_with(ext, " "@))]
    } else {
        Seq::empty()
    }) + (if profile.len() > 0 {
        seq![("profile"@, join_with(profile, " "@))]
    } else {
        Seq::empty()
    })
}

/// The header value of a media type parses into its base type and
/// [`written_params`].
#[verifier::spinoff_prover]
#[verifier::rlimit(50)]
proof fn lemma_header_parses(ext: Seq<Seq<char>>, profile: Seq<Seq<char>>)
    requires
        forall|i: int| 0 <= i < ext.len() ==> header_safe(#[trigger] ext[i]),
        forall|i: int| 0 <= i < profile.len() ==> header_safe(#[trigger] profile[i]),
    ensures
        parse_media_type(header_value(ext, profile)) == Some((jsonapi_media_type(), written_params(ext, profile))),
{
    reveal_strlit("application/vnd.api+json");
    reveal_strlit("; ");
    reveal_strlit("=\"");
    reveal_strlit("\"");
    lemma_param_names();
    let b = jsonapi_media_type();
    let h = header_value(ext, profile);
    let je = join_with(ext, " "@);
    let jp = join_with(profile, " "@);
    let pe = written_param("ext"@, je);
    let pp = written_param("profile"@, jp);
    let empty_ps = Seq::<(Seq<char>, Seq<char>)>::empty();
    assert(b.len() == 24);
    assert(!is_ws(b[0]));
    assert forall|j: int| 0 <= j < b.len() implies b[j] != ';' by {}
    if ext.len() > 0 {
        assert(param_suffix("ext"@, ext) =~= seq![';'] + pe);
    } else {
        assert(param_suffix("ext"@, ext) =~= Seq::<char>::empty());
    }
    if profile.len() > 0 {
        assert(param_suffix("profile"@, profile) =~= seq![';'] + pp);
    } else {
        assert(param_suffix("profile"@, profile) =~= Seq::<char>::empty());
    }
    if ext.len() == 0 && profile.len() == 0 {
        assert(h =~= b);
        lemma_trim_id(b);
        lemma_first_index_of_none(b, ';');
        assert(written_params(ext, profile) =~= empty_ps);
    } else {
        let text = if ext.len() > 0 && profile.len() > 0 {
            pe + seq![';'] + pp
        } else if ext.len() > 0 {
            pe
        } else {
            pp
        };
        lemma_params_read(ext, profile);
        assert(parse_params(text) == Some(written_params(ext, profile))) by {
            if ext.len() > 0 && profile.len() > 0 {
                assert(written_params(ext, profile) =~= seq![("ext"@, je), ("profile"@, jp)]);
            } else if ext.len() > 0 {
                assert(written_params(ext, profile) =~= seq![("ext"@, je)]);
            } else {
                assert(written_params(ext, profile) =~= seq![("profile"@, jp)]);
            }
        }
        assert(h =~= b + seq![';'] + text);
        assert(h[0] == b[0]);
        assert(h.last() == '"');
        lemma_trim_id(h);
        assert(h[24] == ';');
        assert forall|j: int| 0 <= j < 24 implies h[j] != ';' by {
            assert(h[j] == b[j]);
        }
        lemma_first_index_of(h, ';', 24);
        assert(h.skip(25) =~= text);
        assert(h.take(24) =~= b);
        lemma_trim_id(b);
    }
}

/// `values_for` of one more parameter.
proof fn lemma_values_push(ps: Seq<(Seq<char>, Seq<char>)>, p: (Seq<char>, Seq<char>), key: Seq<char>)
    ensures
        values_for(ps.push(p), key) == values_for(ps, key) + if p.0 == key {
            split_ws(p.1)
        } else {
            Seq::empty()
        },
{
    assert(ps.push(p).drop_last() =~= ps);
}

/// The written parameters give back the URIs, and none is unknown.
proof fn lemma_written_values(ext: Seq<Seq<char>>, profile: Seq<Seq<char>>)
    requires
        forall|i: int| 0 <= i < ext.len() ==> header_safe(#[trigger] ext[i]),
        forall|i: int| 0 <= i < profile.len() ==> header_safe(#[trigger] profile[i]),
    ensures
        values_for(written_params(ext, profile), "ext"@) == ext,
        values_for(written_params(ext, profile), "profile"@) == profile,
        first_unknown(written_params(ext, profile)) is None,
{
    lemma_param_names();
    let empty_ps = Seq::<(Seq<char>, Seq<char>)>::empty();
    let empty_vs = Seq::<Seq<char>>::empty();
    assert(values_for(empty_ps, "ext"@) =~= empty_vs);
    assert(values_for(empty_ps, "profile"@) =~= empty_vs);
    let pe = ("ext"@, join_with(ext, " "@));
    let pp = ("profile"@, join_with(profile, " "@));
    let first = if ext.len() > 0 {
        empty_ps.push(pe)
    } else {
        empty_ps
    };
    if ext.len() > 0 {
        lemma_split_join(ext);
        lemma_values_push(empty_ps, pe, "ext"@);
        lemma_values_push(empty_ps, pe, "profile"@);
        assert(values_for(first, "ext"@) =~= ext);
        assert(values_for(first, "profile"@) =~= empty_vs);
    } else {
        assert(ext =~= empty_vs);
    }
    if profile.len() > 0 {
        lemma_split_join(profile);
        lemma_values_push(first, pp, "ext"@);
        lemma_values_push(first, pp, "profile"@);
        assert(written_params(ext, profile) =~= first.push(pp));
        assert(values_for(first.push(pp), "ext"@) =~= ext);
        assert(values_for(first.push(pp), "profile"@) =~= profile);
        lemma_first_unknown_known(first.push(pp));
    } else {
        assert(profile =~= empty_vs);
        assert(written_params(ext, profile) =~= first);
        lemma_first_unknown_known(first);
    }
}

/// A list of `ext` and `profile` parameters has no unknown one.
proof fn lemma_first_unknown_known(ps: Seq<(Seq<char>, Seq<char>)>)
    requires
        forall|i: int| 0 <= i < ps.len() ==> is_known_param(#[trigger] ps[i].0),
    ensures
        first_unknown(ps) is None,
    decreases ps.len(),
{
    if ps.len() > 0 {
        assert(is_known_param(ps[0].0));
        assert forall|i: int| 0 <= i < ps.drop_first().len() implies is_known_param(
            #[trigger] ps.drop_first()[i].0,
        ) by {
            assert(ps.drop_first()[i] == ps[i + 1]);
        }
        lemma_first_unknown_known(ps.drop_first());
    }
}

/// Formatting a media type and parsing the header back gives its `ext`
/// and `profile` URIs again, with or without the check for unknown
/// parameters — when every URI is non-empty and holds no whitespace and
/// no backslash.
pub proof fn lemma_header_round_trip(ext: Seq<Seq<char>>, profile: Seq<Seq<char>>)
    requires
        forall|i: int| 0 <= i < ext.len() ==> header_safe(#[trigger] ext[i]),
        forall|i: int| 0 <= i < profile.len() ==> header_safe(#[trigger] profile[i]),
    ensures
        jsonapi_params(header_value(ext, profile), false) == Some((ext, profile)),
        jsonapi_params(header_value(ext, profile), true) == Some((ext, profile)),
{
    lemma_header_parses(ext, profile);
    lemma_written_values(ext, profile);
}

} // verus!
