//! Reading back what the query builder writes: the query string of a
//! builder parses into the same `(name, value)` parameters.
use crate::encoding::{
    ascii_bytes, encode_one, hex_upper, lemma_percent_decode_encoded, lemma_percent_round_trip,
    must_encode, pct_triplet, percent_decoded, percent_encoded, EncodeSet,
};
use crate::query::{encode_component, encode_value, param_text, query_text};
use crate::query_parse::{
    decode_component, decoded_pairs, raw_pairs, raw_pairs_of, split_pair, strip_question,
};
use crate::text::{
    first_index_of, join_with, lemma_first_index_of, lemma_first_index_of_none,
    lemma_join_front, split_on,
};
use vstd::prelude::*;
use vstd::utf8::{
    encode_scalar, encode_utf8, encode_utf8_decode_utf8, encode_utf8_valid_utf8, is_ascii_chars,
    is_ascii_chars_encode_utf8,
};

verus! {

/// Whether a character is one the query syntax gives a meaning to inside
/// a parameter: `&` between parameters, `=` between name and value, `,`
/// between list items.
pub open spec fn is_delim(c: char) -> bool {
    c == '&' || c == '=' || c == ','
}

/// Percent-encoded text holds only ASCII and no delimiter.
proof fn lemma_encoded_plain(bytes: Seq<u8>)
    ensures
        forall|i: int|
            0 <= i < percent_encoded(EncodeSet::Unreserved, bytes).len() ==> !is_delim(
                #[trigger] percent_encoded(EncodeSet::Unreserved, bytes)[i],
            ),
    decreases bytes.len(),
{
    if bytes.len() > 0 {
        let set = EncodeSet::Unreserved;
        lemma_encoded_plain(bytes.drop_last());
        let a = percent_encoded(set, bytes.drop_last());
        let b = bytes.last();
        let one = encode_one(set, b);
        let t = percent_encoded(set, bytes);
        assert(t == a + one);
        assert forall|i: int| 0 <= i < one.len() implies !is_delim(#[trigger] one[i]) by {
            if must_encode(set, b) {
                let hi = b / 16;
                let lo = b % 16;
                assert(one == pct_triplet(b));
                assert(one[1] == hex_upper(hi));
                assert(one[2] == hex_upper(lo));
            }
        }
        assert forall|i: int| 0 <= i < t.len() implies !is_delim(#[trigger] t[i]) by {
            if i < a.len() {
                assert(t[i] == a[i]);
            } else {
                assert(t[i] == one[i - a.len()]);
            }
        }
    }
}

/// Percent-decoding reads an encoding back and goes on with what follows.
proof fn lemma_decode_encoded_then(set: EncodeSet, bytes: Seq<u8>, rest: Seq<u8>)
    ensures
        percent_decoded(ascii_bytes(percent_encoded(set, bytes)) + rest) == bytes + percent_decoded(rest),
    decreases bytes.len(),
{
    if bytes.len() == 0 {
        assert(ascii_bytes(percent_encoded(set, bytes)) =~= Seq::<u8>::empty());
        assert(Seq::<u8>::empty() + rest =~= rest);
        assert(bytes + percent_decoded(rest) =~= percent_decoded(rest));
    } else {
        let b = bytes[0];
        let tail = bytes.drop_first();
        assert(bytes =~= seq![b] + tail);
        crate::encoding::lemma_encoded_front(set, b, tail);
        let one = encode_one(set, b);
        let more = percent_encoded(set, tail);
        assert(ascii_bytes(one + more) =~= ascii_bytes(one) + ascii_bytes(more));
        lemma_decode_encoded_then(set, tail, rest);
        crate::encoding::lemma_decode_one(set, b, ascii_bytes(more) + rest);
        assert(ascii_bytes(one) + ascii_bytes(more) + rest =~= ascii_bytes(one) + (ascii_bytes(more)
            + rest));
        assert(seq![b] + (tail + percent_decoded(rest)) =~= bytes + percent_decoded(rest));
    }
}

/// Bytes without `%` decode to themselves.
proof fn lemma_decode_plain(b: Seq<u8>)
    requires
        forall|i: int| 0 <= i < b.len() ==> #[trigger] b[i] != 0x25u8,
    ensures
        percent_decoded(b) == b,
    decreases b.len(),
{
    if b.len() > 0 {
        let t = b.skip(1);
        assert forall|i: int| 0 <= i < t.len() implies #[trigger] t[i] != 0x25u8 by {
            assert(t[i] == b[i + 1]);
        }
        lemma_decode_plain(t);
        assert(seq![b[0]] + t =~= b);
    }
}

/// The UTF-8 encoding of a scalar other than `%` holds no `%` byte.
proof fn lemma_scalar_no_percent(v: u32)
    requires
        vstd::utf8::is_scalar(v),
        v != 0x25,
    ensures
        forall|i: int| 0 <= i < encode_scalar(v).len() ==> #[trigger] encode_scalar(v)[i] != 0x25u8,
{
    assert(forall|y: u8| #[trigger] (0x80u8 | y) >= 0x80u8) by (bit_vector);
    assert(forall|y: u8| #[trigger] (0xC0u8 | y) >= 0x80u8) by (bit_vector);
    assert(forall|y: u8| #[trigger] (0xE0u8 | y) >= 0x80u8) by (bit_vector);
    assert(forall|y: u8| #[trigger] (0xF0u8 | y) >= 0x80u8) by (bit_vector);
    if v <= 0x7F {
        assert(v <= 0x7F ==> (v & 0x7F) == v) by (bit_vector);
        assert(((v & 0x7F) as u8) != 0x25u8);
    }
}

/// Text without `%` encodes to bytes without `%`.
proof fn lemma_utf8_no_percent(s: Seq<char>)
    requires
        forall|i: int| 0 <= i < s.len() ==> #[trigger] s[i] != '%',
    ensures
        forall|i: int| 0 <= i < encode_utf8(s).len() ==> #[trigger] encode_utf8(s)[i] != 0x25u8,
    decreases s.len(),
{
    if s.len() > 0 {
        let t = s.drop_first();
        assert forall|i: int| 0 <= i < t.len() implies #[trigger] t[i] != '%' by {
            assert(t[i] == s[i + 1]);
        }
        lemma_utf8_no_percent(t);
        let c = s[0];
        let v = c as u32;
        vstd::utf8::char_is_scalar(c);
        assert(c != '%');
        assert(('%' as u32) == 0x25);
        vstd::utf8::char_u32_cast(c, c as u32);
        vstd::utf8::char_u32_cast('%', '%' as u32);
        assert((c as u32) != ('%' as u32));
        assert(v != 0x25);
        lemma_scalar_no_percent(v);
        let e = encode_utf8(s);
        let a = encode_scalar(v);
        let b = encode_utf8(t);
        assert(e == a + b);
        assert forall|i: int| 0 <= i < e.len() implies #[trigger] e[i] != 0x25u8 by {
            if i < a.len() {
                assert(e[i] == a[i]);
            } else {
                assert(e[i] == b[i - a.len()]);
            }
        }
    }
}

/// A name without `%` decodes to itself.
proof fn lemma_decode_name(k: Seq<char>)
    requires
        forall|i: int| 0 <= i < k.len() ==> #[trigger] k[i] != '%',
    ensures
        decode_component(k) == Some(k),
{
    lemma_utf8_no_percent(k);
    lemma_decode_plain(encode_utf8(k));
    encode_utf8_valid_utf8(k);
    encode_utf8_decode_utf8(k);
}

/// `encode_utf8` distributes over concatenation.
proof fn lemma_utf8_concat(a: Seq<char>, b: Seq<char>)
    ensures
        encode_utf8(a + b) == encode_utf8(a) + encode_utf8(b),
    decreases a.len(),
{
    if a.len() == 0 {
        assert(a + b =~= b);
        assert(encode_utf8(a) =~= Seq::<u8>::empty());
        assert(Seq::<u8>::empty() + encode_utf8(b) =~= encode_utf8(b));
    } else {
        lemma_utf8_concat(a.drop_first(), b);
        assert((a + b).drop_first() =~= a.drop_first() + b);
        assert((a + b)[0] == a[0]);
        assert(encode_utf8(a + b) =~= encode_utf8(a) + encode_utf8(b));
    }
}

/// Splitting at a character and joining back with it gives the text back.
proof fn lemma_join_split(v: Seq<char>, c: char)
    ensures
        split_on(v, c).len() > 0,
        join_with(split_on(v, c), seq![c]) == v,
    decreases v.len(),
{
    crate::text::lemma_first_index_of_props(v, c);
    match first_index_of(v, c) {
        None => {},
        Some(p) => {
            let rest = v.skip(p + 1);
            lemma_join_split(rest, c);
            lemma_join_front(v.take(p), split_on(rest, c), seq![c]);
            assert(v.take(p) + seq![c] + rest =~= v);
        },
    }
}

/// The characters of a list joined with `sep` come from the items or from
/// `sep`.
proof fn lemma_join_chars(xs: Seq<Seq<char>>, sep: char, p: spec_fn(char) -> bool)
    requires
        p(sep),
        forall|i: int, j: int| 0 <= i < xs.len() && 0 <= j < xs[i].len() ==> p(#[trigger] xs[i][j]),
    ensures
        forall|j: int| 0 <= j < join_with(xs, seq![sep]).len() ==> p(#[trigger] join_with(xs, seq![sep])[j]),
    decreases xs.len(),
{
    if xs.len() == 1 {
        assert forall|j: int| 0 <= j < xs[0].len() implies p(#[trigger] xs[0][j]) by {}
    } else if xs.len() > 1 {
        let d = xs.drop_last();
        assert forall|i: int, j: int| 0 <= i < d.len() && 0 <= j < d[i].len() implies p(#[trigger] d[i][j]) by {
            assert(d[i] == xs[i]);
        }
        lemma_join_chars(d, sep, p);
        let a = join_with(d, seq![sep]);
        let l = xs.last();
        let all = join_with(xs, seq![sep]);
        assert(all == a + seq![sep] + l);
        assert forall|j: int| 0 <= j < all.len() implies p(#[trigger] all[j]) by {
            if j < a.len() {
                assert(all[j] == a[j]);
            } else if j == a.len() {
                assert(all[j] == sep);
            } else {
                assert(all[j] == l[j - a.len() - 1]);
                assert(l == xs[xs.len() - 1]);
            }
        }
    }
}

/// An encoded value holds no `&` and no `=`, and is ASCII.
proof fn lemma_value_plain(v: Seq<char>, keep_commas: bool)
    ensures
        forall|j: int| 0 <= j < encode_value(v, keep_commas).len() ==> {
            let c = #[trigger] encode_value(v, keep_commas)[j];
            c != '&' && c != '='
        },
        is_ascii_chars(encode_value(v, keep_commas)),
{
    reveal_strlit(",");
    assert(","@ =~= seq![',']);
    if keep_commas {
        let segs = split_on(v, ',');
        let encs = segs.map_values(|s: Seq<char>| encode_component(s));
        assert forall|i: int, j: int| 0 <= i < encs.len() && 0 <= j < encs[i].len() implies ({
            let c = #[trigger] encs[i][j];
            c != '&' && c != '=' && '\0' <= c <= '\u{7f}'
        }) by {
            lemma_encoded_plain(encode_utf8(segs[i]));
            lemma_percent_decode_encoded(EncodeSet::Unreserved, encode_utf8(segs[i]));
            assert(encs[i] == percent_encoded(EncodeSet::Unreserved, encode_utf8(segs[i])));
        }
        let p = |c: char| c != '&' && c != '=' && '\0' <= c <= '\u{7f}';
        lemma_join_chars(encs, ',', p);
    } else {
        lemma_encoded_plain(encode_utf8(v));
        lemma_percent_decode_encoded(EncodeSet::Unreserved, encode_utf8(v));
    }
}

/// Items encoded one by one and joined with commas decode to the items
/// joined with commas.
proof fn lemma_decode_joined(segs: Seq<Seq<char>>)
    requires
        segs.len() > 0,
    ensures
        percent_decoded(ascii_bytes(join_with(segs.map_values(|s: Seq<char>| encode_component(s)), seq![','])))
            == encode_utf8(join_with(segs, seq![','])),
    decreases segs.len(),
{
    let f = |s: Seq<char>| encode_component(s);
    let s0 = segs[0];
    let rest = segs.drop_first();
    assert(segs =~= seq![s0] + rest);
    let e0 = encode_component(s0);
    lemma_decode_encoded_then(EncodeSet::Unreserved, encode_utf8(s0), Seq::<u8>::empty());
    assert(ascii_bytes(e0) + Seq::<u8>::empty() =~= ascii_bytes(e0));
    assert(percent_decoded(Seq::<u8>::empty()) =~= Seq::<u8>::empty());
    if rest.len() == 0 {
        assert(segs.map_values(f) =~= seq![e0]);
        assert(segs =~= seq![s0]);
        assert(encode_utf8(s0) + Seq::<u8>::empty() =~= encode_utf8(s0));
    } else {
        lemma_decode_joined(rest);
        assert(segs.map_values(f) =~= seq![e0] + rest.map_values(f));
        lemma_join_front(e0, rest.map_values(f), seq![',']);
        lemma_join_front(s0, rest, seq![',']);
        let jr = join_with(rest.map_values(f), seq![',']);
        let tail = seq![0x2Cu8] + ascii_bytes(jr);
        assert(ascii_bytes(e0 + seq![','] + jr) =~= ascii_bytes(e0) + tail);
        lemma_decode_encoded_then(EncodeSet::Unreserved, encode_utf8(s0), tail);
        assert(tail.skip(1) =~= ascii_bytes(jr));
        assert(percent_decoded(tail) == seq![0x2Cu8] + percent_decoded(ascii_bytes(jr)));
        is_ascii_chars_encode_utf8(seq![',']);
        assert(encode_utf8(seq![',']) =~= seq![0x2Cu8]);
        let js = join_with(rest, seq![',']);
        lemma_utf8_concat(s0, seq![',']);
        lemma_utf8_concat(s0 + seq![','], js);
        assert(encode_utf8(s0 + seq![','] + js) =~= encode_utf8(s0) + (seq![0x2Cu8] + encode_utf8(js)));
    }
}

/// An encoded value decodes to the value.
proof fn lemma_decode_value(v: Seq<char>, keep_commas: bool)
    ensures
        decode_component(encode_value(v, keep_commas)) == Some(v),
{
    reveal_strlit(",");
    assert(","@ =~= seq![',']);
    if keep_commas {
        let segs = split_on(v, ',');
        lemma_join_split(v, ',');
        lemma_decode_joined(segs);
        let e = encode_value(v, true);
        lemma_value_plain(v, true);
        is_ascii_chars_encode_utf8(e);
        assert(encode_utf8(e) =~= ascii_bytes(e));
        encode_utf8_valid_utf8(v);
        encode_utf8_decode_utf8(v);
    } else {
        lemma_percent_round_trip(EncodeSet::Unreserved, v);
    }
}

/// Whether a parameter name is written and read as it is: it holds no
/// `&`, `=` or `%`.
pub open spec fn plain_name(k: Seq<char>) -> bool {
    forall|i: int| 0 <= i < k.len() ==> #[trigger] k[i] != '&' && k[i] != '=' && k[i] != '%'
}

/// The `name=value` text of a parameter splits back into the name and the
/// encoded value.
proof fn lemma_split_param(p: (Seq<char>, Seq<char>, bool))
    requires
        plain_name(p.0),
    ensures
        split_pair(param_text(p)) == (p.0, encode_value(p.1, p.2)),
        param_text(p).len() > 0,
        forall|j: int| 0 <= j < param_text(p).len() ==> #[trigger] param_text(p)[j] != '&',
{
    reveal_strlit("=");
    let t = param_text(p);
    let e = encode_value(p.1, p.2);
    assert(t =~= p.0 + seq!['='] + e);
    let n = p.0.len() as int;
    assert(t[n] == '=');
    assert forall|j: int| 0 <= j < n implies t[j] != '=' by {
        assert(t[j] == p.0[j]);
    }
    lemma_first_index_of(t, '=', n);
    assert(t.take(n) =~= p.0);
    assert(t.skip(n + 1) =~= e);
    lemma_value_plain(p.1, p.2);
    assert forall|j: int| 0 <= j < t.len() implies #[trigger] t[j] != '&' by {
        if j < n {
            assert(t[j] == p.0[j]);
        } else if j > n {
            assert(t[j] == e[j - n - 1]);
        }
    }
}

/// Texts without `c`, joined with `c`, split back at `c` into the texts.
proof fn lemma_split_join_on(ts: Seq<Seq<char>>, c: char)
    requires
        ts.len() > 0,
        forall|i: int, j: int| 0 <= i < ts.len() && 0 <= j < ts[i].len() ==> #[trigger] ts[i][j] != c,
    ensures
        split_on(join_with(ts, seq![c]), c) == ts,
    decreases ts.len(),
{
    let t0 = ts[0];
    let rest = ts.drop_first();
    assert(ts =~= seq![t0] + rest);
    assert forall|j: int| 0 <= j < t0.len() implies t0[j] != c by {
        assert(ts[0][j] != c);
    }
    if rest.len() == 0 {
        assert(ts =~= seq![t0]);
        lemma_first_index_of_none(t0, c);
    } else {
        assert forall|i: int, j: int| 0 <= i < rest.len() && 0 <= j < rest[i].len() implies #[trigger] rest[i][j]
            != c by {
            assert(rest[i] == ts[i + 1]);
        }
        lemma_split_join_on(rest, c);
        lemma_join_front(t0, rest, seq![c]);
        let all = t0 + seq![c] + join_with(rest, seq![c]);
        let n = t0.len() as int;
        assert(all[n] == c);
        assert forall|j: int| 0 <= j < n implies all[j] != c by {
            assert(all[j] == t0[j]);
        }
        lemma_first_index_of(all, c, n);
        assert(all.take(n) =~= t0);
        assert(all.skip(n + 1) =~= join_with(rest, seq![c]));
    }
}

/// Non-empty pieces give one raw pair each.
proof fn lemma_raw_pairs_all(ts: Seq<Seq<char>>)
    requires
        forall|i: int| 0 <= i < ts.len() ==> (#[trigger] ts[i]).len() > 0,
    ensures
        raw_pairs_of(ts) == ts.map_values(|t: Seq<char>| split_pair(t)),
    decreases ts.len(),
{
    if ts.len() > 0 {
        let d = ts.drop_last();
        assert forall|i: int| 0 <= i < d.len() implies (#[trigger] d[i]).len() > 0 by {
            assert(d[i] == ts[i]);
        }
        lemma_raw_pairs_all(d);
        assert(ts.last() == ts[ts.len() - 1]);
        assert(ts.map_values(|t: Seq<char>| split_pair(t)) =~= d.map_values(|t: Seq<char>| split_pair(t))
            + seq![split_pair(ts.last())]);
    } else {
        assert(ts.map_values(|t: Seq<char>| split_pair(t)) =~= Seq::<(Seq<char>, Seq<char>)>::empty());
    }
}

/// The raw pairs of parameters, as the builder wrote them, decode to the
/// names and values.
proof fn lemma_decoded_params(ps: Seq<(Seq<char>, Seq<char>, bool)>)
    requires
        forall|i: int| 0 <= i < ps.len() ==> plain_name(#[trigger] ps[i].0),
    ensures
        decoded_pairs(ps.map_values(|p: (Seq<char>, Seq<char>, bool)| (p.0, encode_value(p.1, p.2))))
            == Ok::<Seq<(Seq<char>, Seq<char>)>, Seq<char>>(
            ps.map_values(|p: (Seq<char>, Seq<char>, bool)| (p.0, p.1)),
        ),
    decreases ps.len(),
{
    let f = |p: (Seq<char>, Seq<char>, bool)| (p.0, encode_value(p.1, p.2));
    let g = |p: (Seq<char>, Seq<char>, bool)| (p.0, p.1);
    if ps.len() == 0 {
        assert(ps.map_values(f) =~= Seq::<(Seq<char>, Seq<char>)>::empty());
        assert(ps.map_values(g) =~= Seq::<(Seq<char>, Seq<char>)>::empty());
    } else {
        let d = ps.drop_last();
        assert forall|i: int| 0 <= i < d.len() implies plain_name(#[trigger] d[i].0) by {
            assert(d[i] == ps[i]);
        }
        lemma_decoded_params(d);
        let last = ps[ps.len() - 1];
        assert(plain_name(last.0));
        assert(ps.map_values(f).drop_last() =~= d.map_values(f));
        assert(ps.map_values(g) =~= d.map_values(g).push(g(last)));
        assert(ps.map_values(f).last() == f(last));
        lemma_decode_name(last.0);
        lemma_decode_value(last.1, last.2);
    }
}

/// What the query builder writes reads back as what it was given: the
/// query string of parameters whose names hold no `&`, `=` or `%` (and
/// whose first name does not start with `?`) parses, before any JSON:API
/// meaning is given to it, into exactly the parameters' names and values,
/// in order.
pub proof fn lemma_query_round_trip(ps: Seq<(Seq<char>, Seq<char>, bool)>)
    requires
        forall|i: int| 0 <= i < ps.len() ==> plain_name(#[trigger] ps[i].0),
        ps.len() > 0 ==> !(ps[0].0.len() > 0 && ps[0].0[0] == '?'),
    ensures
        decoded_pairs(raw_pairs(query_text(ps))) == Ok::<Seq<(Seq<char>, Seq<char>)>, Seq<char>>(
            ps.map_values(|p: (Seq<char>, Seq<char>, bool)| (p.0, p.1)),
        ),
{
    reveal_strlit("&");
    assert("&"@ =~= seq!['&']);
    let ts = ps.map_values(|p: (Seq<char>, Seq<char>, bool)| param_text(p));
    let q = query_text(ps);
    assert(q == join_with(ts, seq!['&']));
    assert forall|i: int| 0 <= i < ps.len() implies ({
        &&& split_pair(#[trigger] ts[i]) == (ps[i].0, encode_value(ps[i].1, ps[i].2))
        &&& ts[i].len() > 0
        &&& forall|j: int| 0 <= j < ts[i].len() ==> ts[i][j] != '&'
    }) by {
        lemma_split_param(ps[i]);
    }
    if ps.len() == 0 {
        assert(ts =~= Seq::<Seq<char>>::empty());
        assert(q =~= Seq::<char>::empty());
        assert(strip_question(q) =~= q);
        lemma_first_index_of_none(q, '&');
        let pieces = split_on(q, '&');
        assert(pieces =~= seq![q]);
        assert(pieces.drop_last() =~= Seq::<Seq<char>>::empty());
        assert(pieces.last().len() == 0);
        assert(raw_pairs_of(Seq::<Seq<char>>::empty()) =~= Seq::<(Seq<char>, Seq<char>)>::empty());
        assert(raw_pairs_of(pieces) =~= Seq::<(Seq<char>, Seq<char>)>::empty());
        assert(raw_pairs(q) =~= Seq::<(Seq<char>, Seq<char>)>::empty());
        lemma_decoded_params(ps);
        assert(ps.map_values(|p: (Seq<char>, Seq<char>, bool)| (p.0, encode_value(p.1, p.2))) =~= Seq::<
            (Seq<char>, Seq<char>),
        >::empty());
    } else {
        let t0 = ts[0];
        if ts.len() > 1 {
            lemma_join_front(t0, ts.drop_first(), seq!['&']);
            assert(ts =~= seq![t0] + ts.drop_first());
        } else {
            assert(ts =~= seq![t0]);
        }
        assert(q[0] == t0[0]);
        reveal_strlit("=");
        assert(t0 =~= ps[0].0 + seq!['='] + encode_value(ps[0].1, ps[0].2));
        if ps[0].0.len() == 0 {
            assert(t0[0] == '=');
        } else {
            assert(t0[0] == ps[0].0[0]);
        }
        assert(strip_question(q) == q);
        assert forall|i: int, j: int| 0 <= i < ts.len() && 0 <= j < ts[i].len() implies #[trigger] ts[i][j]
            != '&' by {}
        lemma_split_join_on(ts, '&');
        lemma_raw_pairs_all(ts);
        assert(ts.map_values(|t: Seq<char>| split_pair(t)) =~= ps.map_values(
            |p: (Seq<char>, Seq<char>, bool)| (p.0, encode_value(p.1, p.2)),
        ));
        lemma_decoded_params(ps);
    }
}

} // verus!
