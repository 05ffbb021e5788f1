//! Character-sequence helpers shared by the header, member-name and query parsers.
//!
//! Text is handled as `Seq<char>` in specifications and as `Vec<char>` (with
//! `[lo, hi)` index windows) in executable code.
use vstd::prelude::*;

verus! {

/// Unicode `White_Space`, the property `char::is_whitespace` tests.
pub open spec fn is_ws(c: char) -> bool {
    let u = c as u32;
    (0x09 <= u && u <= 0x0D) || u == 0x20 || u == 0x85 || u == 0xA0 || u == 0x1680 || (0x2000
        <= u && u <= 0x200A) || u == 0x2028 || u == 0x2029 || u == 0x202F || u == 0x205F || u
        == 0x3000
}

/// `s` with leading whitespace removed (`str::trim_start`).
pub open spec fn trim_start(s: Seq<char>) -> Seq<char>
    decreases s.len(),
{
    if s.len() > 0 && is_ws(s[0]) {
        trim_start(s.drop_first())
    } else {
        s
    }
}

/// `trim_start` drops a prefix: the result is a suffix of its input.
pub proof fn lemma_trim_start_suffix(s: Seq<char>)
    ensures
        trim_start(s).len() <= s.len(),
        trim_start(s).len() > 0 ==> !is_ws(trim_start(s)[0]),
        trim_start(s) == s.skip(s.len() - trim_start(s).len()),
    decreases s.len(),
{
    if s.len() > 0 && is_ws(s[0]) {
        lemma_trim_start_suffix(s.drop_first());
        assert(s.drop_first().skip(s.drop_first().len() - trim_start(s).len()) =~= s.skip(
            s.len() - trim_start(s).len(),
        ));
    } else {
        assert(s.skip(0) =~= s);
    }
}

/// `s` with trailing whitespace removed (`str::trim_end`).
pub open spec fn trim_end(s: Seq<char>) -> Seq<char>
    decreases s.len(),
{
    if s.len() > 0 && is_ws(s.last()) {
        trim_end(s.drop_last())
    } else {
        s
    }
}

/// `s` with surrounding whitespace removed (`str::trim`).
pub open spec fn trim(s: Seq<char>) -> Seq<char> {
    trim_end(trim_start(s))
}

/// ASCII lower-casing of one character (`char::to_ascii_lowercase`).
pub open spec fn ascii_lower(c: char) -> char {
    if 'A' <= c && c <= 'Z' {
        ((c as u32) + 32) as char
    } else {
        c
    }
}

/// Equality up to ASCII case (`str::eq_ignore_ascii_case`).
pub open spec fn eq_ignore_ascii_case(a: Seq<char>, b: Seq<char>) -> bool {
    a.len() == b.len() && forall|i: int| 0 <= i < a.len() ==> ascii_lower(a[i]) == ascii_lower(b[i])
}

/// Index of the first occurrence of `c` in `s`, if any.
pub open spec fn first_index_of(s: Seq<char>, c: char) -> Option<int>
    decreases s.len(),
{
    if s.len() == 0 {
        None
    } else if s[0] == c {
        Some(0)
    } else {
        match first_index_of(s.drop_first(), c) {
            Some(i) => Some(i + 1),
            None => None,
        }
    }
}

/// Proves that `i` is the value `first_index_of` picks.
pub proof fn lemma_first_index_of(s: Seq<char>, c: char, i: int)
    requires
        0 <= i < s.len(),
        s[i] == c,
        forall|j: int| 0 <= j < i ==> s[j] != c,
    ensures
        first_index_of(s, c) == Some(i),
    decreases s.len(),
{
    if i > 0 {
        lemma_first_index_of(s.drop_first(), c, i - 1);
    }
}

/// What `first_index_of` returns is the first occurrence.
pub proof fn lemma_first_index_of_props(s: Seq<char>, c: char)
    ensures
        first_index_of(s, c) matches Some(p) ==> 0 <= p < s.len() && s[p] == c && forall|j: int|
            0 <= j < p ==> s[j] != c,
        first_index_of(s, c) is None ==> forall|j: int| 0 <= j < s.len() ==> s[j] != c,
    decreases s.len(),
{
    if s.len() > 0 && s[0] != c {
        lemma_first_index_of_props(s.drop_first(), c);
        assert forall|j: int| 1 <= j < s.len() implies s[j] == s.drop_first()[j - 1] by {}
    }
}

/// No occurrence at all.
pub proof fn lemma_first_index_of_none(s: Seq<char>, c: char)
    requires
        forall|j: int| 0 <= j < s.len() ==> s[j] != c,
    ensures
        first_index_of(s, c) is None,
    decreases s.len(),
{
    if s.len() > 0 {
        lemma_first_index_of_none(s.drop_first(), c);
    }
}

/// The characters of `s`, in order.
pub fn chars_of(s: &str) -> (v: Vec<char>)
    ensures
        v@ == s@,
{
    let mut v: Vec<char> = Vec::new();
    for c in it: s.chars()
        invariant
            v@ == it.seq().take(it.index() as int),
            it.seq() == s@,
    {
        v.push(c);
    }
    v
}

/// Appends one character (`String::push`).
#[verifier::external_body]
pub(crate) fn push_char(s: &mut String, c: char)
    ensures
        final(s)@ == old(s)@.push(c),
{
    s.push(c);
}

/// A `String` holding the window `[lo, hi)` of `v`.
pub fn string_from(v: &Vec<char>, lo: usize, hi: usize) -> (s: String)
    requires
        lo <= hi <= v@.len(),
    ensures
        s@ == v@.subrange(lo as int, hi as int),
{
    let mut s = String::new();
    let mut i = lo;
    while i < hi
        invariant
            lo <= i <= hi <= v@.len(),
            s@ == v@.subrange(lo as int, i as int),
        decreases hi - i,
    {
        push_char(&mut s, v[i]);
        assert(v@.subrange(lo as int, i + 1) == v@.subrange(lo as int, i as int).push(v@[i as int]));
        i += 1;
    }
    s
}

/// Appends the characters of `t` to `s`.
pub fn push_str(s: &mut String, t: &str)
    ensures
        final(s)@ == old(s)@ + t@,
{
    let v = chars_of(t);
    let mut i: usize = 0;
    while i < v.len()
        invariant
            0 <= i <= v@.len(),
            v@ == t@,
            s@ == old(s)@ + v@.subrange(0, i as int),
        decreases v@.len() - i,
    {
        push_char(s, v[i]);
        assert(v@.subrange(0, i + 1) == v@.subrange(0, i as int).push(v@[i as int]));
        i += 1;
    }
    assert(v@.subrange(0, v@.len() as int) == v@);
}

/// An owned copy of `s`.
pub fn owned(s: &str) -> (r: String)
    ensures
        r@ == s@,
{
    s.to_owned()
}

/// Whether `c` is whitespace (`char::is_whitespace`).
pub fn is_whitespace(c: char) -> (b: bool)
    ensures
        b == is_ws(c),
{
    let u = c as u32;
    (0x09 <= u && u <= 0x0D) || u == 0x20 || u == 0x85 || u == 0xA0 || u == 0x1680 || (0x2000
        <= u && u <= 0x200A) || u == 0x2028 || u == 0x2029 || u == 0x202F || u == 0x205F || u
        == 0x3000
}

/// Window of `[lo, hi)` left after dropping leading whitespace.
pub fn trim_start_range(v: &Vec<char>, lo: usize, hi: usize) -> (r: usize)
    requires
        lo <= hi <= v@.len(),
    ensures
        lo <= r <= hi,
        v@.subrange(r as int, hi as int) == trim_start(v@.subrange(lo as int, hi as int)),
{
    let mut i = lo;
    while i < hi && is_whitespace(v[i])
        invariant
            lo <= i <= hi <= v@.len(),
            trim_start(v@.subrange(i as int, hi as int)) == trim_start(
                v@.subrange(lo as int, hi as int),
            ),
        decreases hi - i,
    {
        assert(v@.subrange(i as int, hi as int).drop_first() == v@.subrange(i + 1, hi as int));
        i += 1;
    }
    i
}

/// Window of `[lo, hi)` left after dropping trailing whitespace.
pub fn trim_end_range(v: &Vec<char>, lo: usize, hi: usize) -> (r: usize)
    requires
        lo <= hi <= v@.len(),
    ensures
        lo <= r <= hi,
        v@.subrange(lo as int, r as int) == trim_end(v@.subrange(lo as int, hi as int)),
{
    let mut j = hi;
    while j > lo && is_whitespace(v[j - 1])
        invariant
            lo <= j <= hi <= v@.len(),
            trim_end(v@.subrange(lo as int, j as int)) == trim_end(
                v@.subrange(lo as int, hi as int),
            ),
        decreases j - lo,
    {
        assert(v@.subrange(lo as int, j as int).drop_last() == v@.subrange(lo as int, j - 1));
        j -= 1;
    }
    j
}

/// Window of `[lo, hi)` left after trimming both ends.
pub fn trim_range(v: &Vec<char>, lo: usize, hi: usize) -> (r: (usize, usize))
    requires
        lo <= hi <= v@.len(),
    ensures
        lo <= r.0 <= r.1 <= hi,
        v@.subrange(r.0 as int, r.1 as int) == trim(v@.subrange(lo as int, hi as int)),
{
    let a = trim_start_range(v, lo, hi);
    let b = trim_end_range(v, a, hi);
    (a, b)
}

/// First index in `[lo, hi)` holding `c`, if any.
pub fn find_char(v: &Vec<char>, lo: usize, hi: usize, c: char) -> (r: Option<usize>)
    requires
        lo <= hi <= v@.len(),
    ensures
        match r {
            Some(p) => lo <= p < hi && first_index_of(v@.subrange(lo as int, hi as int), c) == Some(
                p - lo,
            ),
            None => first_index_of(v@.subrange(lo as int, hi as int), c) is None,
        },
{
    let mut i = lo;
    while i < hi
        invariant
            lo <= i <= hi <= v@.len(),
            forall|k: int| lo <= k < i ==> v@[k] != c,
        decreases hi - i,
    {
        if v[i] == c {
            proof {
                lemma_first_index_of(v@.subrange(lo as int, hi as int), c, i - lo);
            }
            return Some(i);
        }
        i += 1;
    }
    proof {
        lemma_first_index_of_none(v@.subrange(lo as int, hi as int), c);
    }
    None
}

/// ASCII lower-casing of one character.
pub fn to_ascii_lower(c: char) -> (r: char)
    ensures
        r == ascii_lower(c),
{
    if 'A' <= c && c <= 'Z' {
        let u = (c as u32) + 32;
        proof {
            assert(0x61 <= u <= 0x7A);
        }
        char_from_ascii(u)
    } else {
        c
    }
}

/// The character with an ASCII code point.
fn char_from_ascii(u: u32) -> (c: char)
    requires
        u < 0x80,
    ensures
        c as u32 == u,
{
    (u as u8) as char
}

/// Whether window `[lo, hi)` of `v` equals `t` up to ASCII case.
pub fn range_eq_ignore_ascii_case(v: &Vec<char>, lo: usize, hi: usize, t: &Vec<char>) -> (b: bool)
    requires
        lo <= hi <= v@.len(),
    ensures
        b == eq_ignore_ascii_case(v@.subrange(lo as int, hi as int), t@),
{
    if hi - lo != t.len() {
        return false;
    }
    let mut i: usize = 0;
    while i < t.len()
        invariant
            hi - lo == t@.len(),
            lo <= hi <= v@.len(),
            0 <= i <= t@.len(),
            forall|k: int| 0 <= k < i ==> ascii_lower(v@[lo + k]) == ascii_lower(t@[k]),
        decreases t@.len() - i,
    {
        if to_ascii_lower(v[lo + i]) != to_ascii_lower(t[i]) {
            assert(ascii_lower(v@.subrange(lo as int, hi as int)[i as int]) != ascii_lower(t@[i as int]));
            return false;
        }
        i += 1;
    }
    true
}

/// Whether window `[lo, hi)` of `v` equals `t` exactly.
pub fn range_eq(v: &Vec<char>, lo: usize, hi: usize, t: &Vec<char>) -> (b: bool)
    requires
        lo <= hi <= v@.len(),
    ensures
        b == (v@.subrange(lo as int, hi as int) == t@),
{
    if hi - lo != t.len() {
        return false;
    }
    let mut i: usize = 0;
    while i < t.len()
        invariant
            hi - lo == t@.len(),
            lo <= hi <= v@.len(),
            0 <= i <= t@.len(),
            forall|k: int| 0 <= k < i ==> v@[lo + k] == t@[k],
        decreases t@.len() - i,
    {
        if v[lo + i] != t[i] {
            assert(v@.subrange(lo as int, hi as int)[i as int] != t@[i as int]);
            return false;
        }
        i += 1;
    }
    assert(v@.subrange(lo as int, hi as int) =~= t@);
    true
}

} // verus!

verus! {

/// Length of the leading run of non-whitespace characters.
pub open spec fn word_len(s: Seq<char>) -> int
    decreases s.len(),
{
    if s.len() == 0 || is_ws(s[0]) {
        0
    } else {
        1 + word_len(s.drop_first())
    }
}

/// `word_len` stays within the sequence and stops at whitespace.
pub proof fn lemma_word_len(s: Seq<char>)
    ensures
        0 <= word_len(s) <= s.len(),
        forall|j: int| 0 <= j < word_len(s) ==> !is_ws(#[trigger] s[j]),
        word_len(s) < s.len() ==> is_ws(s[word_len(s)]),
        s.len() > 0 && !is_ws(s[0]) ==> word_len(s) >= 1,
    decreases s.len(),
{
    if s.len() > 0 && !is_ws(s[0]) {
        lemma_word_len(s.drop_first());
        assert forall|j: int| 0 < j < word_len(s) implies !is_ws(#[trigger] s[j]) by {
            assert(s[j] == s.drop_first()[j - 1]);
        }
    }
}

/// The whitespace-separated words of `s` (`str::split_whitespace`).
pub open spec fn split_ws(s: Seq<char>) -> Seq<Seq<char>>
    decreases s.len(),
{
    let t = trim_start(s);
    if t.len() == 0 {
        Seq::empty()
    } else {
        proof {
            lemma_trim_start_suffix(s);
            lemma_word_len(t);
        }
        let k = word_len(t);
        seq![t.take(k)] + split_ws(t.skip(k))
    }
}

/// The pieces of `s` between occurrences of `c` (`str::split` on a char).
pub open spec fn split_on(s: Seq<char>, c: char) -> Seq<Seq<char>>
    decreases s.len(),
{
    match first_index_of(s, c) {
        None => seq![s],
        Some(p) => {
            proof {
                lemma_first_index_of_props(s, c);
            }
            seq![s.take(p)] + split_on(s.skip(p + 1), c)
        },
    }
}

/// `s` joined with `sep` between consecutive items.
pub open spec fn join_with(items: Seq<Seq<char>>, sep: Seq<char>) -> Seq<char>
    decreases items.len(),
{
    if items.len() == 0 {
        Seq::empty()
    } else if items.len() == 1 {
        items[0]
    } else {
        join_with(items.drop_last(), sep) + sep + items.last()
    }
}

/// Index just past the word starting at `i` in window `[i, hi)`.
fn word_end(v: &Vec<char>, i: usize, hi: usize) -> (r: usize)
    requires
        i <= hi <= v@.len(),
    ensures
        i <= r <= hi,
        r - i == word_len(v@.subrange(i as int, hi as int)),
{
    let mut j = i;
    while j < hi && !is_whitespace(v[j])
        invariant
            i <= j <= hi <= v@.len(),
            word_len(v@.subrange(i as int, hi as int)) == (j - i) + word_len(
                v@.subrange(j as int, hi as int),
            ),
        decreases hi - j,
    {
        assert(v@.subrange(j as int, hi as int).drop_first() =~= v@.subrange(j + 1, hi as int));
        j += 1;
    }
    j
}

/// Appends the whitespace-separated words of `s` to `out`.
pub fn push_words(s: &String, out: &mut Vec<String>)
    ensures
        final(out).deep_view() == old(out).deep_view() + split_ws(s@),
{
    let v = chars_of(s.as_str());
    let n = v.len();
    let mut i: usize = 0;
    assert(v@.subrange(0, n as int) =~= s@);
    while i < n
        invariant
            i <= n == v@.len(),
            v@ == s@,
            old(out).deep_view() + split_ws(s@) == out.deep_view() + split_ws(
                v@.subrange(i as int, n as int),
            ),
        decreases n - i,
    {
        let ghost r = v@.subrange(i as int, n as int);
        let a = trim_start_range(&v, i, n);
        if a == n {
            assert(trim_start(r).len() == 0);
            assert(split_ws(v@.subrange(n as int, n as int)) =~= Seq::<Seq<char>>::empty());
            i = n;
            continue;
        }
        let b = word_end(&v, a, n);
        proof {
            lemma_trim_start_suffix(r);
            lemma_word_len(v@.subrange(a as int, n as int));
            assert(v@.subrange(a as int, n as int).take(b - a) =~= v@.subrange(a as int, b as int));
            assert(v@.subrange(a as int, n as int).skip(b - a) =~= v@.subrange(b as int, n as int));
        }
        let ghost before = out.deep_view();
        out.push(string_from(&v, a, b));
        proof {
            assert(out.deep_view() =~= before.push(v@.subrange(a as int, b as int)));
            assert(split_ws(r) == seq![v@.subrange(a as int, b as int)] + split_ws(
                v@.subrange(b as int, n as int),
            ));
            assert(before + (seq![v@.subrange(a as int, b as int)] + split_ws(
                v@.subrange(b as int, n as int),
            )) =~= out.deep_view() + split_ws(v@.subrange(b as int, n as int)));
        }
        i = b;
    }
    proof {
        assert(split_ws(v@.subrange(n as int, n as int)) =~= Seq::<Seq<char>>::empty());
        assert(out.deep_view() + Seq::<Seq<char>>::empty() =~= out.deep_view());
    }
}

/// Whether two strings are equal.
pub fn str_eq(a: &str, b: &str) -> (r: bool)
    ensures
        r == (a@ == b@),
{
    let va = chars_of(a);
    let vb = chars_of(b);
    assert(va@.subrange(0, va@.len() as int) =~= va@);
    range_eq(&va, 0, va.len(), &vb)
}

} // verus!

verus! {

/// Joining with one more item in front.
pub proof fn lemma_join_front(x: Seq<char>, ys: Seq<Seq<char>>, sep: Seq<char>)
    requires
        ys.len() > 0,
    ensures
        join_with(seq![x] + ys, sep) == x + sep + join_with(ys, sep),
    decreases ys.len(),
{
    let zs = seq![x] + ys;
    if ys.len() == 1 {
        assert(zs.drop_last() =~= seq![x]);
        assert(zs.last() == ys[0]);
        assert(join_with(seq![x], sep) == x);
        assert(join_with(ys, sep) == ys[0]);
        assert(join_with(zs, sep) == join_with(zs.drop_last(), sep) + sep + zs.last());
    } else {
        assert(zs.drop_last() =~= seq![x] + ys.drop_last());
        lemma_join_front(x, ys.drop_last(), sep);
        assert(zs.last() == ys.last());
        assert(join_with(zs, sep) == join_with(zs.drop_last(), sep) + sep + zs.last());
        assert(join_with(ys, sep) == join_with(ys.drop_last(), sep) + sep + ys.last());
        assert(join_with(zs, sep) =~= x + sep + join_with(ys, sep));
    }
}

/// `join_with` of one more item.
pub proof fn lemma_join_push(items: Seq<Seq<char>>, sep: Seq<char>, x: Seq<char>)
    ensures
        join_with(items.push(x), sep) == if items.len() == 0 {
            x
        } else {
            join_with(items, sep) + sep + x
        },
{
    assert(items.push(x).drop_last() =~= items);
}

/// Appends `sep` (unless `first`) and then `item` to `out`, the running join.
pub fn push_joined(out: &mut String, first: bool, sep: &str, item: &str)
    ensures
        final(out)@ == if first {
            old(out)@ + item@
        } else {
            old(out)@ + sep@ + item@
        },
{
    if !first {
        push_str(out, sep);
    }
    push_str(out, item);
}

/// Joins string slices with `sep` (`[&str]::join`).
pub fn join_strs(items: &[&str], sep: &str) -> (r: String)
    ensures
        r@ == join_with(items@.map_values(|s: &str| s@), sep@),
{
    let ghost views = items@.map_values(|s: &str| s@);
    let mut out = String::new();
    let mut i: usize = 0;
    while i < items.len()
        invariant
            0 <= i <= items@.len(),
            views == items@.map_values(|s: &str| s@),
            out@ == join_with(views.take(i as int), sep@),
        decreases items@.len() - i,
    {
        proof {
            lemma_join_push(views.take(i as int), sep@, items@[i as int]@);
            assert(views.take(i + 1) =~= views.take(i as int).push(items@[i as int]@));
        }
        push_joined(&mut out, i == 0, sep, items[i]);
        proof {
            if i == 0 {
                assert(out@ =~= items@[0]@);
            }
        }
        i += 1;
    }
    assert(views.take(i as int) =~= views);
    out
}

} // verus!

verus! {

/// The pieces of `s` between occurrences of `c` (`str::split` on a char).
pub fn split_char(s: &str, c: char) -> (r: Vec<&str>)
    ensures
        r@.map_values(|x: &str| x@) == split_on(s@, c),
{
    let v = chars_of(s);
    let n = v.len();
    let ghost segs = split_on(s@, c);
    let mut out: Vec<&str> = Vec::new();
    let mut lo: usize = 0;
    assert(v@.subrange(0, n as int) =~= v@);
    loop
        invariant_except_break
            segs == out@.map_values(|x: &str| x@) + split_on(v@.subrange(lo as int, n as int), c),
        invariant
            lo <= n == v@.len(),
            v@ == s@,
            segs == split_on(s@, c),
        ensures
            segs == out@.map_values(|x: &str| x@),
        decreases n - lo,
    {
        let ghost rest = v@.subrange(lo as int, n as int);
        let ghost before = out@.map_values(|x: &str| x@);
        let (end, last) = match find_char(&v, lo, n, c) {
            Some(e) => (e, false),
            None => (n, true),
        };
        proof {
            if !last {
                assert(rest.take(end - lo) =~= v@.subrange(lo as int, end as int));
                assert(rest.skip(end - lo + 1) =~= v@.subrange(end + 1, n as int));
            }
        }
        let piece = s.substring_char(lo, end);
        out.push(piece);
        assert(out@.map_values(|x: &str| x@) =~= before.push(piece@));
        if last {
            proof {
                assert(split_on(rest, c) =~= seq![v@.subrange(lo as int, end as int)]);
                assert(segs =~= out@.map_values(|x: &str| x@));
            }
            break;
        }
        proof {
            assert(segs =~= out@.map_values(|x: &str| x@) + split_on(
                v@.subrange(end + 1, n as int),
                c,
            ));
        }
        lo = end + 1;
    }
    out
}

/// Whether `s` starts with `p`.
pub open spec fn starts_with(s: Seq<char>, p: Seq<char>) -> bool {
    s.len() >= p.len() && s.take(p.len() as int) == p
}

/// Whether `s` starts with `p` (`str::starts_with`).
pub fn str_starts_with(s: &str, p: &str) -> (b: bool)
    ensures
        b == starts_with(s@, p@),
{
    let vs = chars_of(s);
    let vp = chars_of(p);
    if vs.len() < vp.len() {
        return false;
    }
    let b = range_eq(&vs, 0, vp.len(), &vp);
    assert(vs@.subrange(0, vp@.len() as int) =~= s@.take(p@.len() as int));
    b
}

/// Whether `needle` occurs in `hay` as a contiguous piece.
pub open spec fn contains_text(hay: Seq<char>, needle: Seq<char>) -> bool {
    exists|p: int| 0 <= p && p + needle.len() <= hay.len() && #[trigger] hay.subrange(p, p + needle.len()) == needle
}

/// An occurrence in a prefix is one in the whole text.
pub proof fn lemma_contains_text_extend(a: Seq<char>, b: Seq<char>, needle: Seq<char>)
    ensures
        contains_text(a, needle) ==> contains_text(a + b, needle),
        contains_text(b, needle) ==> contains_text(a + b, needle),
{
    if contains_text(a, needle) {
        let p = choose|p: int| 0 <= p && p + needle.len() <= a.len() && #[trigger] a.subrange(p, p + needle.len()) == needle;
        assert((a + b).subrange(p, p + needle.len()) =~= a.subrange(p, p + needle.len()));
    }
    if contains_text(b, needle) {
        let p = choose|p: int| 0 <= p && p + needle.len() <= b.len() && #[trigger] b.subrange(p, p + needle.len()) == needle;
        assert((a + b).subrange(a.len() + p, a.len() + p + needle.len()) =~= b.subrange(p, p + needle.len()));
    }
}

/// Each item occurs in the items joined by a separator.
pub proof fn lemma_join_contains(items: Seq<Seq<char>>, sep: Seq<char>, i: int)
    requires
        0 <= i < items.len(),
    ensures
        contains_text(join_with(items, sep), items[i]),
    decreases items.len(),
{
    if items.len() == 1 {
        assert(join_with(items, sep) == items[0]);
        assert(items[0].subrange(0int, 0int + items[0].len()) =~= items[0]);
        assert(contains_text(items[0], items[0]));
    } else {
        let d = items.drop_last();
        if i < items.len() - 1 {
            lemma_join_contains(d, sep, i);
            assert(d[i] == items[i]);
            lemma_contains_text_extend(join_with(d, sep), sep, items[i]);
            lemma_contains_text_extend(join_with(d, sep) + sep, items.last(), items[i]);
            assert(join_with(items, sep) == join_with(d, sep) + sep + items.last());
        } else {
            let t = items.last();
            assert(t.subrange(0int, 0int + t.len()) =~= t);
            assert(contains_text(t, t));
            lemma_contains_text_extend(join_with(d, sep) + sep, t, t);
            assert(join_with(items, sep) == join_with(d, sep) + sep + t);
        }
    }
}

} // verus!
