//! Member-name validation per JSON:API 1.1.
//!
//! [`validate_member_name()`] checks that a string conforms to the JSON:API 1.1
//! member-name rules: allowed characters (including the non-ASCII range
//! U+0080..=U+FFFF), `@`-member syntax (`@namespace:member`), extension
//! members (`namespace:member`) and start/end character restrictions.
use crate::error::Error;
use crate::text::{
    chars_of, find_char, first_index_of, lemma_first_index_of, lemma_first_index_of_none, owned,
    string_from,
};
use vstd::prelude::*;

verus! {

/// The kind of member name per JSON:API 1.1.
#[non_exhaustive]
#[derive(Debug, Clone, PartialEq, Eq)]
pub enum MemberNameKind {
    /// Standard member name (e.g. "title", "first-name").
    Standard,
    /// @-member: `@namespace:member` (e.g. `"@ext:comments"`).
    AtMember {
        /// The extension namespace (e.g. `"ext"` in `@ext:comments`).
        namespace: String,
        /// The member name after the colon.
        member: String,
    },
    /// Extension-namespaced member: `namespace:member` (e.g. `"atomic:operations"`).
    ///
    /// Validation checks syntax only, not whether the extension is active.
    ExtensionMember {
        /// The extension namespace (e.g. `"atomic"`).
        namespace: String,
        /// The member name after the colon.
        member: String,
    },
}

/// The mathematical value of a [`MemberNameKind`].
pub enum MemberNameClass {
    /// A standard member name.
    Standard,
    /// `@namespace:member`.
    AtMember { namespace: Seq<char>, member: Seq<char> },
    /// `namespace:member`.
    ExtensionMember { namespace: Seq<char>, member: Seq<char> },
}

impl View for MemberNameKind {
    type V = MemberNameClass;

    open spec fn view(&self) -> MemberNameClass {
        match self {
            MemberNameKind::Standard => MemberNameClass::Standard,
            MemberNameKind::AtMember { namespace, member } => MemberNameClass::AtMember {
                namespace: namespace@,
                member: member@,
            },
            MemberNameKind::ExtensionMember { namespace, member } =>
                MemberNameClass::ExtensionMember { namespace: namespace@, member: member@ },
        }
    }
}

/// Globally allowed characters: `a-z`, `A-Z`, `0-9` and U+0080..=U+FFFF.
pub open spec fn is_globally_allowed(c: char) -> bool {
    ('a' <= c && c <= 'z') || ('A' <= c && c <= 'Z') || ('0' <= c && c <= '9') || (0x80 <= (
    c as u32) && (c as u32) <= 0xFFFF)
}

/// Characters allowed strictly inside a name: the global ones plus `-`, `_` and space.
pub open spec fn is_inner_allowed(c: char) -> bool {
    is_globally_allowed(c) || c == '-' || c == '_' || c == ' '
}

/// A plain member name: non-empty, globally allowed first and last
/// characters, inner characters drawn from the wider set.
pub open spec fn is_plain_name(s: Seq<char>) -> bool {
    &&& s.len() >= 1
    &&& is_globally_allowed(s[0])
    &&& is_globally_allowed(s[s.len() - 1])
    &&& forall|i: int| 0 < i < s.len() - 1 ==> is_inner_allowed(#[trigger] s[i])
}

/// Splits `s` at its first `:` into two plain names, if it can.
pub open spec fn split_namespaced(s: Seq<char>) -> Option<(Seq<char>, Seq<char>)> {
    match first_index_of(s, ':') {
        Some(p) => {
            let ns = s.take(p);
            let m = s.skip(p + 1);
            if is_plain_name(ns) && is_plain_name(m) {
                Some((ns, m))
            } else {
                None
            }
        },
        None => None,
    }
}

/// The classification of a member name, `None` when it is invalid.
pub open spec fn member_name_class(s: Seq<char>) -> Option<MemberNameClass> {
    if s.len() > 0 && s[0] == '@' {
        match split_namespaced(s.drop_first()) {
            Some((ns, m)) => Some(MemberNameClass::AtMember { namespace: ns, member: m }),
            None => None,
        }
    } else if first_index_of(s, ':') is Some {
        match split_namespaced(s) {
            Some((ns, m)) => Some(MemberNameClass::ExtensionMember { namespace: ns, member: m }),
            None => None,
        }
    } else if is_plain_name(s) {
        Some(MemberNameClass::Standard)
    } else {
        None
    }
}

fn globally_allowed(c: char) -> (b: bool)
    ensures
        b == is_globally_allowed(c),
{
    ('a' <= c && c <= 'z') || ('A' <= c && c <= 'Z') || ('0' <= c && c <= '9') || (0x80 <= (
    c as u32) && (c as u32) <= 0xFFFF)
}

fn inner_allowed(c: char) -> (b: bool)
    ensures
        b == is_inner_allowed(c),
{
    globally_allowed(c) || c == '-' || c == '_' || c == ' '
}

/// Whether window `[lo, hi)` of `v` is a plain member name.
fn plain_name(v: &Vec<char>, lo: usize, hi: usize) -> (b: bool)
    requires
        lo <= hi <= v@.len(),
    ensures
        b == is_plain_name(v@.subrange(lo as int, hi as int)),
{
    let ghost s = v@.subrange(lo as int, hi as int);
    if lo == hi {
        return false;
    }
    if !globally_allowed(v[lo]) || !globally_allowed(v[hi - 1]) {
        assert(s[0] == v@[lo as int]);
        assert(s[s.len() - 1] == v@[hi - 1]);
        return false;
    }
    let mut i = lo + 1;
    while i < hi - 1
        invariant
            lo < i <= hi,
            hi <= v@.len(),
            s == v@.subrange(lo as int, hi as int),
            forall|k: int| 0 < k < i - lo ==> is_inner_allowed(#[trigger] s[k]),
        decreases hi - i,
    {
        if !inner_allowed(v[i]) {
            assert(s[i - lo] == v@[i as int]);
            return false;
        }
        i += 1;
    }
    assert(s[0] == v@[lo as int]);
    assert(s[s.len() - 1] == v@[hi - 1]);
    true
}

/// Classifies window `[lo, hi)` as `namespace:member`, returning the split point.
fn namespaced(v: &Vec<char>, lo: usize, hi: usize) -> (r: Option<usize>)
    requires
        lo <= hi <= v@.len(),
    ensures
        match r {
            Some(p) => lo <= p < hi && split_namespaced(v@.subrange(lo as int, hi as int)) == Some(
                (v@.subrange(lo as int, p as int), v@.subrange(p + 1, hi as int)),
            ),
            None => split_namespaced(v@.subrange(lo as int, hi as int)) is None,
        },
{
    let ghost s = v@.subrange(lo as int, hi as int);
    match find_char(v, lo, hi, ':') {
        Some(p) => {
            assert(s.take(p - lo) == v@.subrange(lo as int, p as int));
            assert(s.skip(p - lo + 1) == v@.subrange(p + 1, hi as int));
            if plain_name(v, lo, p) && plain_name(v, p + 1, hi) {
                Some(p)
            } else {
                None
            }
        },
        None => None,
    }
}

/// The reason given for an invalid member name, by the form it has: an
/// @-member, an extension member (it holds a `:`), or a plain name.
pub open spec fn member_name_reason(name: Seq<char>) -> Seq<char> {
    if name.len() > 0 && name[0] == '@' {
        "an @-member must be `@namespace:member` with valid names"@
    } else if name.contains(':') {
        "an extension member must be `namespace:member` with valid names"@
    } else {
        "member names must be non-empty, use only allowed characters, and start and end with a globally allowed character"@
    }
}

/// Validate a member name per JSON:API 1.1 rules.
///
/// Returns the name's kind when it is valid, and
/// [`Error::InvalidMemberName`] carrying the name otherwise.
pub fn validate_member_name(name: &str) -> (r: crate::error::Result<MemberNameKind>)
    ensures
        match r {
            Ok(kind) => member_name_class(name@) == Some(kind@),
            Err(e) => member_name_class(name@) is None && (e matches Error::InvalidMemberName {
                name: n,
                reason,
            } && n@ == name@ && reason@ == member_name_reason(name@)),
        },
{
    let v = chars_of(name);
    let n = v.len();
    if n > 0 && v[0] == '@' {
        assert(v@.subrange(1, n as int) == name@.drop_first());
        match namespaced(&v, 1, n) {
            Some(p) => Ok(
                MemberNameKind::AtMember {
                    namespace: string_from(&v, 1, p),
                    member: string_from(&v, p + 1, n),
                },
            ),
            None => Err(invalid(name, "an @-member must be `@namespace:member` with valid names")),
        }
    } else {
        assert(v@.subrange(0, n as int) == name@);
        let colon = find_char(&v, 0, n, ':');
        proof {
            crate::text::lemma_first_index_of_props(name@, ':');
            if let Some(q) = first_index_of(name@, ':') {
                assert(name@[q] == ':');
                assert(name@.contains(':'));
            } else {
                assert(!name@.contains(':'));
            }
        }
        match colon {
            Some(_) => match namespaced(&v, 0, n) {
                Some(p) => Ok(
                    MemberNameKind::ExtensionMember {
                        namespace: string_from(&v, 0, p),
                        member: string_from(&v, p + 1, n),
                    },
                ),
                None => Err(
                    invalid(name, "an extension member must be `namespace:member` with valid names"),
                ),
            },
            None => {
                if plain_name(&v, 0, n) {
                    Ok(MemberNameKind::Standard)
                } else {
                    Err(
                        invalid(
                            name,
                            "member names must be non-empty, use only allowed characters, and start and end with a globally allowed character",
                        ),
                    )
                }
            },
        }
    }
}

fn invalid(name: &str, reason: &str) -> (e: Error)
    ensures
        e matches Error::InvalidMemberName { name: n, reason: m } && n@ == name@ && m@ == reason@,
{
    Error::InvalidMemberName { name: owned(name), reason: owned(reason) }
}

/// An ASCII letter, of either case, or an ASCII digit.
pub open spec fn is_ascii_alnum(c: char) -> bool {
    ('a' <= c && c <= 'z') || ('A' <= c && c <= 'Z') || ('0' <= c && c <= '9')
}

/// Non-empty text made only of ASCII letters (either case) and digits.
pub open spec fn alnum_word(s: Seq<char>) -> bool {
    s.len() > 0 && forall|i: int| 0 <= i < s.len() ==> is_ascii_alnum(#[trigger] s[i])
}

/// Such a word is a plain member name, and holds no `:` nor `@`.
proof fn lemma_alnum_plain(s: Seq<char>)
    requires
        alnum_word(s),
    ensures
        is_plain_name(s),
        first_index_of(s, ':') is None,
        s[0] != '@',
{
    assert(is_ascii_alnum(s[0]));
    assert(is_ascii_alnum(s[s.len() - 1]));
    assert forall|j: int| 0 <= j < s.len() implies s[j] != ':' by {
        assert(is_ascii_alnum(s[j]));
    }
    lemma_first_index_of_none(s, ':');
    assert forall|i: int| 0 < i < s.len() - 1 implies is_inner_allowed(#[trigger] s[i]) by {
        assert(is_ascii_alnum(s[i]));
    }
}

/// Every non-empty name of ASCII letters of either case and digits (such
/// as `title`, `firstName`, `PublishedAt`, `field1`) is a valid standard
/// member name.
pub proof fn lemma_alnum_names_are_standard(s: Seq<char>)
    requires
        alnum_word(s),
    ensures
        member_name_class(s) == Some(MemberNameClass::Standard),
{
    lemma_alnum_plain(s);
}

/// `namespace:member`, and `@namespace:member`, with both parts such words
/// (e.g. `atomic:operations`, `@ext:Comments`), are valid extension and
/// @-members with those parts.
pub proof fn lemma_alnum_namespaced_members(ns: Seq<char>, m: Seq<char>)
    requires
        alnum_word(ns),
        alnum_word(m),
    ensures
        member_name_class(ns + seq![':'] + m) == Some(
            MemberNameClass::ExtensionMember { namespace: ns, member: m },
        ),
        member_name_class(seq!['@'] + ns + seq![':'] + m) == Some(
            MemberNameClass::AtMember { namespace: ns, member: m },
        ),
{
    lemma_alnum_plain(ns);
    lemma_alnum_plain(m);
    let s = ns + seq![':'] + m;
    assert forall|j: int| 0 <= j < ns.len() implies s[j] != ':' by {
        assert(s[j] == ns[j]);
        assert(is_ascii_alnum(ns[j]));
    }
    lemma_first_index_of(s, ':', ns.len() as int);
    assert(s.take(ns.len() as int) =~= ns);
    assert(s.skip(ns.len() as int + 1) =~= m);
    assert(s[0] == ns[0]);
    let a = seq!['@'] + ns + seq![':'] + m;
    assert(a.drop_first() =~= s);
}

} // verus!
