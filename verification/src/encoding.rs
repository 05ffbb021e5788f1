//! RFC 3986 percent-encoding of UTF-8 text, and its decoding.
//!
//! The encoded form of a byte comes from `percent_encoding::percent_encode_byte`;
//! which bytes get encoded is decided here, per the set the caller names.
use vstd::prelude::*;
use vstd::utf8::{
    decode_utf8, encode_utf8, encode_utf8_decode_utf8, encode_utf8_valid_utf8, is_ascii_chars,
    is_ascii_chars_encode_utf8, valid_utf8,
};

verus! {

/// The upper-case hexadecimal digit of `d` (`d < 16`).
pub open spec fn hex_upper(d: u8) -> char {
    if d < 10 {
        ((('0' as u8) + d) as u8) as char
    } else {
        ((('A' as u8) + d - 10) as u8) as char
    }
}

/// `%` followed by the two upper-case hexadecimal digits of `b`.
pub open spec fn pct_triplet(b: u8) -> Seq<char> {
    seq!['%', hex_upper(b / 16), hex_upper(b % 16)]
}

/// `percent_encoding::percent_encode_byte`: the `%XX` form of a byte, with
/// upper-case hexadecimal digits (the crate reads it from a fixed table).
#[verifier::external_body]
fn encode_byte(b: u8) -> (r: &'static str)
    ensures
        r@ == pct_triplet(b),
{
    percent_encoding::percent_encode_byte(b)
}

/// Which ASCII bytes a caller wants encoded (non-ASCII bytes always are).
#[derive(Debug, Clone, Copy, PartialEq, Eq, Structural)]
pub enum EncodeSet {
    /// Everything but the RFC 3986 unreserved characters `A-Z a-z 0-9 - _ . ~`.
    Unreserved,
    /// Controls and the characters that would break out of, or be ambiguous
    /// within, a URL path segment.
    PathSegment,
}

/// ASCII control characters (`percent_encoding::CONTROLS`).
pub open spec fn is_control(b: u8) -> bool {
    b < 0x20 || b == 0x7F
}

/// The ASCII bytes encoded in query values: controls and the printable
/// characters other than `A-Z a-z 0-9 - _ . ~`.
pub open spec fn in_unreserved_set(b: u8) -> bool {
    is_control(b) || b == 0x20 || b == 0x21 || b == 0x22 || b == 0x23 || b == 0x24 || b == 0x25
        || b == 0x26 || b == 0x27 || b == 0x28 || b == 0x29 || b == 0x2A || b == 0x2B || b == 0x2C
        || b == 0x2F || b == 0x3A || b == 0x3B || b == 0x3C || b == 0x3D || b == 0x3E || b == 0x3F
        || b == 0x40 || b == 0x5B || b == 0x5C || b == 0x5D || b == 0x5E || b == 0x60 || b == 0x7B
        || b == 0x7C || b == 0x7D
}

/// The ASCII bytes encoded in a path segment: controls, space, `"`, `#`,
/// `%`, `/`, `<`, `>`, `?`, `[`, `\`, `]`, `^`, `` ` ``, `{`, `|`, `}`.
pub open spec fn in_path_segment_set(b: u8) -> bool {
    is_control(b) || b == 0x20 || b == 0x22 || b == 0x23 || b == 0x25 || b == 0x2F || b == 0x3C
        || b == 0x3E || b == 0x3F || b == 0x5B || b == 0x5C || b == 0x5D || b == 0x5E || b == 0x60
        || b == 0x7B || b == 0x7C || b == 0x7D
}

/// Whether `b` is written as `%XX` under `set`.
pub open spec fn must_encode(set: EncodeSet, b: u8) -> bool {
    b >= 0x80 || match set {
        EncodeSet::Unreserved => in_unreserved_set(b),
        EncodeSet::PathSegment => in_path_segment_set(b),
    }
}

/// The text one byte becomes under `set`.
pub open spec fn encode_one(set: EncodeSet, b: u8) -> Seq<char> {
    if must_encode(set, b) {
        pct_triplet(b)
    } else {
        seq![b as char]
    }
}

/// The percent-encoding of a byte string under `set`
/// (`percent_encoding::percent_encode`).
pub open spec fn percent_encoded(set: EncodeSet, bytes: Seq<u8>) -> Seq<char>
    decreases bytes.len(),
{
    if bytes.len() == 0 {
        Seq::empty()
    } else {
        percent_encoded(set, bytes.drop_last()) + encode_one(set, bytes.last())
    }
}

fn must_encode_exec(set: EncodeSet, b: u8) -> (r: bool)
    ensures
        r == must_encode(set, b),
{
    let control = b < 0x20 || b == 0x7F;
    b >= 0x80 || match set {
        EncodeSet::Unreserved => control || b == 0x20 || b == 0x21 || b == 0x22 || b == 0x23 || b
            == 0x24 || b == 0x25 || b == 0x26 || b == 0x27 || b == 0x28 || b == 0x29 || b == 0x2A
            || b == 0x2B || b == 0x2C || b == 0x2F || b == 0x3A || b == 0x3B || b == 0x3C || b
            == 0x3D || b == 0x3E || b == 0x3F || b == 0x40 || b == 0x5B || b == 0x5C || b == 0x5D
            || b == 0x5E || b == 0x60 || b == 0x7B || b == 0x7C || b == 0x7D,
        EncodeSet::PathSegment => control || b == 0x20 || b == 0x22 || b == 0x23 || b == 0x25 || b
            == 0x2F || b == 0x3C || b == 0x3E || b == 0x3F || b == 0x5B || b == 0x5C || b == 0x5D
            || b == 0x5E || b == 0x60 || b == 0x7B || b == 0x7C || b == 0x7D,
    }
}

/// Percent-encode the UTF-8 encoding of `s` under `set`: bytes outside
/// ASCII or in the set become `%XX`, the others stay as they are.
pub fn percent_encode(s: &str, set: EncodeSet) -> (r: String)
    ensures
        r@ == percent_encoded(set, encode_utf8(s@)),
{
    let bytes = s.as_bytes();
    let mut out = String::new();
    let mut i: usize = 0;
    while i < bytes.len()
        invariant
            0 <= i <= bytes@.len(),
            bytes@ == encode_utf8(s@),
            out@ == percent_encoded(set, bytes@.take(i as int)),
        decreases bytes@.len() - i,
    {
        let b = bytes[i];
        assert(bytes@.take(i + 1).drop_last() =~= bytes@.take(i as int));
        if must_encode_exec(set, b) {
            crate::text::push_str(&mut out, encode_byte(b));
        } else {
            crate::text::push_char(&mut out, b as char);
        }
        assert(out@ =~= percent_encoded(set, bytes@.take(i + 1)));
        i += 1;
    }
    assert(bytes@.take(bytes@.len() as int) =~= bytes@);
    out
}

/// Whether byte `b` is an ASCII hexadecimal digit.
pub open spec fn is_hex_digit(b: u8) -> bool {
    (0x30 <= b && b <= 0x39) || (0x41 <= b && b <= 0x46) || (0x61 <= b && b <= 0x66)
}

/// The value of an ASCII hexadecimal digit.
pub open spec fn hex_value(b: u8) -> u8 {
    if b <= 0x39 {
        (b - 0x30) as u8
    } else if b <= 0x46 {
        (b - 0x41 + 10) as u8
    } else {
        (b - 0x61 + 10) as u8
    }
}

/// Percent-decoding of a byte string: `%` followed by two hexadecimal
/// digits becomes that byte; every other byte (a lone `%` too) stays.
pub open spec fn percent_decoded(b: Seq<u8>) -> Seq<u8>
    decreases b.len(),
{
    if b.len() == 0 {
        Seq::empty()
    } else if b[0] == 0x25 && b.len() >= 3 && is_hex_digit(b[1]) && is_hex_digit(b[2]) {
        seq![(hex_value(b[1]) * 16 + hex_value(b[2])) as u8] + percent_decoded(b.skip(3))
    } else {
        seq![b[0]] + percent_decoded(b.skip(1))
    }
}

/// `percent_encoding::percent_decode_str(s).decode_utf8()`: the decoded
/// bytes read as UTF-8; when they are not well-formed UTF-8, the error's
/// message instead. `+` is not treated as a space. What the message says is
/// `std::str::Utf8Error`'s `Display`, which is not stated here.
#[verifier::external_body]
pub(crate) fn percent_decode_utf8(s: &str) -> (r: core::result::Result<String, String>)
    ensures
        match r {
            Ok(t) => valid_utf8(percent_decoded(encode_utf8(s@))) && t@ == decode_utf8(
                percent_decoded(encode_utf8(s@)),
            ),
            Err(_) => !valid_utf8(percent_decoded(encode_utf8(s@))),
        },
{
    match percent_encoding::percent_decode_str(s).decode_utf8() {
        Ok(cow) => Ok(cow.into_owned()),
        Err(e) => Err(format!("{e}")),
    }
}


/// The byte values of ASCII text.
pub open spec fn ascii_bytes(cs: Seq<char>) -> Seq<u8> {
    cs.map_values(|c: char| c as u8)
}

/// A hexadecimal digit written upper-case reads back as its value.
proof fn lemma_hex_digit(d: u8)
    requires
        d < 16,
    ensures
        (hex_upper(d) as u8) == hex_upper(d) as u32,
        (hex_upper(d) as u32) < 0x80,
        is_hex_digit(hex_upper(d) as u8),
        hex_value(hex_upper(d) as u8) == d,
{
}

/// The text of one encoded byte is ASCII, and it decodes back to the byte
/// followed by whatever comes after it.
pub(crate) proof fn lemma_decode_one(set: EncodeSet, b: u8, rest: Seq<u8>)
    ensures
        is_ascii_chars(encode_one(set, b)),
        percent_decoded(ascii_bytes(encode_one(set, b)) + rest) == seq![b] + percent_decoded(rest),
{
    let bs = ascii_bytes(encode_one(set, b));
    let s = bs + rest;
    if must_encode(set, b) {
        lemma_hex_digit(b / 16);
        lemma_hex_digit(b % 16);
        assert(s[0] == 0x25u8);
        assert(s[1] == hex_upper(b / 16) as u8);
        assert(s[2] == hex_upper(b % 16) as u8);
        assert(s.skip(3) =~= rest);
        assert((hex_value(s[1]) * 16 + hex_value(s[2])) as u8 == b);
    } else {
        assert(b < 0x80);
        assert(b != 0x25);
        assert(s[0] == b);
        assert(s.skip(1) =~= rest);
    }
}

/// Percent-encoding one byte followed by more.
pub(crate) proof fn lemma_encoded_front(set: EncodeSet, b: u8, rest: Seq<u8>)
    ensures
        percent_encoded(set, seq![b] + rest) == encode_one(set, b) + percent_encoded(set, rest),
    decreases rest.len(),
{
    let bytes = seq![b] + rest;
    if rest.len() == 0 {
        assert(bytes.drop_last() =~= Seq::<u8>::empty());
        assert(percent_encoded(set, Seq::<u8>::empty()) =~= Seq::<char>::empty());
        assert(percent_encoded(set, bytes) =~= encode_one(set, b));
        assert(encode_one(set, b) + Seq::<char>::empty() =~= encode_one(set, b));
    } else {
        assert(bytes.drop_last() =~= seq![b] + rest.drop_last());
        lemma_encoded_front(set, b, rest.drop_last());
        assert(percent_encoded(set, bytes) =~= encode_one(set, b) + percent_encoded(set, rest));
    }
}

/// Percent-decoding undoes percent-encoding, whatever the set: the encoded
/// text is ASCII and its bytes decode to the bytes that were encoded.
pub proof fn lemma_percent_decode_encoded(set: EncodeSet, bytes: Seq<u8>)
    ensures
        is_ascii_chars(percent_encoded(set, bytes)),
        percent_decoded(ascii_bytes(percent_encoded(set, bytes))) == bytes,
    decreases bytes.len(),
{
    if bytes.len() == 0 {
        assert(ascii_bytes(Seq::<char>::empty()) =~= Seq::<u8>::empty());
    } else {
        let b = bytes[0];
        let rest = bytes.drop_first();
        assert(bytes =~= seq![b] + rest);
        lemma_encoded_front(set, b, rest);
        lemma_percent_decode_encoded(set, rest);
        lemma_decode_one(set, b, ascii_bytes(percent_encoded(set, rest)));
        let one = encode_one(set, b);
        let more = percent_encoded(set, rest);
        assert(ascii_bytes(one + more) =~= ascii_bytes(one) + ascii_bytes(more));
        assert forall|i: int| 0 <= i < (one + more).len() implies '\0' <= #[trigger] (one + more)[i]
            <= '\u{7f}' by {
            if i < one.len() {
                assert((one + more)[i] == one[i]);
            } else {
                assert((one + more)[i] == more[i - one.len()]);
            }
        }
    }
}

/// Decoding the percent-encoding of any text gives the text back: what
/// [`percent_decode_utf8`] returns for the output of [`percent_encode`] is
/// its input.
pub proof fn lemma_percent_round_trip(set: EncodeSet, s: Seq<char>)
    ensures
        valid_utf8(percent_decoded(encode_utf8(percent_encoded(set, encode_utf8(s))))),
        decode_utf8(percent_decoded(encode_utf8(percent_encoded(set, encode_utf8(s))))) == s,
{
    let bytes = encode_utf8(s);
    let text = percent_encoded(set, bytes);
    lemma_percent_decode_encoded(set, bytes);
    is_ascii_chars_encode_utf8(text);
    assert(encode_utf8(text) =~= ascii_bytes(text));
    encode_utf8_valid_utf8(s);
    encode_utf8_decode_utf8(s);
}

/// An RFC 3986 unreserved character: `A-Z a-z 0-9 - _ . ~`.
pub open spec fn is_unreserved_char(c: char) -> bool {
    ('A' <= c && c <= 'Z') || ('a' <= c && c <= 'z') || ('0' <= c && c <= '9') || c == '-' || c
        == '_' || c == '.' || c == '~'
}

/// Text made only of unreserved characters.
pub open spec fn unreserved_text(s: Seq<char>) -> bool {
    forall|i: int| 0 <= i < s.len() ==> is_unreserved_char(#[trigger] s[i])
}

/// Text of unreserved characters is its own encoding, under either set.
pub proof fn lemma_encode_unreserved(set: EncodeSet, s: Seq<char>)
    requires
        unreserved_text(s),
    ensures
        percent_encoded(set, encode_utf8(s)) == s,
{
    assert(is_ascii_chars(s)) by {
        assert forall|i: int| 0 <= i < s.len() implies '\0' <= #[trigger] s[i] <= '\u{7f}' by {
            assert(is_unreserved_char(s[i]));
        }
    }
    is_ascii_chars_encode_utf8(s);
    let b = encode_utf8(s);
    assert forall|n: int| 0 <= n <= s.len() implies percent_encoded(set, #[trigger] b.take(n)) == s.take(n) by {
        lemma_encode_unreserved_prefix(set, s, n);
    }
    assert(b.take(s.len() as int) =~= b);
    assert(s.take(s.len() as int) =~= s);
}

proof fn lemma_encode_unreserved_prefix(set: EncodeSet, s: Seq<char>, n: int)
    requires
        unreserved_text(s),
        is_ascii_chars(s),
        encode_utf8(s).len() == s.len(),
        forall|i: int| 0 <= i < s.len() ==> s[i] as u8 == #[trigger] encode_utf8(s)[i],
        0 <= n <= s.len(),
    ensures
        percent_encoded(set, encode_utf8(s).take(n)) == s.take(n),
    decreases n,
{
    let b = encode_utf8(s);
    if n == 0 {
        assert(b.take(0) =~= Seq::<u8>::empty());
        assert(s.take(0) =~= Seq::<char>::empty());
    } else {
        lemma_encode_unreserved_prefix(set, s, n - 1);
        assert(b.take(n).drop_last() =~= b.take(n - 1));
        let c = s[n - 1];
        let x = b[n - 1];
        assert(x == c as u8);
        assert(is_unreserved_char(c));
        assert((c as u32) < 128);
        assert(x as u32 == c as u32);
        assert(!must_encode(set, x));
        assert(x as char == c);
        assert(s.take(n) =~= s.take(n - 1) + seq![c]);
    }
}

} // verus!
