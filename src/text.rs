use vstd::prelude::*;
use vstd::string::StringSliceAdditionalSpecFns;
use vstd::utf8::{encode_utf8, valid_utf8};

verus! {

/// Unicode's White_Space property, the whitespace that `str::trim` removes.
pub open spec fn is_white_space(c: char) -> bool {
    ('\u{9}' <= c && c <= '\u{d}') || c == ' ' || c == '\u{85}' || c == '\u{a0}' || c
        == '\u{1680}' || ('\u{2000}' <= c && c <= '\u{200a}') || c == '\u{2028}' || c
        == '\u{2029}' || c == '\u{202f}' || c == '\u{205f}' || c == '\u{3000}'
}

/// The number of whitespace characters that begin `s`.
pub open spec fn leading_space(s: Seq<char>) -> nat
    decreases s.len(),
{
    if s.len() > 0 && is_white_space(s[0]) {
        1 + leading_space(s.drop_first())
    } else {
        0
    }
}

/// The number of whitespace characters that end `s`.
pub open spec fn trailing_space(s: Seq<char>) -> nat
    decreases s.len(),
{
    if s.len() > 0 && is_white_space(s.last()) {
        1 + trailing_space(s.drop_last())
    } else {
        0
    }
}

/// `s` without its leading and trailing whitespace.
pub open spec fn trim_chars(s: Seq<char>) -> Seq<char> {
    let t = s.subrange(leading_space(s) as int, s.len() as int);
    t.subrange(0, t.len() - trailing_space(t))
}

proof fn lemma_leading_space_bound(s: Seq<char>)
    ensures
        leading_space(s) <= s.len(),
    decreases s.len(),
{
    if s.len() > 0 && is_white_space(s[0]) {
        lemma_leading_space_bound(s.drop_first());
    }
}

proof fn lemma_trailing_space_bound(s: Seq<char>)
    ensures
        trailing_space(s) <= s.len(),
    decreases s.len(),
{
    if s.len() > 0 && is_white_space(s.last()) {
        lemma_trailing_space_bound(s.drop_last());
    }
}

/// Encoding distributes over concatenation.
pub proof fn lemma_encode_concat(a: Seq<char>, b: Seq<char>)
    ensures
        encode_utf8(a + b) == encode_utf8(a) + encode_utf8(b),
    decreases a.len(),
{
    if a.len() == 0 {
        assert(a + b =~= b);
        assert(encode_utf8(a) + encode_utf8(b) =~= encode_utf8(b));
    } else {
        assert((a + b).drop_first() =~= a.drop_first() + b);
        lemma_encode_concat(a.drop_first(), b);
        assert((a + b)[0] == a[0]);
        assert(encode_utf8(a + b) =~= encode_utf8(a) + encode_utf8(b));
    }
}

/// Trimming never lengthens the encoded text.
pub proof fn lemma_trim_shorter(s: Seq<char>)
    ensures
        encode_utf8(trim_chars(s)).len() <= encode_utf8(s).len(),
{
    let i = leading_space(s) as int;
    lemma_leading_space_bound(s);
    let t = s.subrange(i, s.len() as int);
    lemma_trailing_space_bound(t);
    let j = t.len() - trailing_space(t);
    assert(s =~= s.subrange(0, i) + (t.subrange(0, j) + t.subrange(j, t.len() as int)));
    lemma_encode_concat(t.subrange(0, j), t.subrange(j, t.len() as int));
    lemma_encode_concat(
        s.subrange(0, i),
        t.subrange(0, j) + t.subrange(j, t.len() as int),
    );
}

/// Relies on `core::str::from_utf8`: it accepts exactly the well-formed UTF-8
/// byte strings, and the text it returns is made of the same bytes.
#[verifier::external_body]
pub(crate) fn utf8_text(b: &[u8]) -> (r: Option<&str>)
    ensures
        r.is_some() == valid_utf8(b@),
        r matches Some(s) ==> s.spec_bytes() == b@,
{
    core::str::from_utf8(b).ok()
}

/// Relies on `str::trim`: the text without the leading and trailing characters
/// that have Unicode's White_Space property.
#[verifier::external_body]
pub(crate) fn trim_text(s: &str) -> (r: &str)
    ensures
        r@ == trim_chars(s@),
{
    s.trim()
}

} // verus!

verus! {

/// The bytes of a string of ASCII characters.
pub(crate) fn ascii_text(s: &'static str) -> (r: &'static [u8])
    requires
        vstd::utf8::is_ascii_chars(s@),
    ensures
        r@ == crate::parser::ascii(s@),
{
    proof {
        vstd::utf8::is_ascii_chars_encode_utf8(s@);
        assert(s.spec_bytes() =~= crate::parser::ascii(s@));
    }
    s.as_bytes()
}

} // verus!
