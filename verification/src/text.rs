//! String operations that the rest of the library compares and matches names with.

use std::cmp::Ordering;
use vstd::prelude::*;
use vstd::string::*;
use vstd::utf8::{encode_utf8, encode_utf8_decode_utf8};

verus! {

/// Sign of the lexicographic comparison of two byte strings: negative when `a`
/// comes first, zero when they are equal, positive when `b` comes first. A
/// proper prefix comes before its extensions.
pub open spec fn lex_sign(a: Seq<u8>, b: Seq<u8>) -> int
    decreases a.len(),
{
    if a.len() == 0 {
        if b.len() == 0 {
            0
        } else {
            -1
        }
    } else if b.len() == 0 {
        1
    } else if a[0] < b[0] {
        -1
    } else if a[0] > b[0] {
        1
    } else {
        lex_sign(a.drop_first(), b.drop_first())
    }
}

/// Lexicographic order is antisymmetric as a three-way comparison.
pub proof fn lemma_lex_sign_flip(a: Seq<u8>, b: Seq<u8>)
    ensures
        lex_sign(b, a) == -lex_sign(a, b),
    decreases a.len(),
{
    if a.len() > 0 && b.len() > 0 && a[0] == b[0] {
        lemma_lex_sign_flip(a.drop_first(), b.drop_first());
    }
}

/// Compares two byte strings lexicographically and returns the sign.
pub fn lex_sign_of(a: &[u8], b: &[u8]) -> (sign: i8)
    ensures
        sign as int == lex_sign(a@, b@),
{
    let mut i: usize = 0;
    assert(a@.skip(0) =~= a@ && b@.skip(0) =~= b@);
    while i < a.len() && i < b.len()
        invariant
            i <= a@.len(),
            i <= b@.len(),
            lex_sign(a@, b@) == lex_sign(a@.skip(i as int), b@.skip(i as int)),
        decreases a@.len() - i,
    {
        let x: u8 = a[i];
        let y: u8 = b[i];
        proof {
            assert(a@.skip(i as int).drop_first() =~= a@.skip(i + 1));
            assert(b@.skip(i as int).drop_first() =~= b@.skip(i + 1));
        }
        if x < y {
            return -1;
        }
        if x > y {
            return 1;
        }
        i += 1;
    }
    if i < b.len() {
        -1
    } else if i < a.len() {
        1
    } else {
        0
    }
}

/// Lexicographic order is transitive, and strictly so where one step is strict.
pub proof fn lemma_lex_sign_chain(a: Seq<u8>, b: Seq<u8>, c: Seq<u8>)
    ensures
        lex_sign(a, b) <= 0 && lex_sign(b, c) <= 0 ==> lex_sign(a, c) <= 0,
        lex_sign(a, b) < 0 && lex_sign(b, c) <= 0 ==> lex_sign(a, c) < 0,
        lex_sign(a, b) <= 0 && lex_sign(b, c) < 0 ==> lex_sign(a, c) < 0,
    decreases a.len(),
{
    if a.len() > 0 && b.len() > 0 && c.len() > 0 && a[0] == b[0] && b[0] == c[0] {
        lemma_lex_sign_chain(a.drop_first(), b.drop_first(), c.drop_first());
    }
}

/// Two byte strings compare level exactly when they are the same.
pub proof fn lemma_lex_sign_zero(a: Seq<u8>, b: Seq<u8>)
    ensures
        lex_sign(a, b) == 0 <==> a == b,
    decreases a.len(),
{
    if a.len() > 0 && b.len() > 0 {
        lemma_lex_sign_zero(a.drop_first(), b.drop_first());
        if a[0] == b[0] && a.drop_first() == b.drop_first() {
            assert(a =~= seq![a[0]] + a.drop_first());
            assert(b =~= seq![b[0]] + b.drop_first());
        }
    } else if a.len() == 0 && b.len() == 0 {
        assert(a =~= b);
    }
}

/// Tells whether two strings hold the same characters.
pub fn text_equals(a: &str, b: &str) -> (same: bool)
    ensures
        same == (a@ == b@),
{
    let sign: i8 = lex_sign_of(a.as_bytes(), b.as_bytes());
    proof {
        lemma_lex_sign_zero(encode_utf8(a@), encode_utf8(b@));
        encode_utf8_decode_utf8(a@);
        encode_utf8_decode_utf8(b@);
    }
    sign == 0
}

/// The lowercase form of a string under Unicode's default case mapping.
pub uninterp spec fn lowercase(s: Seq<char>) -> Seq<char>;

/// `str::to_lowercase` of std: the result is the string's lowercase form, a
/// function of the characters alone.
#[verifier::external_body]
pub(crate) fn to_lowercase(s: &str) -> (lower: String)
    ensures
        lower@ == lowercase(s@),
{
    s.to_lowercase()
}

/// How natural ordering ranks `a` against `b`: the order in which runs of
/// digits count as numbers, as the natord crate computes it.
pub uninterp spec fn natural_order(a: Seq<char>, b: Seq<char>) -> Ordering;

/// `natord::compare`: the result is a function of the two strings' characters.
#[verifier::external_body]
pub(crate) fn natural_compare(a: &str, b: &str) -> (order: Ordering)
    ensures
        order == natural_order(a@, b@),
{
    natord::compare(a, b)
}

/// `needle` occurs in `hay` as a contiguous run of characters.
pub open spec fn occurs_in(needle: Seq<char>, hay: Seq<char>) -> bool {
    exists|i: int|
        0 <= i && i + needle.len() <= hay.len() && #[trigger] hay.subrange(
            i,
            i + needle.len(),
        ) == needle
}

/// `str::contains` of std with a string pattern: true exactly when the pattern
/// is a substring.
#[verifier::external_body]
pub(crate) fn contains_text(hay: &str, needle: &str) -> (found: bool)
    ensures
        found == occurs_in(needle@, hay@),
{
    hay.contains(needle)
}

/// The regular expressions of the regex engine.
#[verifier::external_type_specification]
#[verifier::external_body]
pub struct ExRegex(regex::Regex);

/// A compiled regular expression together with the pattern it was compiled from.
pub struct Matcher {
    pattern: String,
    compiled: regex::Regex,
}

impl Matcher {
    /// The pattern that the matcher was compiled from.
    pub closed spec fn pattern(self) -> Seq<char> {
        self.pattern@
    }
}

/// Whether `pattern` is a regular expression that the regex engine accepts.
pub uninterp spec fn regex_compiles(pattern: Seq<char>) -> bool;

/// Whether the regular expression `pattern` matches somewhere in `text`.
pub uninterp spec fn regex_accepts(pattern: Seq<char>, text: Seq<char>) -> bool;

/// `regex::Regex::new`: a matcher for the pattern, or nothing where the
/// engine does not accept the pattern; which of the two depends on the
/// pattern alone.
#[verifier::external_body]
pub(crate) fn compile_regex(pattern: &str) -> (matcher: Option<Matcher>)
    ensures
        matcher is Some <==> regex_compiles(pattern@),
        matcher matches Some(m) ==> m.pattern() == pattern@,
{
    match regex::Regex::new(pattern) {
        Ok(compiled) => Some(Matcher { pattern: pattern.to_string(), compiled }),
        Err(_) => None,
    }
}

/// `regex::Regex::is_match`: whether the expression matches somewhere in the
/// text, which depends on the pattern and the text alone. A matcher is only
/// ever made by `compile_regex`, from the pattern that it holds.
#[verifier::external_body]
pub(crate) fn regex_is_match(matcher: &Matcher, text: &str) -> (found: bool)
    ensures
        found == regex_accepts(matcher.pattern(), text@),
{
    matcher.compiled.is_match(text)
}

/// Whether a name begins with a full stop.
pub open spec fn is_dot_name(name: Seq<char>) -> bool {
    name.len() > 0 && name[0] == '.'
}

/// Tells whether a name begins with a full stop.
pub fn starts_with_dot(name: &str) -> (dot: bool)
    ensures
        dot == is_dot_name(name@),
{
    !name.is_empty() && name.get_char(0) == '.'
}

} // verus!
