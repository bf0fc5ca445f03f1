//! Regular expressions, as the `regex` crate matches them.
//!
//! What a pattern matches is not defined here: it is whatever the crate
//! finds, named by [`leftmost_match`]. This module adds what follows from
//! the crate's promises about the offsets of a match: how the matched text
//! and the text after it are cut out of the haystack.

use vstd::prelude::*;
use vstd::utf8::{
    decode_utf8, decode_utf8_split, encode_utf8, encode_utf8_decode_utf8, encode_utf8_valid_utf8,
    is_char_boundary, is_char_boundary_iff_not_is_continuation_byte,
    is_char_boundary_start_end_of_seq, valid_utf8, valid_utf8_split,
};

verus! {

/// The error of the `regex` crate for a pattern that it cannot compile.
#[verifier::external_type_specification]
#[verifier::external_body]
pub struct ExRegexError(regex::Error);

/// Whether `regex::Regex::new` compiles the pattern.
pub uninterp spec fn compiles(pattern: Seq<char>) -> bool;

/// The byte offsets of the start and the end of the leftmost match of a
/// pattern in a haystack, searching from the byte offset `start`: what
/// `regex::Regex::find_at` finds.
pub uninterp spec fn leftmost_match(pattern: Seq<char>, haystack: Seq<char>, start: usize) -> Option<
    (usize, usize),
>;

/// The offsets of a match lie in the haystack, in order, each between two
/// characters.
pub open spec fn in_bounds(found: Option<(usize, usize)>, haystack: Seq<char>) -> bool {
    found matches Some((from, to)) ==> {
        &&& from <= to <= encode_utf8(haystack).len()
        &&& is_char_boundary(encode_utf8(haystack), from as int)
        &&& is_char_boundary(encode_utf8(haystack), to as int)
    }
}

/// `regex::Regex::new` on the pattern and `regex::Regex::find_at` on what it
/// compiled, with `Match::start` and `Match::end` of the match. It fails
/// exactly on a pattern that does not compile. The offsets of a match are
/// named by [`leftmost_match`]; the crate promises that they are in order,
/// within the haystack, and on character boundaries.
#[verifier::external_body]
fn search(pattern: &str, haystack: &str, start: usize) -> (r: Result<
    Option<(usize, usize)>,
    regex::Error,
>)
    requires
        start <= encode_utf8(haystack@).len(),
        is_char_boundary(encode_utf8(haystack@), start as int),
    ensures
        r is Ok <==> compiles(pattern@),
        r matches Ok(found) ==> found == leftmost_match(pattern@, haystack@, start) && in_bounds(
            found,
            haystack@,
        ),
{
    let compiled = regex::Regex::new(pattern)?;
    Ok(compiled.find_at(haystack, start).map(|m| (m.start(), m.end())))
}

/// A pattern that is not a regular expression.
#[derive(Debug, PartialEq, Eq)]
pub struct PatternError;

/// The leftmost match of `pattern` in `haystack` from the byte offset
/// `start` on, as byte offsets of its start and end.
pub fn find_at(pattern: &str, haystack: &str, start: usize) -> (r: Result<
    Option<(usize, usize)>,
    PatternError,
>)
    requires
        start <= encode_utf8(haystack@).len(),
        is_char_boundary(encode_utf8(haystack@), start as int),
    ensures
        r is Ok <==> compiles(pattern@),
        r matches Ok(found) ==> found == leftmost_match(pattern@, haystack@, start) && in_bounds(
            found,
            haystack@,
        ),
{
    match search(pattern, haystack, start) {
        Ok(found) => Ok(found),
        Err(_) => Err(PatternError),
    }
}

/// Whether `pattern` is a regular expression.
pub fn is_pattern(pattern: &str) -> (r: bool)
    ensures
        r == compiles(pattern@),
{
    proof {
        encode_utf8_valid_utf8(""@);
    }
    find_at(pattern, "", 0).is_ok()
}

/// The text of `haystack` between two byte offsets.
pub open spec fn between(haystack: Seq<char>, from: int, to: int) -> Seq<char> {
    decode_utf8(encode_utf8(haystack).subrange(from, to))
}

/// The text of `haystack` from a byte offset on.
pub open spec fn after(haystack: Seq<char>, from: int) -> Seq<char> {
    between(haystack, from, encode_utf8(haystack).len() as int)
}

/// What `pattern` matches at the very start of `input`: the matched text
/// and the text after it, if the leftmost match starts at offset 0.
pub open spec fn prefix_match(pattern: Seq<char>, input: Seq<char>) -> Option<
    (Seq<char>, Seq<char>),
> {
    match leftmost_match(pattern, input, 0) {
        Some((from, to)) => if from == 0 {
            Some((between(input, 0, to as int), after(input, to as int)))
        } else {
            None
        },
        None => None,
    }
}

/// A text cut at a character boundary is its two parts, one after the
/// other.
pub proof fn lemma_cut(haystack: Seq<char>, at: int)
    requires
        is_char_boundary(encode_utf8(haystack), at),
        0 <= at <= encode_utf8(haystack).len(),
    ensures
        between(haystack, 0, at) + after(haystack, at) == haystack,
{
    let bytes = encode_utf8(haystack);
    encode_utf8_valid_utf8(haystack);
    encode_utf8_decode_utf8(haystack);
    decode_utf8_split(bytes, at);
}

/// The matched text and the text after it make up the input.
pub proof fn lemma_prefix_match(pattern: Seq<char>, input: Seq<char>)
    requires
        in_bounds(leftmost_match(pattern, input, 0), input),
    ensures
        prefix_match(pattern, input) matches Some((matched, rest)) ==> matched + rest == input,
{
    if let Some((from, to)) = leftmost_match(pattern, input, 0) {
        if from == 0 {
            lemma_cut(input, to as int);
        }
    }
}

/// A character boundary of a text is a character boundary of what follows
/// an earlier boundary.
pub proof fn lemma_boundary_after(bytes: Seq<u8>, from: int, at: int)
    requires
        valid_utf8(bytes),
        0 <= from <= at <= bytes.len(),
        is_char_boundary(bytes, from),
        is_char_boundary(bytes, at),
    ensures
        valid_utf8(bytes.subrange(from, bytes.len() as int)),
        is_char_boundary(bytes.subrange(from, bytes.len() as int), at - from),
{
    let tail = bytes.subrange(from, bytes.len() as int);
    valid_utf8_split(bytes, from);
    if at == bytes.len() {
        is_char_boundary_start_end_of_seq(tail);
    } else {
        is_char_boundary_iff_not_is_continuation_byte(bytes, at);
        is_char_boundary_iff_not_is_continuation_byte(tail, at - from);
        assert(tail[at - from] == bytes[at]);
    }
}

/// Cuts `text` at the byte offset `at`.
pub fn cut(text: &str, at: usize) -> (r: (&str, &str))
    requires
        at <= encode_utf8(text@).len(),
        is_char_boundary(encode_utf8(text@), at as int),
    ensures
        r.0@ == between(text@, 0, at as int),
        r.1@ == after(text@, at as int),
        r.0@ + r.1@ == text@,
        encode_utf8(r.0@) == encode_utf8(text@).subrange(0, at as int),
        encode_utf8(r.1@) == encode_utf8(text@).subrange(
            at as int,
            encode_utf8(text@).len() as int,
        ),
{
    let r = text.split_at(at);
    proof {
        encode_utf8_decode_utf8(r.0@);
        encode_utf8_decode_utf8(r.1@);
        lemma_cut(text@, at as int);
    }
    r
}

} // verus!
