//! Parser combinators over string slices.
//!
//! A parser takes the input that is left and either accepts, giving a value
//! and the input after what it consumed, or rejects, giving the input at
//! which it gave up. Combinators build parsers from parsers.
//!
//! Nothing is shared between parsers and nothing is rolled back: a sequence
//! that gives up after its first part says so by the input that it gives
//! up at, and an alternative is tried on the input that the combinator
//! itself was given. A repetition ends where its element rejects or
//! consumes nothing, so every parser returns.

use super::pattern::{compiles, cut, find_at, lemma_prefix_match, prefix_match};
use crate::text::{
    char_is_alphabetic, char_is_numeric, char_is_whitespace, decimal_i32, parse_i32, same_text,
};
use core::marker::PhantomData;
use vstd::prelude::*;

verus! {

/// What a parser returns: the rest of the input and a value, or the input
/// at which it gave up.
pub type ParseResult<'a, Output> = Result<(&'a str, Output), &'a str>;

/// What a parser makes of an input: a value and the input that is left, or
/// the input at which it gave up.
pub enum Outcome<T> {
    Matched { rest: Seq<char>, value: T },
    NoMatch { at: Seq<char> },
}

impl<T> Outcome<T> {
    /// The outcome if it leaves no more than `input`; a rule that would
    /// leave more does not match.
    pub open spec fn within(self, input: Seq<char>) -> Outcome<T> {
        match self {
            Outcome::Matched { rest, .. } => if rest.len() <= input.len() {
                self
            } else {
                Outcome::NoMatch { at: input }
            },
            Outcome::NoMatch { .. } => self,
        }
    }

    /// The outcome if it leaves less than `input`; a rule that consumes
    /// nothing does not match.
    pub open spec fn progress(self, input: Seq<char>) -> Outcome<T> {
        match self {
            Outcome::Matched { rest, .. } => if rest.len() < input.len() {
                self
            } else {
                Outcome::NoMatch { at: input }
            },
            Outcome::NoMatch { .. } => self,
        }
    }
}

/// The outcome that a result of a parser of texts stands for.
pub open spec fn text_outcome(r: ParseResult<String>) -> Outcome<Seq<char>> {
    match r {
        Ok((rest, value)) => Outcome::Matched { rest: rest@, value: value@ },
        Err(at) => Outcome::NoMatch { at: at@ },
    }
}

/// What is left is no longer than what was given.
pub open spec fn no_longer<T>(r: ParseResult<T>, input: &str) -> bool {
    r matches Ok((rest, _)) ==> rest@.len() <= input@.len()
}

/// A parser of values of type `Output`.
///
/// What a parser does is a relation between input and result: `accepts` and
/// `rejects`. For each combinator they are defined with its type; the
/// lemmas beside this module state the same of parsers that are functions
/// or hold closures.
pub trait Parser<'a, Output> {
    /// Whether the parser may be applied to `input`. It is `true` for every
    /// parser that holds no closure with a precondition.
    spec fn ready(&self, input: &'a str) -> bool;

    /// The parser can accept `input` with the value `value`, leaving `rest`.
    spec fn accepts(&self, input: &'a str, rest: &'a str, value: Output) -> bool;

    /// The parser can reject `input`, giving up at `at`.
    spec fn rejects(&self, input: &'a str, at: &'a str) -> bool;

    fn parse(&self, input: &'a str) -> (r: ParseResult<'a, Output>)
        requires
            self.ready(input),
        ensures
            match r {
                Ok((rest, value)) => self.accepts(input, rest, value),
                Err(at) => self.rejects(input, at),
            },
    ;
}

/// Every function from input to result is a parser: what it accepts and
/// rejects is what it can return.
impl<'a, F, Output> Parser<'a, Output> for F where F: Fn(&'a str) -> ParseResult<'a, Output> {
    open spec fn ready(&self, input: &'a str) -> bool {
        call_requires(*self, (input,))
    }

    open spec fn accepts(&self, input: &'a str, rest: &'a str, value: Output) -> bool {
        call_ensures(*self, (input,), Ok((rest, value)))
    }

    open spec fn rejects(&self, input: &'a str, at: &'a str) -> bool {
        call_ensures(*self, (input,), Err(at))
    }

    fn parse(&self, input: &'a str) -> (r: ParseResult<'a, Output>) {
        self(input)
    }
}

/// A parser on the heap. It parses as the parser in the box does.
pub struct BoxedParser<P> {
    pub p: Box<P>,
}

impl<P> BoxedParser<P> {
    /// Puts the parser `p` on the heap.
    pub fn new(p: P) -> (r: Self)
        ensures
            *r.p == p,
    {
        BoxedParser { p: Box::new(p) }
    }
}

impl<'a, Output, P: Parser<'a, Output>> Parser<'a, Output> for BoxedParser<P> {
    open spec fn ready(&self, input: &'a str) -> bool {
        self.p.ready(input)
    }

    open spec fn accepts(&self, input: &'a str, rest: &'a str, value: Output) -> bool {
        self.p.accepts(input, rest, value)
    }

    open spec fn rejects(&self, input: &'a str, at: &'a str) -> bool {
        self.p.rejects(input, at)
    }

    fn parse(&self, input: &'a str) -> (r: ParseResult<'a, Output>) {
        self.p.parse(input)
    }
}

/// The parser of [`literal`].
pub struct Literal<'e> {
    pub exp: &'e str,
}

/// Accepts an input that starts with `exp` and consumes it.
pub fn literal<'e>(exp: &'e str) -> (p: Literal<'e>)
    ensures
        p.exp == exp,
{
    Literal { exp }
}

impl<'a, 'e> Parser<'a, ()> for Literal<'e> {
    open spec fn ready(&self, input: &'a str) -> bool {
        true
    }

    open spec fn accepts(&self, input: &'a str, rest: &'a str, value: ()) -> bool {
        self.exp@.is_prefix_of(input@) && rest@ == input@.skip(self.exp@.len() as int)
    }

    open spec fn rejects(&self, input: &'a str, at: &'a str) -> bool {
        !self.exp@.is_prefix_of(input@) && at == input
    }

    fn parse(&self, input: &'a str) -> (r: ParseResult<'a, ()>) {
        let wanted: usize = self.exp.unicode_len();
        let given: usize = input.unicode_len();
        if wanted <= given && same_text(input.substring_char(0, wanted), self.exp) {
            assert(input@.subrange(0, wanted as int) == self.exp@);
            Ok((input.substring_char(wanted, given), ()))
        } else {
            proof {
                if self.exp@.is_prefix_of(input@) {
                    assert(input@.subrange(0, wanted as int) =~= self.exp@);
                }
            }
            Err(input)
        }
    }
}

/// The parser of [`match_regex`].
pub struct MatchRegex<'e> {
    pub exp: &'e str,
}

/// Accepts an input at whose start the regular expression `exp` matches,
/// and gives the matched text. A match further on in the input does not
/// count.
pub fn match_regex<'e>(exp: &'e str) -> (p: MatchRegex<'e>)
    ensures
        p.exp == exp,
{
    MatchRegex { exp }
}

impl<'a, 'e> Parser<'a, String> for MatchRegex<'e> {
    /// The expression has to be one that compiles.
    open spec fn ready(&self, input: &'a str) -> bool {
        compiles(self.exp@)
    }

    open spec fn accepts(&self, input: &'a str, rest: &'a str, value: String) -> bool {
        prefix_match(self.exp@, input@) == Some((value@, rest@))
    }

    open spec fn rejects(&self, input: &'a str, at: &'a str) -> bool {
        prefix_match(self.exp@, input@) is None && at == input
    }

    fn parse(&self, input: &'a str) -> (r: ParseResult<'a, String>) {
        match try_match_regex(self.exp, input) {
            Some(r) => r,
            None => Err(input),
        }
    }
}

/// Applies the regular expression `exp` at the start of `input`, if `exp`
/// is a regular expression at all.
pub fn try_match_regex<'a>(exp: &str, input: &'a str) -> (r: Option<ParseResult<'a, String>>)
    ensures
        r is Some <==> compiles(exp@),
        r matches Some(Ok((rest, value))) ==> prefix_match(exp@, input@) == Some(
            (value@, rest@),
        ) && value@ + rest@ == input@,
        r matches Some(Err(at)) ==> prefix_match(exp@, input@) is None && at == input,
{
    proof {
        vstd::utf8::encode_utf8_valid_utf8(input@);
    }
    match find_at(exp, input, 0) {
        Ok(Some((from, to))) => {
            if from == 0 {
                proof {
                    lemma_prefix_match(exp@, input@);
                }
                let (matched, rest) = cut(input, to);
                Some(Ok((rest, String::from_str(matched))))
            } else {
                Some(Err(input))
            }
        },
        Ok(None) => Some(Err(input)),
        Err(_) => None,
    }
}

/// The parser of [`pair`].
pub struct Pair<Fst, Snd> {
    pub first: Fst,
    pub second: Snd,
}

/// Applies `parser1`, then `parser2` to what is left, and gives both values.
pub fn pair<'a, Fst, Snd, R1, R2>(parser1: Fst, parser2: Snd) -> (p: Pair<Fst, Snd>) where
    Fst: Parser<'a, R1>,
    Snd: Parser<'a, R2>,

    ensures
        p.first == parser1,
        p.second == parser2,
{
    Pair { first: parser1, second: parser2 }
}

impl<'a, Fst, Snd, R1, R2> Parser<'a, (R1, R2)> for Pair<Fst, Snd> where
    Fst: Parser<'a, R1>,
    Snd: Parser<'a, R2>,
 {
    open spec fn ready(&self, input: &'a str) -> bool {
        &&& self.first.ready(input)
        &&& forall|mid: &'a str, a: R1| #[trigger]
            self.first.accepts(input, mid, a) ==> self.second.ready(mid)
    }

    open spec fn accepts(&self, input: &'a str, rest: &'a str, value: (R1, R2)) -> bool {
        exists|mid: &'a str| #[trigger]
            self.first.accepts(input, mid, value.0) && self.second.accepts(mid, rest, value.1)
    }

    open spec fn rejects(&self, input: &'a str, at: &'a str) -> bool {
        ||| self.first.rejects(input, at)
        ||| exists|mid: &'a str, a: R1| #[trigger]
            self.first.accepts(input, mid, a) && self.second.rejects(mid, at)
    }

    fn parse(&self, input: &'a str) -> (r: ParseResult<'a, (R1, R2)>) {
        match self.first.parse(input) {
            Ok((next, a)) => match self.second.parse(next) {
                Ok((rest, b)) => {
                    let value = (a, b);
                    assert(self.first.accepts(input, next, value.0));
                    Ok((rest, value))
                },
                Err(at) => Err(at),
            },
            Err(at) => Err(at),
        }
    }
}

/// The parser of [`map`].
pub struct Mapped<P, F, A> {
    pub parser: P,
    pub map_fn: F,
    pub from: PhantomData<A>,
}

/// Applies `parser` and hands its value to `map_fn`.
pub fn map<'a, P, F, A, B>(parser: P, map_fn: F) -> (p: Mapped<P, F, A>) where
    P: Parser<'a, A>,
    F: Fn(A) -> B,

    ensures
        p.parser == parser,
        p.map_fn == map_fn,
{
    Mapped { parser, map_fn, from: PhantomData }
}

impl<'a, P, F, A, B> Parser<'a, B> for Mapped<P, F, A> where P: Parser<'a, A>, F: Fn(A) -> B {
    open spec fn ready(&self, input: &'a str) -> bool {
        &&& self.parser.ready(input)
        &&& forall|rest: &'a str, a: A| #[trigger]
            self.parser.accepts(input, rest, a) ==> call_requires(self.map_fn, (a,))
    }

    open spec fn accepts(&self, input: &'a str, rest: &'a str, value: B) -> bool {
        exists|a: A| #[trigger]
            self.parser.accepts(input, rest, a) && call_ensures(self.map_fn, (a,), value)
    }

    open spec fn rejects(&self, input: &'a str, at: &'a str) -> bool {
        self.parser.rejects(input, at)
    }

    fn parse(&self, input: &'a str) -> (r: ParseResult<'a, B>) {
        match self.parser.parse(input) {
            Ok((rest, a)) => Ok((rest, (self.map_fn)(a))),
            Err(at) => Err(at),
        }
    }
}

/// The first character of `input`.
pub fn any_char<'a>(input: &'a str) -> (r: ParseResult<'a, char>)
    ensures
        match r {
            Ok((rest, c)) => input@.len() > 0 && c == input@[0] && rest@ == input@.skip(1),
            Err(at) => input@.len() == 0 && at == input,
        },
{
    let given: usize = input.unicode_len();
    if given == 0 {
        Err(input)
    } else {
        Ok((input.substring_char(1, given), input.get_char(0)))
    }
}

/// Whether a character can follow the first character of an identifier.
pub open spec fn is_identifier_part(c: char) -> bool {
    char_is_alphabetic(c) || c == '_' || c == '-'
}

/// The index at which the run of identifier characters ends that starts at
/// `from`.
pub open spec fn identifier_run(text: Seq<char>, from: int) -> int
    decreases text.len() - from,
{
    if 0 <= from < text.len() && is_identifier_part(text[from]) {
        identifier_run(text, from + 1)
    } else {
        from
    }
}

/// The length of the identifier that `text` starts with: a letter, a run of
/// letters, underscores and hyphens, and one numeric character if one
/// follows them.
pub open spec fn identifier_len(text: Seq<char>) -> int {
    let end = identifier_run(text, 1);
    if 0 <= end < text.len() && char_is_numeric(text[end]) {
        end + 1
    } else {
        end
    }
}

/// An identifier at the very start of the input.
pub open spec fn identified(input: Seq<char>) -> Outcome<Seq<char>> {
    if input.len() > 0 && char_is_alphabetic(input[0]) {
        Outcome::Matched {
            rest: input.skip(identifier_len(input)),
            value: input.take(identifier_len(input)),
        }
    } else {
        Outcome::NoMatch { at: input }
    }
}

/// The number of characters before the first double quote of the text.
pub open spec fn unquoted_len(text: Seq<char>) -> int
    decreases text.len(),
{
    if text.len() > 0 && text[0] != '"' {
        1 + unquoted_len(text.skip(1))
    } else {
        0
    }
}

/// An identifier is at least one character long and within the text.
pub proof fn lemma_identifier_len(text: Seq<char>)
    requires
        text.len() > 0,
    ensures
        1 <= identifier_len(text) <= text.len(),
{
    lemma_identifier_run(text, 1);
}

proof fn lemma_identifier_run(text: Seq<char>, from: int)
    requires
        0 <= from <= text.len(),
    ensures
        from <= identifier_run(text, from) <= text.len(),
    decreases text.len() - from,
{
    if from < text.len() && is_identifier_part(text[from]) {
        lemma_identifier_run(text, from + 1);
    }
}

/// Counting on from `k` characters that are no double quotes.
proof fn lemma_unquoted_step(text: Seq<char>, k: int)
    requires
        0 <= k <= text.len(),
        forall|i: int| 0 <= i < k ==> #[trigger] text[i] != '"',
    ensures
        unquoted_len(text) == k + unquoted_len(text.skip(k)),
    decreases k,
{
    if k == 0 {
        assert(text.skip(0) =~= text);
    } else {
        let tail = text.skip(1);
        assert forall|i: int| 0 <= i < k - 1 implies #[trigger] tail[i] != '"' by {
            assert(tail[i] == text[i + 1]);
        }
        lemma_unquoted_step(tail, k - 1);
        assert(tail.skip(k - 1) =~= text.skip(k));
        assert(text[0] != '"');
    }
}

/// The input up to its first double quote, and the input from there on.
pub fn until_quote<'a>(input: &'a str) -> (r: (&'a str, &'a str))
    ensures
        r.0@ == input@.take(unquoted_len(input@)),
        r.1@ == input@.skip(unquoted_len(input@)),
        0 <= unquoted_len(input@) <= input@.len(),
{
    let given: usize = input.unicode_len();
    let mut k: usize = 0;
    while k < given && input.get_char(k) != '"'
        invariant
            k <= given,
            given == input@.len(),
            forall|i: int| 0 <= i < k ==> #[trigger] input@[i] != '"',
        decreases given - k,
    {
        k += 1;
    }
    proof {
        lemma_unquoted_step(input@, k as int);
        let tail = input@.skip(k as int);
        if k < given {
            assert(tail[0] == input@[k as int]);
        }
        assert(unquoted_len(tail) == 0);
    }
    (input.substring_char(0, k), input.substring_char(k, given))
}

/// Accepts an input that starts with a letter, and gives the identifier
/// that it starts with.
pub fn identifier<'a>(input: &'a str) -> (r: ParseResult<'a, String>)
    ensures
        match r {
            Ok((rest, name)) => {
                &&& input@.len() > 0 && char_is_alphabetic(input@[0])
                &&& name@ == input@.take(identifier_len(input@))
                &&& rest@ == input@.skip(identifier_len(input@))
                &&& rest@.len() < input@.len()
            },
            Err(at) => !(input@.len() > 0 && char_is_alphabetic(input@[0])) && at == input,
        },
{
    let given: usize = input.unicode_len();
    if given == 0 || !input.get_char(0).is_alphabetic() {
        return Err(input);
    }
    let mut end: usize = 1;
    while end < given && is_part(input.get_char(end))
        invariant
            1 <= end <= given,
            given == input@.len(),
            identifier_run(input@, 1) == identifier_run(input@, end as int),
        decreases given - end,
    {
        end += 1;
    }
    if end < given && input.get_char(end).is_numeric() {
        end += 1;
    }
    proof {
        lemma_identifier_len(input@);
    }
    Ok((input.substring_char(end, given), String::from_str(input.substring_char(0, end))))
}

fn is_part(c: char) -> (r: bool)
    ensures
        r == is_identifier_part(c),
{
    c.is_alphabetic() || c == '_' || c == '-'
}

/// The parser of [`left`].
pub struct Left<Fst, Snd, R2> {
    pub first: Fst,
    pub second: Snd,
    pub dropped: PhantomData<R2>,
}

/// Applies `parser1`, then `parser2`, and gives the value of `parser1`.
pub fn left<'a, Fst, Snd, R1, R2>(parser1: Fst, parser2: Snd) -> (p: Left<Fst, Snd, R2>) where
    Fst: Parser<'a, R1>,
    Snd: Parser<'a, R2>,

    ensures
        p.first == parser1,
        p.second == parser2,
{
    Left { first: parser1, second: parser2, dropped: PhantomData }
}

impl<'a, Fst, Snd, R1, R2> Parser<'a, R1> for Left<Fst, Snd, R2> where
    Fst: Parser<'a, R1>,
    Snd: Parser<'a, R2>,
 {
    open spec fn ready(&self, input: &'a str) -> bool {
        &&& self.first.ready(input)
        &&& forall|mid: &'a str, a: R1| #[trigger]
            self.first.accepts(input, mid, a) ==> self.second.ready(mid)
    }

    open spec fn accepts(&self, input: &'a str, rest: &'a str, value: R1) -> bool {
        exists|mid: &'a str, b: R2| #[trigger]
            self.second.accepts(mid, rest, b) && self.first.accepts(input, mid, value)
    }

    open spec fn rejects(&self, input: &'a str, at: &'a str) -> bool {
        ||| self.first.rejects(input, at)
        ||| exists|mid: &'a str, a: R1| #[trigger]
            self.first.accepts(input, mid, a) && self.second.rejects(mid, at)
    }

    fn parse(&self, input: &'a str) -> (r: ParseResult<'a, R1>) {
        match self.first.parse(input) {
            Ok((next, a)) => match self.second.parse(next) {
                Ok((rest, b)) => Ok((rest, a)),
                Err(at) => Err(at),
            },
            Err(at) => Err(at),
        }
    }
}

/// The parser of [`right`].
pub struct Right<Fst, Snd, R1> {
    pub first: Fst,
    pub second: Snd,
    pub dropped: PhantomData<R1>,
}

/// Applies `parser1`, then `parser2`, and gives the value of `parser2`.
pub fn right<'a, Fst, Snd, R1, R2>(parser1: Fst, parser2: Snd) -> (p: Right<Fst, Snd, R1>) where
    Fst: Parser<'a, R1>,
    Snd: Parser<'a, R2>,

    ensures
        p.first == parser1,
        p.second == parser2,
{
    Right { first: parser1, second: parser2, dropped: PhantomData }
}

impl<'a, Fst, Snd, R1, R2> Parser<'a, R2> for Right<Fst, Snd, R1> where
    Fst: Parser<'a, R1>,
    Snd: Parser<'a, R2>,
 {
    open spec fn ready(&self, input: &'a str) -> bool {
        &&& self.first.ready(input)
        &&& forall|mid: &'a str, a: R1| #[trigger]
            self.first.accepts(input, mid, a) ==> self.second.ready(mid)
    }

    open spec fn accepts(&self, input: &'a str, rest: &'a str, value: R2) -> bool {
        exists|mid: &'a str, a: R1| #[trigger]
            self.first.accepts(input, mid, a) && self.second.accepts(mid, rest, value)
    }

    open spec fn rejects(&self, input: &'a str, at: &'a str) -> bool {
        ||| self.first.rejects(input, at)
        ||| exists|mid: &'a str, a: R1| #[trigger]
            self.first.accepts(input, mid, a) && self.second.rejects(mid, at)
    }

    fn parse(&self, input: &'a str) -> (r: ParseResult<'a, R2>) {
        match self.first.parse(input) {
            Ok((next, a)) => match self.second.parse(next) {
                Ok((rest, b)) => Ok((rest, b)),
                Err(at) => Err(at),
            },
            Err(at) => Err(at),
        }
    }
}

/// The parser of [`constant`].
pub struct Constant<U> {
    pub value: U,
}

/// Accepts every input, consumes nothing and gives a clone of `value`.
pub fn constant<U: Clone>(value: U) -> (p: Constant<U>)
    ensures
        p.value == value,
{
    Constant { value }
}

impl<'a, U: Clone> Parser<'a, U> for Constant<U> {
    open spec fn ready(&self, input: &'a str) -> bool {
        true
    }

    open spec fn accepts(&self, input: &'a str, rest: &'a str, value: U) -> bool {
        rest == input && cloned(self.value, value)
    }

    open spec fn rejects(&self, input: &'a str, at: &'a str) -> bool {
        false
    }

    fn parse(&self, input: &'a str) -> (r: ParseResult<'a, U>) {
        Ok((input, self.value.clone()))
    }
}

/// What [`number_i32`] makes of an input: the number that the digits at its
/// start stand for and the text after them, if there are digits and the
/// number fits in 32 bits.
pub open spec fn number_at_start(input: Seq<char>) -> Option<(Seq<char>, i32)> {
    if compiles("[0-9]+"@) {
        match prefix_match("[0-9]+"@, input) {
            Some((digits, rest)) => match decimal_i32(digits) {
                Some(number) => Some((rest, number)),
                None => None,
            },
            None => None,
        }
    } else {
        None
    }
}

/// Accepts an input that starts with decimal digits, and gives their value.
pub fn number_i32<'a>(input: &'a str) -> (r: ParseResult<'a, i32>)
    ensures
        match r {
            Ok((rest, number)) => number_at_start(input@) == Some((rest@, number)) && rest@.len()
                <= input@.len(),
            Err(at) => number_at_start(input@) is None && at == input,
        },
{
    match try_match_regex("[0-9]+", input) {
        Some(Ok((rest, digits))) => match parse_i32(digits.as_str()) {
            Some(number) => Ok((rest, number)),
            None => Err(input),
        },
        Some(Err(at)) => Err(at),
        None => Err(input),
    }
}

/// The parser of [`maybe`].
pub struct Maybe<P, R> {
    pub parser: P,
    pub value: R,
}

/// Applies `parser` and gives its value, or a clone of `value` where
/// `parser` rejects; either way as the one element of a vector.
pub fn maybe<'a, P, R>(parser: P, value: R) -> (p: Maybe<P, R>) where
    P: Parser<'a, R>,
    R: Clone,

    ensures
        p.parser == parser,
        p.value == value,
{
    Maybe { parser, value }
}

impl<'a, P, R> Parser<'a, Vec<R>> for Maybe<P, R> where P: Parser<'a, R>, R: Clone {
    open spec fn ready(&self, input: &'a str) -> bool {
        self.parser.ready(input)
    }

    open spec fn accepts(&self, input: &'a str, rest: &'a str, value: Vec<R>) -> bool {
        &&& value@.len() == 1
        &&& {
            ||| self.parser.accepts(input, rest, value@[0])
            ||| (exists|at: &'a str| self.parser.rejects(input, at)) && rest == input && cloned(
                self.value,
                value@[0],
            )
        }
    }

    open spec fn rejects(&self, input: &'a str, at: &'a str) -> bool {
        false
    }

    fn parse(&self, input: &'a str) -> (r: ParseResult<'a, Vec<R>>) {
        match self.parser.parse(input) {
            Ok((rest, value)) => Ok((rest, vec![value])),
            Err(_) => Ok((input, vec![self.value.clone()])),
        }
    }
}

/// `parser` was applied `items.len()` times in a row, starting at `input`
/// and ending at `rest`, consumed something each time and gave `items`.
pub open spec fn repeated<'a, P: Parser<'a, A>, A>(
    parser: &P,
    input: &'a str,
    rest: &'a str,
    items: Seq<A>,
) -> bool
    decreases items.len(),
{
    if items.len() == 0 {
        rest == input
    } else {
        exists|mid: &'a str|
            repeated(parser, input, mid, items.drop_last()) && #[trigger] parser.accepts(
                mid,
                rest,
                items.last(),
            ) && rest@.len() < mid@.len()
    }
}

/// A repetition of `parser` ends at `rest`: there it rejects, or accepts
/// without consuming anything.
pub open spec fn ends_at<'a, P: Parser<'a, A>, A>(parser: &P, rest: &'a str) -> bool {
    ||| exists|at: &'a str| parser.rejects(rest, at)
    ||| exists|next: &'a str, value: A| #[trigger]
        parser.accepts(rest, next, value) && next@.len() >= rest@.len()
}

/// The parser may be applied wherever a repetition that starts at `input`
/// gets to.
pub open spec fn ready_to_repeat<'a, P: Parser<'a, A>, A>(parser: &P, input: &'a str) -> bool {
    forall|rest: &'a str, items: Seq<A>| #[trigger]
        repeated(parser, input, rest, items) ==> parser.ready(rest)
}

/// Applies `parser` again and again and collects the values, until it
/// rejects or accepts without consuming anything.
fn repeat<'a, P, A>(parser: &P, start: &'a str, input: &'a str, results: Vec<A>) -> (r: (
    &'a str,
    Vec<A>,
)) where P: Parser<'a, A>
    requires
        ready_to_repeat(parser, start),
        repeated(parser, start, input, results@),
    ensures
        repeated(parser, start, r.0, r.1@),
        ends_at(parser, r.0),
{
    let mut results = results;
    let mut input = input;
    loop
        invariant
            ready_to_repeat(parser, start),
            repeated(parser, start, input, results@),
        decreases input@.len(),
    {
        let before: usize = input.unicode_len();
        match parser.parse(input) {
            Ok((next, item)) => {
                if next.unicode_len() >= before {
                    return (input, results);
                }
                let ghost so_far = results@;
                let ghost value = item;
                results.push(item);
                proof {
                    assert(results@.drop_last() =~= so_far);
                    assert(results@.last() == value);
                    assert(repeated(parser, start, input, results@.drop_last()));
                    assert(parser.accepts(input, next, results@.last()));
                }
                input = next;
            },
            Err(_) => {
                return (input, results);
            },
        }
    }
}

/// The parser of [`zero_or_more`].
pub struct ZeroOrMore<P> {
    pub parser: P,
}

/// Applies `parser` as often as it accepts and consumes something, and
/// gives the values in order. It accepts every input.
pub fn zero_or_more<'a, P, A>(parser: P) -> (p: ZeroOrMore<P>) where P: Parser<'a, A>
    ensures
        p.parser == parser,
{
    ZeroOrMore { parser }
}

impl<'a, P, A> Parser<'a, Vec<A>> for ZeroOrMore<P> where P: Parser<'a, A> {
    open spec fn ready(&self, input: &'a str) -> bool {
        ready_to_repeat(&self.parser, input)
    }

    open spec fn accepts(&self, input: &'a str, rest: &'a str, value: Vec<A>) -> bool {
        repeated(&self.parser, input, rest, value@) && ends_at(&self.parser, rest)
    }

    open spec fn rejects(&self, input: &'a str, at: &'a str) -> bool {
        false
    }

    fn parse(&self, input: &'a str) -> (r: ParseResult<'a, Vec<A>>) {
        let (rest, results) = repeat(&self.parser, input, input, Vec::new());
        Ok((rest, results))
    }
}

/// The parser of [`one_or_more`].
pub struct OneOrMore<P> {
    pub parser: P,
}

/// Applies `parser` once, and then as often as it accepts and consumes
/// something; gives the values in order.
pub fn one_or_more<'a, P, A>(parser: P) -> (p: OneOrMore<P>) where P: Parser<'a, A>
    ensures
        p.parser == parser,
{
    OneOrMore { parser }
}

impl<'a, P, A> Parser<'a, Vec<A>> for OneOrMore<P> where P: Parser<'a, A> {
    open spec fn ready(&self, input: &'a str) -> bool {
        &&& self.parser.ready(input)
        &&& forall|mid: &'a str, head: A| #[trigger]
            self.parser.accepts(input, mid, head) ==> ready_to_repeat(&self.parser, mid)
    }

    open spec fn accepts(&self, input: &'a str, rest: &'a str, value: Vec<A>) -> bool {
        &&& value@.len() >= 1
        &&& exists|mid: &'a str| #[trigger]
            self.parser.accepts(input, mid, value@[0]) && repeated(
                &self.parser,
                mid,
                rest,
                value@.skip(1),
            )
        &&& ends_at(&self.parser, rest)
    }

    open spec fn rejects(&self, input: &'a str, at: &'a str) -> bool {
        at == input && exists|gave_up: &'a str| self.parser.rejects(input, gave_up)
    }

    fn parse(&self, input: &'a str) -> (r: ParseResult<'a, Vec<A>>) {
        match self.parser.parse(input) {
            Ok((mid, head)) => {
                let (rest, tail) = repeat(&self.parser, mid, mid, Vec::new());
                let mut results: Vec<A> = Vec::new();
                results.push(head);
                let mut tail = tail;
                let ghost tail_items = tail@;
                results.append(&mut tail);
                proof {
                    assert(results@.skip(1) =~= tail_items);
                    assert(self.parser.accepts(input, mid, results@[0]));
                }
                Ok((rest, results))
            },
            Err(_) => Err(input),
        }
    }
}

/// The parser of [`pred`].
pub struct Pred<P, F> {
    pub parser: P,
    pub predicate: F,
}

/// Applies `parser` and accepts its value where `predicate` holds of it.
pub fn pred<'a, P, A, F>(parser: P, predicate: F) -> (p: Pred<P, F>) where
    P: Parser<'a, A>,
    F: Fn(&A) -> bool,

    ensures
        p.parser == parser,
        p.predicate == predicate,
{
    Pred { parser, predicate }
}

impl<'a, P, A, F> Parser<'a, A> for Pred<P, F> where P: Parser<'a, A>, F: Fn(&A) -> bool {
    open spec fn ready(&self, input: &'a str) -> bool {
        &&& self.parser.ready(input)
        &&& forall|rest: &'a str, value: A| #[trigger]
            self.parser.accepts(input, rest, value) ==> call_requires(self.predicate, (&value,))
    }

    open spec fn accepts(&self, input: &'a str, rest: &'a str, value: A) -> bool {
        self.parser.accepts(input, rest, value) && call_ensures(self.predicate, (&value,), true)
    }

    open spec fn rejects(&self, input: &'a str, at: &'a str) -> bool {
        &&& at == input
        &&& {
            ||| exists|gave_up: &'a str| self.parser.rejects(input, gave_up)
            ||| exists|rest: &'a str, value: A| #[trigger]
                self.parser.accepts(input, rest, value) && call_ensures(
                    self.predicate,
                    (&value,),
                    false,
                )
        }
    }

    fn parse(&self, input: &'a str) -> (r: ParseResult<'a, A>) {
        match self.parser.parse(input) {
            Ok((rest, value)) => {
                if (self.predicate)(&value) {
                    Ok((rest, value))
                } else {
                    Err(input)
                }
            },
            Err(_) => Err(input),
        }
    }
}

/// The parser of [`whitespace_char`].
pub struct WhitespaceChar;

/// Accepts one whitespace character.
pub fn whitespace_char() -> (p: WhitespaceChar)
    ensures
        p == WhitespaceChar,
{
    WhitespaceChar
}

impl<'a> Parser<'a, char> for WhitespaceChar {
    open spec fn ready(&self, input: &'a str) -> bool {
        true
    }

    open spec fn accepts(&self, input: &'a str, rest: &'a str, value: char) -> bool {
        &&& input@.len() > 0
        &&& char_is_whitespace(input@[0])
        &&& value == input@[0]
        &&& rest@ == input@.skip(1)
    }

    open spec fn rejects(&self, input: &'a str, at: &'a str) -> bool {
        !(input@.len() > 0 && char_is_whitespace(input@[0])) && at == input
    }

    fn parse(&self, input: &'a str) -> (r: ParseResult<'a, char>) {
        match any_char(input) {
            Ok((rest, c)) => {
                if c.is_whitespace() {
                    Ok((rest, c))
                } else {
                    Err(input)
                }
            },
            Err(_) => Err(input),
        }
    }
}

/// Any number of whitespace characters.
pub fn space0() -> (p: ZeroOrMore<WhitespaceChar>)
    ensures
        p == (ZeroOrMore { parser: WhitespaceChar }),
{
    zero_or_more(whitespace_char())
}

/// At least one whitespace character.
pub fn space1() -> (p: OneOrMore<WhitespaceChar>)
    ensures
        p == (OneOrMore { parser: WhitespaceChar }),
{
    one_or_more(whitespace_char())
}

/// The parser of [`either`] and of [`or`].
pub struct Either<Fst, Snd> {
    pub first: Fst,
    pub second: Snd,
}

/// Applies `parser1`, and where it rejects, `parser2` to the same input.
pub fn either<'a, Fst, Snd, A>(parser1: Fst, parser2: Snd) -> (p: Either<Fst, Snd>) where
    Fst: Parser<'a, A>,
    Snd: Parser<'a, A>,

    ensures
        p.first == parser1,
        p.second == parser2,
{
    Either { first: parser1, second: parser2 }
}

/// Applies `parser1`, and where it rejects, `parser2` to the same input:
/// however far `parser1` got before it gave up, `parser2` starts where
/// `parser1` started.
pub fn or<'a, Fst, Snd, R>(parser1: Fst, parser2: Snd) -> (p: Either<Fst, Snd>) where
    Fst: Parser<'a, R>,
    Snd: Parser<'a, R>,

    ensures
        p.first == parser1,
        p.second == parser2,
{
    Either { first: parser1, second: parser2 }
}

impl<'a, Fst, Snd, A> Parser<'a, A> for Either<Fst, Snd> where Fst: Parser<'a, A>, Snd: Parser<'a, A> {
    open spec fn ready(&self, input: &'a str) -> bool {
        &&& self.first.ready(input)
        &&& (exists|at: &'a str| self.first.rejects(input, at)) ==> self.second.ready(input)
    }

    open spec fn accepts(&self, input: &'a str, rest: &'a str, value: A) -> bool {
        ||| self.first.accepts(input, rest, value)
        ||| (exists|at: &'a str| self.first.rejects(input, at)) && self.second.accepts(
            input,
            rest,
            value,
        )
    }

    open spec fn rejects(&self, input: &'a str, at: &'a str) -> bool {
        (exists|gave_up: &'a str| self.first.rejects(input, gave_up)) && self.second.rejects(
            input,
            at,
        )
    }

    fn parse(&self, input: &'a str) -> (r: ParseResult<'a, A>) {
        match self.first.parse(input) {
            Ok((rest, value)) => Ok((rest, value)),
            Err(_) => self.second.parse(input),
        }
    }
}

/// The parser of [`and_right`].
pub struct AndRight<Fst, Snd, R1> {
    pub first: Fst,
    pub second: Snd,
    pub dropped: PhantomData<R1>,
}

/// Applies `parser1`, then `parser2`, and gives the value of `parser2`.
/// Where `parser1` rejects, the whole gives up at its own input.
pub fn and_right<'a, Fst, Snd, R1, R2>(parser1: Fst, parser2: Snd) -> (p: AndRight<Fst, Snd, R1>) where
    Fst: Parser<'a, R1>,
    Snd: Parser<'a, R2>,

    ensures
        p.first == parser1,
        p.second == parser2,
{
    AndRight { first: parser1, second: parser2, dropped: PhantomData }
}

impl<'a, Fst, Snd, R1, R2> Parser<'a, R2> for AndRight<Fst, Snd, R1> where
    Fst: Parser<'a, R1>,
    Snd: Parser<'a, R2>,
 {
    open spec fn ready(&self, input: &'a str) -> bool {
        &&& self.first.ready(input)
        &&& forall|mid: &'a str, a: R1| #[trigger]
            self.first.accepts(input, mid, a) ==> self.second.ready(mid)
    }

    open spec fn accepts(&self, input: &'a str, rest: &'a str, value: R2) -> bool {
        exists|mid: &'a str, a: R1| #[trigger]
            self.first.accepts(input, mid, a) && self.second.accepts(mid, rest, value)
    }

    open spec fn rejects(&self, input: &'a str, at: &'a str) -> bool {
        ||| at == input && exists|gave_up: &'a str| self.first.rejects(input, gave_up)
        ||| exists|mid: &'a str, a: R1| #[trigger]
            self.first.accepts(input, mid, a) && self.second.rejects(mid, at)
    }

    fn parse(&self, input: &'a str) -> (r: ParseResult<'a, R2>) {
        match self.first.parse(input) {
            Ok((mid, _)) => self.second.parse(mid),
            Err(_) => Err(input),
        }
    }
}

/// The parser of [`and_then`].
pub struct AndThen<P, F, A> {
    pub parser: P,
    pub f: F,
    pub from: PhantomData<A>,
}

/// Applies `parser`, hands its value to `f`, and applies the parser that
/// `f` gives to what is left.
pub fn and_then<'a, P, F, A, B, NextParser>(parser: P, f: F) -> (p: AndThen<P, F, A>) where
    P: Parser<'a, A>,
    NextParser: Parser<'a, B>,
    F: Fn(A) -> NextParser,

    ensures
        p.parser == parser,
        p.f == f,
{
    AndThen { parser, f, from: PhantomData }
}

impl<'a, P, F, A, B, NextParser> Parser<'a, B> for AndThen<P, F, A> where
    P: Parser<'a, A>,
    NextParser: Parser<'a, B>,
    F: Fn(A) -> NextParser,
 {
    open spec fn ready(&self, input: &'a str) -> bool {
        &&& self.parser.ready(input)
        &&& forall|mid: &'a str, a: A| #[trigger]
            self.parser.accepts(input, mid, a) ==> call_requires(self.f, (a,))
        &&& forall|mid: &'a str, a: A, next: NextParser|
            self.parser.accepts(input, mid, a) && #[trigger] call_ensures(self.f, (a,), next)
                ==> #[trigger] next.ready(mid)
    }

    open spec fn accepts(&self, input: &'a str, rest: &'a str, value: B) -> bool {
        exists|mid: &'a str, a: A, next: NextParser|
            self.parser.accepts(input, mid, a) && #[trigger] call_ensures(self.f, (a,), next)
                && #[trigger] next.accepts(mid, rest, value)
    }

    open spec fn rejects(&self, input: &'a str, at: &'a str) -> bool {
        ||| self.parser.rejects(input, at)
        ||| exists|mid: &'a str, a: A, next: NextParser|
            self.parser.accepts(input, mid, a) && #[trigger] call_ensures(self.f, (a,), next)
                && #[trigger] next.rejects(mid, at)
    }

    fn parse(&self, input: &'a str) -> (r: ParseResult<'a, B>) {
        match self.parser.parse(input) {
            Ok((mid, a)) => {
                let next = (self.f)(a);
                next.parse(mid)
            },
            Err(at) => Err(at),
        }
    }
}

/// Applies `parser` between two runs of whitespace.
pub fn whitespace_wrap<'a, P, A>(parser: P) -> (p: Right<
    ZeroOrMore<WhitespaceChar>,
    Left<P, ZeroOrMore<WhitespaceChar>, Vec<char>>,
    Vec<char>,
>) where P: Parser<'a, A>
    ensures
        p.first == (ZeroOrMore { parser: WhitespaceChar }),
        p.second.first == parser,
        p.second.second == (ZeroOrMore { parser: WhitespaceChar }),
{
    right(space0(), left(parser, space0()))
}

/// The combinators as methods of every parser.
pub trait ParserExt<'a, Output>: Parser<'a, Output> + Sized {
    fn map<F, NewOutput>(self, map_fn: F) -> (p: Mapped<Self, F, Output>) where
        F: Fn(Output) -> NewOutput,

        ensures
            p.parser == self,
            p.map_fn == map_fn,
    ;

    fn pred<F>(self, predicate: F) -> (p: Pred<Self, F>) where F: Fn(&Output) -> bool
        ensures
            p.parser == self,
            p.predicate == predicate,
    ;

    fn and_then<F, NextParser, NewOutput>(self, f: F) -> (p: AndThen<Self, F, Output>) where
        NextParser: Parser<'a, NewOutput>,
        F: Fn(Output) -> NextParser,

        ensures
            p.parser == self,
            p.f == f,
    ;

    fn or<P>(self, parser2: P) -> (p: Either<Self, P>) where P: Parser<'a, Output>
        ensures
            p.first == self,
            p.second == parser2,
    ;

    fn and_right<P, NewOutput>(self, parser2: P) -> (p: AndRight<Self, P, Output>) where
        P: Parser<'a, NewOutput>,

        ensures
            p.first == self,
            p.second == parser2,
    ;

    fn and_left<P, NewOutput>(self, parser2: P) -> (p: Left<Self, P, NewOutput>) where
        P: Parser<'a, NewOutput>,

        ensures
            p.first == self,
            p.second == parser2,
    ;

    fn and_tuple<P, NewOutput>(self, parser2: P) -> (p: Pair<Self, P>) where
        P: Parser<'a, NewOutput>,

        ensures
            p.first == self,
            p.second == parser2,
    ;
}

impl<'a, Output, T: Parser<'a, Output>> ParserExt<'a, Output> for T {
    fn map<F, NewOutput>(self, map_fn: F) -> (p: Mapped<Self, F, Output>) where
        F: Fn(Output) -> NewOutput,
     {
        self::map(self, map_fn)
    }

    fn pred<F>(self, predicate: F) -> (p: Pred<Self, F>) where F: Fn(&Output) -> bool {
        self::pred(self, predicate)
    }

    fn and_then<F, NextParser, NewOutput>(self, f: F) -> (p: AndThen<Self, F, Output>) where
        NextParser: Parser<'a, NewOutput>,
        F: Fn(Output) -> NextParser,
     {
        self::and_then(self, f)
    }

    fn or<P>(self, parser2: P) -> (p: Either<Self, P>) where P: Parser<'a, Output> {
        self::or(self, parser2)
    }

    fn and_right<P, NewOutput>(self, parser2: P) -> (p: AndRight<Self, P, Output>) where
        P: Parser<'a, NewOutput>,
     {
        self::and_right(self, parser2)
    }

    fn and_left<P, NewOutput>(self, parser2: P) -> (p: Left<Self, P, NewOutput>) where
        P: Parser<'a, NewOutput>,
     {
        self::left(self, parser2)
    }

    fn and_tuple<P, NewOutput>(self, parser2: P) -> (p: Pair<Self, P>) where
        P: Parser<'a, NewOutput>,
     {
        self::pair(self, parser2)
    }
}

} // verus!
