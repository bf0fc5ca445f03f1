//! The definitions of the combinators, as facts about every parser built
//! with them.
//!
//! What a parser accepts and rejects is defined with the parser. Where a
//! parser is a function, or is built from functions and closures, these
//! lemmas state the same definitions of it.

use super::parser::{
    ends_at, ready_to_repeat, repeated, AndRight, AndThen, BoxedParser, Constant, Either, Left,
    Mapped, Maybe, OneOrMore, Pair, ParseResult, Parser, Pred, Right, ZeroOrMore,
};
use vstd::prelude::*;

verus! {

/// A function is a parser that is ready where its precondition holds, and
/// accepts and rejects as it can return.
pub proof fn lemma_function<'a, F, Output>(f: F) where
    F: Fn(&'a str) -> ParseResult<'a, Output>,

    ensures
        forall|input: &'a str| #[trigger] f.ready(input) <==> call_requires(f, (input,)),
        forall|input: &'a str, rest: &'a str, value: Output| #[trigger]
            f.accepts(input, rest, value) <==> call_ensures(f, (input,), Ok((rest, value))),
        forall|input: &'a str, at: &'a str| #[trigger]
            f.rejects(input, at) <==> call_ensures(f, (input,), Err(at)),
{
}

/// What [`BoxedParser::new`] builds is ready for, accepts and rejects what its
/// definition says, whatever parsers and functions it is built from.
pub proof fn lemma_boxed<'a, Output, P: Parser<'a, Output>>(p: BoxedParser<P>)
    ensures
        forall|input: &'a str| #[trigger] p.ready(input) <==> ({
            p.p.ready(input)
        }),
        forall|input: &'a str, rest: &'a str, value: Output| #[trigger]
            p.accepts(input, rest, value) <==> ({
            p.p.accepts(input, rest, value)
        }),
        forall|input: &'a str, at: &'a str| #[trigger] p.rejects(input, at) <==> ({
            p.p.rejects(input, at)
        }),
{
}

/// What [`pair`] builds is ready for, accepts and rejects what its
/// definition says, whatever parsers and functions it is built from.
pub proof fn lemma_pair<'a, Fst, Snd, R1, R2>(p: Pair<Fst, Snd>) where
    Fst: Parser<'a, R1>,
    Snd: Parser<'a, R2>,

    ensures
        forall|input: &'a str| #[trigger] p.ready(input) <==> ({
            &&& p.first.ready(input)
            &&& forall|mid: &'a str, a: R1| #[trigger]
                p.first.accepts(input, mid, a) ==> p.second.ready(mid)
        }),
        forall|input: &'a str, rest: &'a str, value: (R1, R2)| #[trigger]
            p.accepts(input, rest, value) <==> ({
            exists|mid: &'a str| #[trigger]
                p.first.accepts(input, mid, value.0) && p.second.accepts(mid, rest, value.1)
        }),
        forall|input: &'a str, at: &'a str| #[trigger] p.rejects(input, at) <==> ({
            ||| p.first.rejects(input, at)
            ||| exists|mid: &'a str, a: R1| #[trigger]
                p.first.accepts(input, mid, a) && p.second.rejects(mid, at)
        }),
{
}

/// What [`map`] builds is ready for, accepts and rejects what its
/// definition says, whatever parsers and functions it is built from.
pub proof fn lemma_map<'a, P, F, A, B>(p: Mapped<P, F, A>) where
    P: Parser<'a, A>,
    F: Fn(A) -> B,

    ensures
        forall|input: &'a str| #[trigger] p.ready(input) <==> ({
            &&& p.parser.ready(input)
            &&& forall|rest: &'a str, a: A| #[trigger]
                p.parser.accepts(input, rest, a) ==> call_requires(p.map_fn, (a,))
        }),
        forall|input: &'a str, rest: &'a str, value: B| #[trigger]
            p.accepts(input, rest, value) <==> ({
            exists|a: A| #[trigger]
                p.parser.accepts(input, rest, a) && call_ensures(p.map_fn, (a,), value)
        }),
        forall|input: &'a str, at: &'a str| #[trigger] p.rejects(input, at) <==> ({
            p.parser.rejects(input, at)
        }),
{
}

/// What [`left`] builds is ready for, accepts and rejects what its
/// definition says, whatever parsers and functions it is built from.
pub proof fn lemma_left<'a, Fst, Snd, R1, R2>(p: Left<Fst, Snd, R2>) where
    Fst: Parser<'a, R1>,
    Snd: Parser<'a, R2>,

    ensures
        forall|input: &'a str| #[trigger] p.ready(input) <==> ({
            &&& p.first.ready(input)
            &&& forall|mid: &'a str, a: R1| #[trigger]
                p.first.accepts(input, mid, a) ==> p.second.ready(mid)
        }),
        forall|input: &'a str, rest: &'a str, value: R1| #[trigger]
            p.accepts(input, rest, value) <==> ({
            exists|mid: &'a str, b: R2| #[trigger]
                p.second.accepts(mid, rest, b) && p.first.accepts(input, mid, value)
        }),
        forall|input: &'a str, at: &'a str| #[trigger] p.rejects(input, at) <==> ({
            ||| p.first.rejects(input, at)
            ||| exists|mid: &'a str, a: R1| #[trigger]
                p.first.accepts(input, mid, a) && p.second.rejects(mid, at)
        }),
{
}

/// What [`right`] builds is ready for, accepts and rejects what its
/// definition says, whatever parsers and functions it is built from.
pub proof fn lemma_right<'a, Fst, Snd, R1, R2>(p: Right<Fst, Snd, R1>) where
    Fst: Parser<'a, R1>,
    Snd: Parser<'a, R2>,

    ensures
        forall|input: &'a str| #[trigger] p.ready(input) <==> ({
            &&& p.first.ready(input)
            &&& forall|mid: &'a str, a: R1| #[trigger]
                p.first.accepts(input, mid, a) ==> p.second.ready(mid)
        }),
        forall|input: &'a str, rest: &'a str, value: R2| #[trigger]
            p.accepts(input, rest, value) <==> ({
            exists|mid: &'a str, a: R1| #[trigger]
                p.first.accepts(input, mid, a) && p.second.accepts(mid, rest, value)
        }),
        forall|input: &'a str, at: &'a str| #[trigger] p.rejects(input, at) <==> ({
            ||| p.first.rejects(input, at)
            ||| exists|mid: &'a str, a: R1| #[trigger]
                p.first.accepts(input, mid, a) && p.second.rejects(mid, at)
        }),
{
}

/// What [`constant`] builds is ready for, accepts and rejects what its
/// definition says, whatever parsers and functions it is built from.
pub proof fn lemma_constant<'a, U: Clone>(p: Constant<U>)
    ensures
        forall|input: &'a str| #[trigger] p.ready(input) <==> ({
            true
        }),
        forall|input: &'a str, rest: &'a str, value: U| #[trigger]
            p.accepts(input, rest, value) <==> ({
            rest == input && cloned(p.value, value)
        }),
        forall|input: &'a str, at: &'a str| #[trigger] p.rejects(input, at) <==> ({
            false
        }),
{
}

/// What [`maybe`] builds is ready for, accepts and rejects what its
/// definition says, whatever parsers and functions it is built from.
pub proof fn lemma_maybe<'a, P, R>(p: Maybe<P, R>) where
    P: Parser<'a, R>,
    R: Clone,

    ensures
        forall|input: &'a str| #[trigger] p.ready(input) <==> ({
            p.parser.ready(input)
        }),
        forall|input: &'a str, rest: &'a str, value: Vec<R>| #[trigger]
            p.accepts(input, rest, value) <==> ({
            &&& value@.len() == 1
            &&& {
                ||| p.parser.accepts(input, rest, value@[0])
                ||| (exists|at: &'a str| p.parser.rejects(input, at)) && rest == input && cloned(
                    p.value,
                    value@[0],
                )
            }
        }),
        forall|input: &'a str, at: &'a str| #[trigger] p.rejects(input, at) <==> ({
            false
        }),
{
}

/// What [`zero_or_more`] builds is ready for, accepts and rejects what its
/// definition says, whatever parsers and functions it is built from.
pub proof fn lemma_zero_or_more<'a, P, A>(p: ZeroOrMore<P>) where
    P: Parser<'a, A>,

    ensures
        forall|input: &'a str| #[trigger] p.ready(input) <==> ({
            ready_to_repeat(&p.parser, input)
        }),
        forall|input: &'a str, rest: &'a str, value: Vec<A>| #[trigger]
            p.accepts(input, rest, value) <==> ({
            repeated(&p.parser, input, rest, value@) && ends_at(&p.parser, rest)
        }),
        forall|input: &'a str, at: &'a str| #[trigger] p.rejects(input, at) <==> ({
            false
        }),
{
}

/// What [`one_or_more`] builds is ready for, accepts and rejects what its
/// definition says, whatever parsers and functions it is built from.
pub proof fn lemma_one_or_more<'a, P, A>(p: OneOrMore<P>) where
    P: Parser<'a, A>,

    ensures
        forall|input: &'a str| #[trigger] p.ready(input) <==> ({
            &&& p.parser.ready(input)
            &&& forall|mid: &'a str, head: A| #[trigger]
                p.parser.accepts(input, mid, head) ==> ready_to_repeat(&p.parser, mid)
        }),
        forall|input: &'a str, rest: &'a str, value: Vec<A>| #[trigger]
            p.accepts(input, rest, value) <==> ({
            &&& value@.len() >= 1
            &&& exists|mid: &'a str| #[trigger]
                p.parser.accepts(input, mid, value@[0]) && repeated(
                    &p.parser,
                    mid,
                    rest,
                    value@.skip(1),
                )
            &&& ends_at(&p.parser, rest)
        }),
        forall|input: &'a str, at: &'a str| #[trigger] p.rejects(input, at) <==> ({
            at == input && exists|gave_up: &'a str| p.parser.rejects(input, gave_up)
        }),
{
}

/// What [`pred`] builds is ready for, accepts and rejects what its
/// definition says, whatever parsers and functions it is built from.
pub proof fn lemma_pred<'a, P, A, F>(p: Pred<P, F>) where
    P: Parser<'a, A>,
    F: Fn(&A) -> bool,

    ensures
        forall|input: &'a str| #[trigger] p.ready(input) <==> ({
            &&& p.parser.ready(input)
            &&& forall|rest: &'a str, value: A| #[trigger]
                p.parser.accepts(input, rest, value) ==> call_requires(p.predicate, (&value,))
        }),
        forall|input: &'a str, rest: &'a str, value: A| #[trigger]
            p.accepts(input, rest, value) <==> ({
            p.parser.accepts(input, rest, value) && call_ensures(p.predicate, (&value,), true)
        }),
        forall|input: &'a str, at: &'a str| #[trigger] p.rejects(input, at) <==> ({
            &&& at == input
            &&& {
                ||| exists|gave_up: &'a str| p.parser.rejects(input, gave_up)
                ||| exists|rest: &'a str, value: A| #[trigger]
                    p.parser.accepts(input, rest, value) && call_ensures(
                        p.predicate,
                        (&value,),
                        false,
                    )
            }
        }),
{
}

/// What [`either`] and [`or`] builds is ready for, accepts and rejects what its
/// definition says, whatever parsers and functions it is built from.
pub proof fn lemma_either<'a, Fst, Snd, A>(p: Either<Fst, Snd>) where
    Fst: Parser<'a, A>,
    Snd: Parser<'a, A>,

    ensures
        forall|input: &'a str| #[trigger] p.ready(input) <==> ({
            &&& p.first.ready(input)
            &&& (exists|at: &'a str| p.first.rejects(input, at)) ==> p.second.ready(input)
        }),
        forall|input: &'a str, rest: &'a str, value: A| #[trigger]
            p.accepts(input, rest, value) <==> ({
            ||| p.first.accepts(input, rest, value)
            ||| (exists|at: &'a str| p.first.rejects(input, at)) && p.second.accepts(
                input,
                rest,
                value,
            )
        }),
        forall|input: &'a str, at: &'a str| #[trigger] p.rejects(input, at) <==> ({
            (exists|gave_up: &'a str| p.first.rejects(input, gave_up)) && p.second.rejects(
                input,
                at,
            )
        }),
{
}

/// What [`and_right`] builds is ready for, accepts and rejects what its
/// definition says, whatever parsers and functions it is built from.
pub proof fn lemma_and_right<'a, Fst, Snd, R1, R2>(p: AndRight<Fst, Snd, R1>) where
    Fst: Parser<'a, R1>,
    Snd: Parser<'a, R2>,

    ensures
        forall|input: &'a str| #[trigger] p.ready(input) <==> ({
            &&& p.first.ready(input)
            &&& forall|mid: &'a str, a: R1| #[trigger]
                p.first.accepts(input, mid, a) ==> p.second.ready(mid)
        }),
        forall|input: &'a str, rest: &'a str, value: R2| #[trigger]
            p.accepts(input, rest, value) <==> ({
            exists|mid: &'a str, a: R1| #[trigger]
                p.first.accepts(input, mid, a) && p.second.accepts(mid, rest, value)
        }),
        forall|input: &'a str, at: &'a str| #[trigger] p.rejects(input, at) <==> ({
            ||| at == input && exists|gave_up: &'a str| p.first.rejects(input, gave_up)
            ||| exists|mid: &'a str, a: R1| #[trigger]
                p.first.accepts(input, mid, a) && p.second.rejects(mid, at)
        }),
{
}

/// What [`and_then`] builds is ready for, accepts and rejects what its
/// definition says, whatever parsers and functions it is built from.
pub proof fn lemma_and_then<'a, P, F, A, B, NextParser>(p: AndThen<P, F, A>) where
    P: Parser<'a, A>,
    NextParser: Parser<'a, B>,
    F: Fn(A) -> NextParser,

    ensures
        forall|input: &'a str| #[trigger] p.ready(input) <==> ({
            &&& p.parser.ready(input)
            &&& forall|mid: &'a str, a: A| #[trigger]
                p.parser.accepts(input, mid, a) ==> call_requires(p.f, (a,))
            &&& forall|mid: &'a str, a: A, next: NextParser|
                p.parser.accepts(input, mid, a) && #[trigger] call_ensures(p.f, (a,), next)
                    ==> #[trigger] next.ready(mid)
        }),
        forall|input: &'a str, rest: &'a str, value: B| #[trigger]
            p.accepts(input, rest, value) <==> ({
            exists|mid: &'a str, a: A, next: NextParser|
                p.parser.accepts(input, mid, a) && #[trigger] call_ensures(p.f, (a,), next)
                    && #[trigger] next.accepts(mid, rest, value)
        }),
        forall|input: &'a str, at: &'a str| #[trigger] p.rejects(input, at) <==> ({
            ||| p.parser.rejects(input, at)
            ||| exists|mid: &'a str, a: A, next: NextParser|
                p.parser.accepts(input, mid, a) && #[trigger] call_ensures(p.f, (a,), next)
                    && #[trigger] next.rejects(mid, at)
        }),
{
}

/// What a repetition is, for every parser: no application leaves the
/// input as it is; one more application goes on from where the ones before
/// it ended, consumes something and gives the last value. It ends where the
/// parser rejects or consumes nothing, and may start where the parser is
/// ready wherever it gets to.
pub proof fn lemma_repeated<'a, P, A>(parser: &P) where P: Parser<'a, A>
    ensures
        forall|input: &'a str, rest: &'a str, items: Seq<A>| #[trigger]
            repeated(parser, input, rest, items) <==> (if items.len() == 0 {
                rest == input
            } else {
                exists|mid: &'a str|
                    repeated(parser, input, mid, items.drop_last()) && #[trigger] parser.accepts(
                        mid,
                        rest,
                        items.last(),
                    ) && rest@.len() < mid@.len()
            }),
        forall|rest: &'a str| #[trigger]
            ends_at(parser, rest) <==> ({
                ||| exists|at: &'a str| parser.rejects(rest, at)
                ||| exists|next: &'a str, value: A| #[trigger]
                    parser.accepts(rest, next, value) && next@.len() >= rest@.len()
            }),
        forall|input: &'a str| #[trigger]
            ready_to_repeat(parser, input) <==> (forall|rest: &'a str, items: Seq<A>| #[trigger]
                repeated(parser, input, rest, items) ==> parser.ready(rest)),
{
}

} // verus!
