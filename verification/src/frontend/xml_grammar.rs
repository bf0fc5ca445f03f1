//! The grammar of a small subset of XML: elements with attributes and child
//! elements, no text.
//!
//! ```text
//! element   := space* (single | parent) space*
//! single    := "<" NAME attribute* "/>"
//! parent    := "<" NAME attribute* ">" element* "</" NAME ">"
//! attribute := space+ NAME "=" '"' CHARS '"'
//! ```
//!
//! The name in the closing tag of a parent is the name in its opening tag.

use super::parser::{identified, unquoted_len, Outcome};
use crate::text::{leading_whitespace, lemma_leading_whitespace_bound, trimmed_start};
use vstd::prelude::*;

verus! {

/// The mathematical value of an element.
pub struct ElementView {
    pub name: Seq<char>,
    pub attrs: Seq<(Seq<char>, Seq<char>)>,
    pub children: Seq<ElementView>,
}

/// A name and the attributes after it.
pub type Tag = (Seq<char>, Seq<(Seq<char>, Seq<char>)>);

/// The input after `text`, if it starts with it.
pub open spec fn after_literal(text: Seq<char>, input: Seq<char>) -> Option<Seq<char>> {
    if text.is_prefix_of(input) {
        Some(input.skip(text.len() as int))
    } else {
        None
    }
}

/// A text between double quotes.
pub open spec fn quoted_string(input: Seq<char>) -> Outcome<Seq<char>> {
    match after_literal("\""@, input) {
        Some(body) => {
            let end = body.skip(unquoted_len(body));
            match after_literal("\""@, end) {
                Some(rest) => Outcome::Matched { rest, value: body.take(unquoted_len(body)) },
                None => Outcome::NoMatch { at: end },
            }
        },
        None => Outcome::NoMatch { at: input },
    }
}

/// A name, `=` and a quoted value.
pub open spec fn attribute_pair(input: Seq<char>) -> Outcome<(Seq<char>, Seq<char>)> {
    match identified(input) {
        Outcome::Matched { rest, value: name } => match after_literal("="@, rest) {
            Some(rest) => match quoted_string(rest) {
                Outcome::Matched { rest, value } => Outcome::Matched { rest, value: (name, value) },
                Outcome::NoMatch { at } => Outcome::NoMatch { at },
            },
            None => Outcome::NoMatch { at: rest },
        },
        Outcome::NoMatch { at } => Outcome::NoMatch { at },
    }
}

/// An attribute after at least one whitespace character.
pub open spec fn spaced_attribute(input: Seq<char>) -> Outcome<(Seq<char>, Seq<char>)> {
    if leading_whitespace(input) == 0 {
        Outcome::NoMatch { at: input }
    } else {
        attribute_pair(trimmed_start(input))
    }
}

/// The attributes from `input` on, after those in `seen`, and the input
/// after the last of them.
pub open spec fn attributes(input: Seq<char>, seen: Seq<(Seq<char>, Seq<char>)>) -> (
    Seq<(Seq<char>, Seq<char>)>,
    Seq<char>,
)
    decreases input.len(),
{
    match spaced_attribute(input).progress(input) {
        Outcome::Matched { rest, value } => attributes(rest, seen.push(value)),
        Outcome::NoMatch { .. } => (seen, input),
    }
}

/// `<`, a name and attributes: what every tag but a closing one starts with.
pub open spec fn element_start(input: Seq<char>) -> Outcome<Tag> {
    match after_literal("<"@, input) {
        Some(rest) => match identified(rest) {
            Outcome::Matched { rest, value: name } => {
                let (attrs, rest) = attributes(rest, Seq::empty());
                Outcome::Matched { rest, value: (name, attrs) }
            },
            Outcome::NoMatch { at } => Outcome::NoMatch { at },
        },
        None => Outcome::NoMatch { at: input },
    }
}

/// What starts an element and `end` after it.
pub open spec fn tag(end: Seq<char>, input: Seq<char>) -> Outcome<Tag> {
    match element_start(input) {
        Outcome::Matched { rest, value } => match after_literal(end, rest) {
            Some(rest) => Outcome::Matched { rest, value },
            None => Outcome::NoMatch { at: rest },
        },
        Outcome::NoMatch { at } => Outcome::NoMatch { at },
    }
}

/// An element without children, in one tag.
pub open spec fn single_element(input: Seq<char>) -> Outcome<ElementView> {
    match tag("/>"@, input) {
        Outcome::Matched { rest, value } => Outcome::Matched {
            rest,
            value: ElementView { name: value.0, attrs: value.1, children: Seq::empty() },
        },
        Outcome::NoMatch { at } => Outcome::NoMatch { at },
    }
}

/// The opening tag of an element with children.
pub open spec fn open_element(input: Seq<char>) -> Outcome<ElementView> {
    match tag(">"@, input) {
        Outcome::Matched { rest, value } => Outcome::Matched {
            rest,
            value: ElementView { name: value.0, attrs: value.1, children: Seq::empty() },
        },
        Outcome::NoMatch { at } => Outcome::NoMatch { at },
    }
}

/// The closing tag with the name `expected`.
pub open spec fn close_element(expected: Seq<char>, input: Seq<char>) -> Outcome<Seq<char>> {
    match after_literal("</"@, input) {
        Some(rest) => match identified(rest) {
            Outcome::Matched { rest, value: name } => match after_literal(">"@, rest) {
                Some(rest) => if name == expected {
                    Outcome::Matched { rest, value: name }
                } else {
                    Outcome::NoMatch { at: input }
                },
                None => Outcome::NoMatch { at: input },
            },
            Outcome::NoMatch { .. } => Outcome::NoMatch { at: input },
        },
        None => Outcome::NoMatch { at: input },
    }
}

/// The elements from `input` on, after those in `seen`, and the input after
/// the last of them.
pub open spec fn children(input: Seq<char>, seen: Seq<ElementView>) -> (
    Seq<ElementView>,
    Seq<char>,
)
    decreases input.len(), 2nat,
{
    match element(input).progress(input) {
        Outcome::Matched { rest, value } => children(rest, seen.push(value)),
        Outcome::NoMatch { .. } => (seen, input),
    }
}

/// An element with an opening tag, child elements and a closing tag.
pub open spec fn parent_element(input: Seq<char>) -> Outcome<ElementView>
    decreases input.len(), 0nat,
{
    match open_element(input).progress(input) {
        Outcome::Matched { rest, value: opened } => {
            let (kids, end) = children(rest, Seq::empty());
            match close_element(opened.name, end) {
                Outcome::Matched { rest, .. } => Outcome::Matched {
                    rest,
                    value: ElementView { children: kids, ..opened },
                },
                Outcome::NoMatch { at } => Outcome::NoMatch { at },
            }
        },
        Outcome::NoMatch { at } => Outcome::NoMatch { at },
    }
}

/// An element, with whitespace before and after it.
pub open spec fn element(input: Seq<char>) -> Outcome<ElementView>
    decreases input.len(), 1nat,
{
    proof {
        lemma_leading_whitespace_bound(input);
    }
    let start = trimmed_start(input);
    let found = match single_element(start) {
        Outcome::Matched { rest, value } => Outcome::Matched { rest, value },
        Outcome::NoMatch { .. } => parent_element(start),
    };
    match found {
        Outcome::Matched { rest, value } => Outcome::Matched { rest: trimmed_start(rest), value },
        Outcome::NoMatch { at } => Outcome::NoMatch { at },
    }
}

} // verus!
