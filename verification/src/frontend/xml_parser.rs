//! A parser of a small subset of XML, built on the same parsers as the
//! parser of the language: elements with attributes and child elements.

use super::parser::{
    identifier, literal, no_longer, text_outcome, until_quote, Outcome, ParseResult, Parser,
};
use super::xml_grammar;
use super::xml_grammar::{ElementView, Tag};
use crate::text::{lemma_leading_whitespace_bound, trim_start};
use vstd::prelude::*;

verus! {

/// An element: its name, its attributes in the order in which they stand,
/// and its child elements.
#[derive(Debug, PartialEq, Eq)]
pub struct Element {
    pub name: String,
    pub attrs: Vec<(String, String)>,
    pub children: Vec<Element>,
}

/// The values of attributes.
pub open spec fn attrs_view(attrs: Seq<(String, String)>) -> Seq<(Seq<char>, Seq<char>)> {
    attrs.map_values(|a: (String, String)| (a.0@, a.1@))
}

/// The values of elements.
pub open spec fn elements_view(elements: Seq<Element>) -> Seq<ElementView> {
    elements.map_values(|e: Element| e@)
}

impl Element {
    /// The value of this element; `@` gives the same.
    pub open spec fn value(&self) -> ElementView
        decreases self,
    {
        ElementView {
            name: self.name@,
            attrs: attrs_view(self.attrs@),
            children: Seq::new(
                self.children.len() as nat,
                |i: int|
                    if 0 <= i < self.children.len() {
                        self.children[i].value()
                    } else {
                        arbitrary()
                    },
            ),
        }
    }
}

impl View for Element {
    type V = ElementView;

    open spec fn view(&self) -> ElementView {
        self.value()
    }
}

/// The children of an element are the values of the elements in its
/// vector, in order.
pub proof fn lemma_element_children(element: Element)
    ensures
        element@.children == elements_view(element.children@),
{
    assert(element@.children =~= elements_view(element.children@));
}

/// The outcome that a result of a parser of attributes stands for.
pub open spec fn attribute_outcome(r: ParseResult<(String, String)>) -> Outcome<
    (Seq<char>, Seq<char>),
> {
    match r {
        Ok((rest, value)) => Outcome::Matched { rest: rest@, value: (value.0@, value.1@) },
        Err(at) => Outcome::NoMatch { at: at@ },
    }
}

/// The outcome that a result of a parser of tags stands for.
pub open spec fn tag_outcome(r: ParseResult<(String, Vec<(String, String)>)>) -> Outcome<Tag> {
    match r {
        Ok((rest, value)) => Outcome::Matched {
            rest: rest@,
            value: (value.0@, attrs_view(value.1@)),
        },
        Err(at) => Outcome::NoMatch { at: at@ },
    }
}

/// The outcome that a result of a parser of elements stands for.
pub open spec fn element_outcome(r: ParseResult<Element>) -> Outcome<ElementView> {
    match r {
        Ok((rest, value)) => Outcome::Matched { rest: rest@, value: value@ },
        Err(at) => Outcome::NoMatch { at: at@ },
    }
}

/// The input after `text`, if it starts with it.
fn after_literal<'a>(text: &str, input: &'a str) -> (r: Option<&'a str>)
    ensures
        match r {
            Some(rest) => xml_grammar::after_literal(text@, input@) == Some(rest@)
                && rest@.len() + text@.len() == input@.len(),
            None => xml_grammar::after_literal(text@, input@) is None,
        },
{
    match literal(text).parse(input) {
        Ok((rest, _)) => Some(rest),
        Err(_) => None,
    }
}

fn parse_quoted_string<'a>(input: &'a str) -> (r: ParseResult<'a, String>)
    ensures
        text_outcome(r) == xml_grammar::quoted_string(input@),
        no_longer(r, input),
{
    match after_literal("\"", input) {
        Some(body) => {
            let (value, end) = until_quote(body);
            match after_literal("\"", end) {
                Some(rest) => Ok((rest, String::from_str(value))),
                None => Err(end),
            }
        },
        None => Err(input),
    }
}

fn parse_attribute_pair<'a>(input: &'a str) -> (r: ParseResult<'a, (String, String)>)
    ensures
        attribute_outcome(r) == xml_grammar::attribute_pair(input@),
        no_longer(r, input),
{
    match identifier(input) {
        Ok((rest, name)) => {
            match after_literal("=", rest) {
                Some(rest) => match parse_quoted_string(rest) {
                    Ok((rest, value)) => Ok((rest, (name, value))),
                    Err(at) => Err(at),
                },
                None => Err(rest),
            }
        },
        Err(at) => Err(at),
    }
}

/// An attribute after at least one whitespace character.
fn spaced_attribute<'a>(input: &'a str) -> (r: ParseResult<'a, (String, String)>)
    ensures
        attribute_outcome(r) == xml_grammar::spaced_attribute(input@),
        no_longer(r, input),
{
    proof {
        lemma_leading_whitespace_bound(input@);
    }
    let start = trim_start(input);
    if start.unicode_len() == input.unicode_len() {
        Err(input)
    } else {
        parse_attribute_pair(start)
    }
}

fn parse_attributes<'a>(input: &'a str) -> (r: ParseResult<'a, Vec<(String, String)>>)
    ensures
        r matches Ok((rest, attrs)) && (attrs_view(attrs@), rest@) == xml_grammar::attributes(
            input@,
            Seq::empty(),
        ),
        no_longer(r, input),
{
    let mut attrs: Vec<(String, String)> = Vec::new();
    let mut end: &'a str = input;
    assert(attrs_view(attrs@) =~= Seq::empty());
    loop
        invariant
            end@.len() <= input@.len(),
            xml_grammar::attributes(end@, attrs_view(attrs@)) == xml_grammar::attributes(
                input@,
                Seq::empty(),
            ),
        decreases end@.len(),
    {
        match spaced_attribute(end) {
            Ok((next, attr)) => {
                if next.unicode_len() < end.unicode_len() {
                    let ghost seen = attrs_view(attrs@);
                    let ghost value = (attr.0@, attr.1@);
                    attrs.push(attr);
                    assert(attrs_view(attrs@) =~= seen.push(value));
                    end = next;
                } else {
                    return Ok((end, attrs));
                }
            },
            Err(_) => {
                return Ok((end, attrs));
            },
        }
    }
}

fn parse_element_start<'a>(input: &'a str) -> (r: ParseResult<'a, (String, Vec<(String, String)>)>)
    ensures
        tag_outcome(r) == xml_grammar::element_start(input@),
        r matches Ok((rest, _)) ==> rest@.len() + "<"@.len() <= input@.len(),
{
    match after_literal("<", input) {
        Some(rest) => match identifier(rest) {
            Ok((rest, name)) => match parse_attributes(rest) {
                Ok((rest, attrs)) => Ok((rest, (name, attrs))),
                Err(at) => Err(at),
            },
            Err(at) => Err(at),
        },
        None => Err(input),
    }
}

/// What starts an element and `end` after it.
fn tag<'a>(end: &str, input: &'a str) -> (r: ParseResult<'a, (String, Vec<(String, String)>)>)
    ensures
        tag_outcome(r) == xml_grammar::tag(end@, input@),
        r matches Ok((rest, _)) ==> rest@.len() + "<"@.len() <= input@.len(),
{
    match parse_element_start(input) {
        Ok((rest, value)) => match after_literal(end, rest) {
            Some(rest) => Ok((rest, value)),
            None => Err(rest),
        },
        Err(at) => Err(at),
    }
}

/// The element with the given name and attributes and without children.
fn childless(value: (String, Vec<(String, String)>)) -> (r: Element)
    ensures
        r@ == (ElementView {
            name: value.0@,
            attrs: attrs_view(value.1@),
            children: Seq::empty(),
        }),
{
    let r = Element { name: value.0, attrs: value.1, children: Vec::new() };
    proof {
        lemma_element_children(r);
        assert(elements_view(r.children@) =~= Seq::empty());
    }
    r
}

fn parse_single_element<'a>(input: &'a str) -> (r: ParseResult<'a, Element>)
    ensures
        element_outcome(r) == xml_grammar::single_element(input@),
        no_longer(r, input),
{
    match tag("/>", input) {
        Ok((rest, value)) => Ok((rest, childless(value))),
        Err(at) => Err(at),
    }
}

fn parse_open_element<'a>(input: &'a str) -> (r: ParseResult<'a, Element>)
    ensures
        element_outcome(r) == xml_grammar::open_element(input@),
        r matches Ok((rest, _)) ==> rest@.len() < input@.len(),
{
    proof {
        reveal_strlit("<");
    }
    match tag(">", input) {
        Ok((rest, value)) => Ok((rest, childless(value))),
        Err(at) => Err(at),
    }
}

fn parse_close_element<'a>(expected: &String, input: &'a str) -> (r: ParseResult<'a, String>)
    ensures
        text_outcome(r) == xml_grammar::close_element(expected@, input@),
        no_longer(r, input),
{
    let rest = match after_literal("</", input) {
        Some(rest) => rest,
        None => {
            return Err(input);
        },
    };
    let (rest, name) = match identifier(rest) {
        Ok(found) => found,
        Err(_) => {
            return Err(input);
        },
    };
    match after_literal(">", rest) {
        Some(rest) => {
            if name == *expected {
                Ok((rest, name))
            } else {
                Err(input)
            }
        },
        None => Err(input),
    }
}

/// The elements that the input starts with, and the input after them.
fn parse_children<'a>(input: &'a str) -> (r: (Vec<Element>, &'a str))
    ensures
        (elements_view(r.0@), r.1@) == xml_grammar::children(input@, Seq::empty()),
        r.1@.len() <= input@.len(),
    decreases input@.len(), 2nat,
{
    let mut children: Vec<Element> = Vec::new();
    let mut end: &'a str = input;
    assert(elements_view(children@) =~= Seq::empty());
    loop
        invariant
            end@.len() <= input@.len(),
            xml_grammar::children(end@, elements_view(children@)) == xml_grammar::children(
                input@,
                Seq::empty(),
            ),
        decreases end@.len(),
    {
        match parse_element(end) {
            Ok((next, child)) => {
                if next.unicode_len() < end.unicode_len() {
                    let ghost seen = elements_view(children@);
                    let ghost value = child@;
                    children.push(child);
                    assert(elements_view(children@) =~= seen.push(value));
                    end = next;
                } else {
                    return (children, end);
                }
            },
            Err(_) => {
                return (children, end);
            },
        }
    }
}

fn parse_parent_element<'a>(input: &'a str) -> (r: ParseResult<'a, Element>)
    ensures
        element_outcome(r) == xml_grammar::parent_element(input@),
        no_longer(r, input),
    decreases input@.len(), 0nat,
{
    match parse_open_element(input) {
        Ok((rest, opened)) => {
            let (children, end) = parse_children(rest);
            match parse_close_element(&opened.name, end) {
                Ok((rest, _)) => {
                    let element = Element { name: opened.name, attrs: opened.attrs, children };
                    proof {
                        lemma_element_children(element);
                    }
                    Ok((rest, element))
                },
                Err(at) => Err(at),
            }
        },
        Err(at) => Err(at),
    }
}

fn parse_element<'a>(input: &'a str) -> (r: ParseResult<'a, Element>)
    ensures
        element_outcome(r) == xml_grammar::element(input@),
        no_longer(r, input),
    decreases input@.len(), 1nat,
{
    proof {
        lemma_leading_whitespace_bound(input@);
    }
    let start = trim_start(input);
    let found = match parse_single_element(start) {
        Ok((rest, value)) => Ok((rest, value)),
        Err(_) => parse_parent_element(start),
    };
    match found {
        Ok((rest, value)) => {
            proof {
                lemma_leading_whitespace_bound(rest@);
            }
            Ok((trim_start(rest), value))
        },
        Err(at) => Err(at),
    }
}

/// The parser of [`quoted_string`].
pub struct QuotedString;

/// A text between double quotes.
pub fn quoted_string() -> (p: QuotedString) {
    QuotedString
}

impl<'a> Parser<'a, String> for QuotedString {
    open spec fn ready(&self, input: &'a str) -> bool {
        true
    }

    open spec fn accepts(&self, input: &'a str, rest: &'a str, value: String) -> bool {
        &&& xml_grammar::quoted_string(input@) == (Outcome::Matched {
            rest: rest@,
            value: value@,
        })
        &&& rest@.len() <= input@.len()
    }

    open spec fn rejects(&self, input: &'a str, at: &'a str) -> bool {
        xml_grammar::quoted_string(input@) is NoMatch && xml_grammar::quoted_string(
            input@,
        )->at == at@
    }

    fn parse(&self, input: &'a str) -> (r: ParseResult<'a, String>) {
        parse_quoted_string(input)
    }
}

/// The parser of [`attribute_pair`].
pub struct AttributePair;

/// A name, `=` and a quoted value.
pub fn attribute_pair() -> (p: AttributePair) {
    AttributePair
}

impl<'a> Parser<'a, (String, String)> for AttributePair {
    open spec fn ready(&self, input: &'a str) -> bool {
        true
    }

    open spec fn accepts(&self, input: &'a str, rest: &'a str, value: (String, String)) -> bool {
        &&& xml_grammar::attribute_pair(input@) == (Outcome::Matched {
            rest: rest@,
            value: (value.0@, value.1@),
        })
        &&& rest@.len() <= input@.len()
    }

    open spec fn rejects(&self, input: &'a str, at: &'a str) -> bool {
        xml_grammar::attribute_pair(input@) is NoMatch && xml_grammar::attribute_pair(
            input@,
        )->at == at@
    }

    fn parse(&self, input: &'a str) -> (r: ParseResult<'a, (String, String)>) {
        parse_attribute_pair(input)
    }
}

/// The parser of [`attributes`].
pub struct Attributes;

/// Any number of attributes, each after whitespace. It accepts every input.
pub fn attributes() -> (p: Attributes) {
    Attributes
}

impl<'a> Parser<'a, Vec<(String, String)>> for Attributes {
    open spec fn ready(&self, input: &'a str) -> bool {
        true
    }

    open spec fn accepts(&self, input: &'a str, rest: &'a str, value: Vec<(String, String)>) -> bool {
        &&& xml_grammar::attributes(input@, Seq::empty()) == (attrs_view(value@), rest@)
        &&& rest@.len() <= input@.len()
    }

    open spec fn rejects(&self, input: &'a str, at: &'a str) -> bool {
        false
    }

    fn parse(&self, input: &'a str) -> (r: ParseResult<'a, Vec<(String, String)>>) {
        parse_attributes(input)
    }
}

/// The parser of [`element_start`].
pub struct ElementStart;

/// `<`, a name and attributes.
pub fn element_start() -> (p: ElementStart) {
    ElementStart
}

impl<'a> Parser<'a, (String, Vec<(String, String)>)> for ElementStart {
    open spec fn ready(&self, input: &'a str) -> bool {
        true
    }

    open spec fn accepts(&self, input: &'a str, rest: &'a str, value: (String, Vec<(String, String)>)) -> bool {
        &&& xml_grammar::element_start(input@) == (Outcome::Matched {
            rest: rest@,
            value: (value.0@, attrs_view(value.1@)),
        })
        &&& rest@.len() <= input@.len()
    }

    open spec fn rejects(&self, input: &'a str, at: &'a str) -> bool {
        xml_grammar::element_start(input@) is NoMatch && xml_grammar::element_start(
            input@,
        )->at == at@
    }

    fn parse(&self, input: &'a str) -> (r: ParseResult<'a, (String, Vec<(String, String)>)>) {
        parse_element_start(input)
    }
}

/// The parser of [`single_element`].
pub struct SingleElement;

/// An element without children, in one tag.
pub fn single_element() -> (p: SingleElement) {
    SingleElement
}

impl<'a> Parser<'a, Element> for SingleElement {
    open spec fn ready(&self, input: &'a str) -> bool {
        true
    }

    open spec fn accepts(&self, input: &'a str, rest: &'a str, value: Element) -> bool {
        &&& xml_grammar::single_element(input@) == (Outcome::Matched {
            rest: rest@,
            value: value@,
        })
        &&& rest@.len() <= input@.len()
    }

    open spec fn rejects(&self, input: &'a str, at: &'a str) -> bool {
        xml_grammar::single_element(input@) is NoMatch && xml_grammar::single_element(
            input@,
        )->at == at@
    }

    fn parse(&self, input: &'a str) -> (r: ParseResult<'a, Element>) {
        parse_single_element(input)
    }
}

/// The parser of [`open_element`].
pub struct OpenElement;

/// The opening tag of an element with children.
pub fn open_element() -> (p: OpenElement) {
    OpenElement
}

impl<'a> Parser<'a, Element> for OpenElement {
    open spec fn ready(&self, input: &'a str) -> bool {
        true
    }

    open spec fn accepts(&self, input: &'a str, rest: &'a str, value: Element) -> bool {
        &&& xml_grammar::open_element(input@) == (Outcome::Matched {
            rest: rest@,
            value: value@,
        })
        &&& rest@.len() <= input@.len()
    }

    open spec fn rejects(&self, input: &'a str, at: &'a str) -> bool {
        xml_grammar::open_element(input@) is NoMatch && xml_grammar::open_element(
            input@,
        )->at == at@
    }

    fn parse(&self, input: &'a str) -> (r: ParseResult<'a, Element>) {
        parse_open_element(input)
    }
}

/// The parser of [`close_element`].
pub struct CloseElement {
    pub expected: String,
}

/// The closing tag with the name `expected_name`.
pub fn close_element(expected: String) -> (p: CloseElement)
    ensures
        p.expected == expected,
{
    CloseElement { expected }
}

impl<'a> Parser<'a, String> for CloseElement {
    open spec fn ready(&self, input: &'a str) -> bool {
        true
    }

    open spec fn accepts(&self, input: &'a str, rest: &'a str, value: String) -> bool {
        &&& xml_grammar::close_element(self.expected@, input@) == (Outcome::Matched {
            rest: rest@,
            value: value@,
        })
        &&& rest@.len() <= input@.len()
    }

    open spec fn rejects(&self, input: &'a str, at: &'a str) -> bool {
        xml_grammar::close_element(self.expected@, input@) is NoMatch && xml_grammar::close_element(
            self.expected@, input@,
        )->at == at@
    }

    fn parse(&self, input: &'a str) -> (r: ParseResult<'a, String>) {
        parse_close_element(&self.expected, input)
    }
}

/// The parser of [`parent_element`].
pub struct ParentElement;

/// An element with an opening tag, child elements and a closing tag.
pub fn parent_element() -> (p: ParentElement) {
    ParentElement
}

impl<'a> Parser<'a, Element> for ParentElement {
    open spec fn ready(&self, input: &'a str) -> bool {
        true
    }

    open spec fn accepts(&self, input: &'a str, rest: &'a str, value: Element) -> bool {
        &&& xml_grammar::parent_element(input@) == (Outcome::Matched {
            rest: rest@,
            value: value@,
        })
        &&& rest@.len() <= input@.len()
    }

    open spec fn rejects(&self, input: &'a str, at: &'a str) -> bool {
        xml_grammar::parent_element(input@) is NoMatch && xml_grammar::parent_element(
            input@,
        )->at == at@
    }

    fn parse(&self, input: &'a str) -> (r: ParseResult<'a, Element>) {
        parse_parent_element(input)
    }
}

/// The parser of [`element`].
pub struct ElementParser;

/// An element, with whitespace before and after it.
pub fn element() -> (p: ElementParser) {
    ElementParser
}

impl<'a> Parser<'a, Element> for ElementParser {
    open spec fn ready(&self, input: &'a str) -> bool {
        true
    }

    open spec fn accepts(&self, input: &'a str, rest: &'a str, value: Element) -> bool {
        &&& xml_grammar::element(input@) == (Outcome::Matched {
            rest: rest@,
            value: value@,
        })
        &&& rest@.len() <= input@.len()
    }

    open spec fn rejects(&self, input: &'a str, at: &'a str) -> bool {
        xml_grammar::element(input@) is NoMatch && xml_grammar::element(
            input@,
        )->at == at@
    }

    fn parse(&self, input: &'a str) -> (r: ParseResult<'a, Element>) {
        parse_element(input)
    }
}

} // verus!
