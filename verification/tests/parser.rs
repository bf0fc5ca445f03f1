use sac::frontend::parser::{
    any_char, constant, either, identifier, left, literal, match_regex, maybe, number_i32,
    one_or_more, pair, pred, zero_or_more, Parser, ParserExt,
};

#[test]
fn test_literal() {
    let parse_pepple = literal("Pepple");
    assert_eq!(Ok((" Joshua", ())), parse_pepple.parse("Pepple Joshua"));
    assert_eq!(Ok((" Pepple", ())), parse_pepple.parse("Pepple Pepple"));
    assert_eq!(Err("Joshua Pepple"), parse_pepple.parse("Joshua Pepple"));
}

#[test]
fn test_match_regex() {
    let parse_number = match_regex("[0-9]+");
    assert_eq!(
        Ok(("abcde", "12345".to_string())),
        parse_number.parse("12345abcde")
    );
    assert_eq!(Err("Joshua Pepple"), parse_number.parse("Joshua Pepple"));
}

#[test]
fn test_pair() {
    let tag_opener = pair(literal("<"), identifier);

    assert_eq!(
        Ok(("/>", ((), "my_tag".to_string()))),
        tag_opener.parse("<my_tag/>")
    );
}

#[test]
fn test_map() {
    let tag_opener = sac::frontend::parser::map(pair(literal("<"), identifier), |(_, res2)| res2);

    assert_eq!(
        Ok(("/>", "my_tag".to_string())),
        tag_opener.parse("<my_tag/>")
    );
}

#[test]
fn test_identifier_parser() {
    assert_eq!(
        Ok(("", "i_am_an_identifier".to_string())),
        identifier("i_am_an_identifier")
    );

    assert_eq!(
        Ok((" entirely an identifier", "not".to_string())),
        identifier("not entirely an identifier")
    );

    assert_eq!(
        Err("!not entirely an identifier"),
        identifier("!not entirely an identifier")
    );
}

#[test]
fn test_left_and_right() {
    let first = match_regex("joshua");
    let space = match_regex("[ \r\t\n]");
    let last = match_regex("pepple");

    assert_eq!(
        Ok(("", ("joshua".to_string(), "pepple".to_string()))),
        pair(left(first, space), last).parse("joshua pepple")
    );
}

#[test]
fn test_constant() {
    let parser = constant(300);
    assert_eq!(Ok(("doesn't matter", 300)), parser.parse("doesn't matter"));
}

#[test]
fn test_number_i32() {
    assert_eq!(Ok(("", 42)), number_i32("42"));
}

#[test]
fn test_maybe() {
    let parser = maybe(match_regex("[0-9]+"), "".into());
    assert_eq!(parser.parse("1234"), Ok(("", vec!["1234".into()])));
    assert_eq!(parser.parse("abcd"), Ok(("abcd", vec!["".into()])));
}

#[test]
fn test_zero_or_more() {
    let parser = zero_or_more(match_regex("ha"));
    assert_eq!(
        Ok(("", vec!["ha".into(), "ha".into(), "ha".into(), "ha".into()])),
        parser.parse("hahahaha")
    );

    assert_eq!(Ok(("ahah", vec![])), parser.parse("ahah"));
    assert_eq!(Ok(("", vec![])), parser.parse(""));
}

#[test]
fn test_one_or_more() {
    let parser = one_or_more(match_regex("ha"));
    assert_eq!(
        Ok(("", vec!["ha".into(), "ha".into(), "ha".into(), "ha".into()])),
        parser.parse("hahahaha")
    );

    assert_eq!(Err("ahah"), parser.parse("ahah"));
    assert_eq!(Err(""), parser.parse(""));
}

#[test]
fn test_predicate() {
    let parser = pred(any_char, |c| *c == 'o');
    assert_eq!(Ok(("mg", 'o')), parser.parse("omg"));
    assert_eq!(Err("lol"), parser.parse("lol"));
}

#[test]
fn test_either() {
    let num = match_regex(r"[0-9]{3}");
    assert_eq!(either(num, identifier).parse("abc"), Ok(("", "abc".into())))
}

#[test]
fn test_or() {
    let parser = match_regex("[0-9]+").or(identifier);
    assert_eq!(parser.parse("12345"), Ok(("", "12345".into())));
    assert_eq!(
        parser.parse("identifier_135"),
        Ok(("35", "identifier_1".into()))
    );
    assert_eq!(parser.parse("!23 identifier"), Err("!23 identifier"));
}

#[test]
fn test_and_right() {
    let parser =
        literal("joshua").and_right(any_char.pred(|c| c.is_whitespace()).and_right(identifier));

    assert_eq!(parser.parse("joshua pepple"), Ok(("", "pepple".into())))
}
