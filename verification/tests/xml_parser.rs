use sac::frontend::parser::Parser;
use sac::frontend::xml_parser::{
    attribute_pair, attributes, close_element, element, element_start, open_element,
    parent_element, quoted_string, single_element, Element,
};

#[test]
fn test_quoted_string() {
    assert_eq!(
        Ok(("", "Hello, World!".into())),
        quoted_string().parse("\"Hello, World!\"")
    )
}

#[test]
fn test_attributes() {
    let parser = attributes();
    assert_eq!(
        parser.parse(" name=\"Joshua\" age=\"23\""),
        Ok((
            "",
            vec![
                ("name".into(), "Joshua".into()),
                ("age".into(), "23".into())
            ]
        ))
    )
}

#[test]
fn test_single_element() {
    let parser = single_element();
    let html = r#"<a id="go_to_google" href="https://www.google.com" onClick="doSomething()"/>"#;
    assert_eq!(
        parser.parse(html),
        Ok((
            "",
            Element {
                name: "a".into(),
                attrs: vec![
                    ("id".into(), "go_to_google".into()),
                    ("href".into(), "https://www.google.com".into()),
                    ("onClick".into(), "doSomething()".into()),
                ],
                children: vec![],
            }
        ))
    )
}

#[test]
fn test_xml_parser() {
    let doc = r#"
        <top label="Top">
            <semi-bottom label="Bottom"/>
            <middle>
                <bottom label="Another bottom"/>
            </middle>
        </top>"#;

    let parsed_doc = Element {
        name: "top".into(),
        attrs: vec![("label".into(), "Top".into())],
        children: vec![
            Element {
                name: "semi-bottom".into(),
                attrs: vec![("label".into(), "Bottom".into())],
                children: vec![],
            },
            Element {
                name: "middle".into(),
                attrs: vec![],
                children: vec![Element {
                    name: "bottom".into(),
                    attrs: vec![("label".into(), "Another bottom".into())],
                    children: vec![],
                }],
            },
        ],
    };

    assert_eq!(Ok(("", parsed_doc)), element().parse(doc));
}

#[test]
fn quoted_string_needs_both_quotes() {
    assert_eq!(quoted_string().parse("\"\"x"), Ok(("x", "".to_string())));
    assert_eq!(quoted_string().parse("abc"), Err("abc"));
    assert_eq!(quoted_string().parse("\"abc"), Err(""));
}

#[test]
fn attribute_pair_is_name_equals_value() {
    assert_eq!(
        attribute_pair().parse("one=\"1\" two"),
        Ok((" two", ("one".to_string(), "1".to_string())))
    );
    assert_eq!(attribute_pair().parse("=\"1\""), Err("=\"1\""));
    assert_eq!(attribute_pair().parse("one \"1\""), Err(" \"1\""));
    assert_eq!(attribute_pair().parse("one=1"), Err("1"));
}

#[test]
fn attributes_end_at_the_first_that_is_none() {
    assert_eq!(
        attributes().parse(" a=\"1\"   b=\"2\" c=3"),
        Ok((
            " c=3",
            vec![("a".to_string(), "1".to_string()), ("b".to_string(), "2".to_string())]
        ))
    );
    assert_eq!(attributes().parse("a=\"1\""), Ok(("a=\"1\"", vec![])));
}

#[test]
fn element_start_is_name_and_attributes() {
    assert_eq!(
        element_start().parse("<a b=\"c\">"),
        Ok((">", ("a".to_string(), vec![("b".to_string(), "c".to_string())])))
    );
    assert_eq!(element_start().parse("a"), Err("a"));
    assert_eq!(element_start().parse("<1"), Err("1"));
}

#[test]
fn open_and_close_tags() {
    assert_eq!(
        open_element().parse("<a>rest"),
        Ok(("rest", Element { name: "a".into(), attrs: vec![], children: vec![] }))
    );
    assert_eq!(open_element().parse("<a/>"), Err("/>"));
    assert_eq!(close_element("a".to_string()).parse("</a>rest"), Ok(("rest", "a".to_string())));
    assert_eq!(close_element("a".to_string()).parse("</b>rest"), Err("</b>rest"));
    assert_eq!(close_element("a".to_string()).parse("</a rest"), Err("</a rest"));
}

#[test]
fn a_parent_closes_with_its_own_name() {
    assert_eq!(
        parent_element().parse("<a><b/> <c/></a>"),
        Ok((
            "",
            Element {
                name: "a".into(),
                attrs: vec![],
                children: vec![
                    Element { name: "b".into(), attrs: vec![], children: vec![] },
                    Element { name: "c".into(), attrs: vec![], children: vec![] },
                ],
            }
        ))
    );
    assert_eq!(parent_element().parse("<a><b/></c>"), Err("</c>"));
    assert_eq!(element().parse("<a><b></a></b>"), Err("<b></a></b>"));
}

#[test]
fn an_element_takes_the_whitespace_around_it() {
    assert_eq!(
        element().parse("  <a/>  <b/>"),
        Ok(("<b/>", Element { name: "a".into(), attrs: vec![], children: vec![] }))
    );
    assert_eq!(single_element().parse(" <a/>"), Err(" <a/>"));
}
