use generation::element::{Element, Reference};
use generation::highlight::{highlight, Highlighted, Language};
use generation::json::Json;
use generation::json_highlight::{elements, Classes};

fn class(words: &[&str]) -> Reference {
    Reference { words: words.iter().map(|w| w.to_string()).collect() }
}

fn classes() -> Classes {
    Classes {
        constant: class(&["syntax", "constant"]),
        string: class(&["syntax", "string"]),
        entity: class(&["syntax", "entity"]),
        punctuation: class(&["syntax", "punctuation"]),
        array: class(&["node", "array"]),
        object: class(&["node", "object"]),
        value: class(&["node", "value"]),
        property: class(&["node", "property"]),
    }
}

fn punct(text: &str) -> Element {
    Element::token(class(&["syntax", "punctuation"]), text)
}

fn constant(text: &str) -> Element {
    Element::token(class(&["syntax", "constant"]), text)
}

fn value(children: Vec<Element>) -> Element {
    Element::labeled(class(&["node", "value"]), children)
}

fn number(text: &str) -> Json {
    Json::Number(text.to_string())
}

#[test]
fn scalars_are_single_tokens() {
    let c = classes();
    assert_eq!(elements(&Json::Null, 80, &c), vec![value(vec![constant("null")])]);
    assert_eq!(elements(&Json::Bool(true), 80, &c), vec![value(vec![constant("true")])]);
    assert_eq!(elements(&Json::Bool(false), 80, &c), vec![value(vec![constant("false")])]);
    assert_eq!(elements(&number("1.5"), 80, &c), vec![value(vec![constant("1.5")])]);
    assert_eq!(
        elements(&Json::String("hi".to_string()), 80, &c),
        vec![value(vec![Element::token(class(&["syntax", "string"]), "\"hi\"")])]
    );
}

#[test]
fn empty_containers_are_one_token() {
    let c = classes();
    assert_eq!(
        elements(&Json::Array(vec![]), 0, &c),
        vec![Element::labeled(class(&["node", "array"]), vec![punct("[]")])]
    );
    assert_eq!(
        elements(&Json::Object(vec![]), 0, &c),
        vec![Element::labeled(class(&["node", "object"]), vec![punct("{}")])]
    );
}

#[test]
fn array_that_fits_stays_on_one_line() {
    let c = classes();
    let v = Json::Array(vec![number("1"), number("2")]);
    let expected = vec![
        Element::labeled(
            class(&["node", "array"]),
            vec![punct("["), value(vec![constant("1")]), Element::text(", "), value(vec![constant("2")])],
        ),
        punct("]"),
    ];
    assert_eq!(elements(&v, 80, &c), expected);
    // "[1,2]" is five bytes: a width of five still fits.
    assert_eq!(elements(&v, 5, &c), expected);
}

#[test]
fn array_wider_than_width_spans_lines() {
    let c = classes();
    let v = Json::Array(vec![number("1"), number("2")]);
    let expected = vec![
        Element::labeled(
            class(&["node", "array"]),
            vec![
                punct("["),
                Element::text("\n"),
                Element::text("    "),
                value(vec![constant("1")]),
                punct(","),
                Element::text("\n"),
                Element::text("    "),
                value(vec![constant("2")]),
                Element::text("\n"),
            ],
        ),
        Element::text(""),
        punct("]"),
    ];
    assert_eq!(elements(&v, 4, &c), expected);
}

#[test]
fn object_properties_are_wrapped_with_their_key() {
    let c = classes();
    let v = Json::Object(vec![("a".to_string(), Json::String("x".to_string()))]);
    let expected = vec![
        Element::labeled(
            class(&["node", "object"]),
            vec![
                punct("{"),
                Element::labeled(
                    class(&["node", "property"]),
                    vec![
                        Element::token(class(&["syntax", "entity"]), "\"a\""),
                        punct(":"),
                        Element::text(" "),
                        value(vec![Element::token(class(&["syntax", "string"]), "\"x\"")]),
                    ],
                ),
            ],
        ),
        punct("}"),
    ];
    assert_eq!(elements(&v, 9, &c), expected);
}

#[test]
fn nested_layout_indents_by_depth() {
    let c = classes();
    let v = Json::Object(vec![("k".to_string(), Json::Array(vec![Json::Null]))]);
    // {"k":[null]} is twelve bytes; at width eight the object spans lines
    // while the inner array, six bytes, stays on one.
    let expected = vec![
        Element::labeled(
            class(&["node", "object"]),
            vec![
                punct("{"),
                Element::text("\n"),
                Element::labeled(
                    class(&["node", "property"]),
                    vec![
                        Element::text("    "),
                        Element::token(class(&["syntax", "entity"]), "\"k\""),
                        punct(":"),
                        Element::text(" "),
                        Element::labeled(class(&["node", "array"]), vec![punct("["), value(vec![constant("null")])]),
                        punct("]"),
                        Element::text("\n"),
                    ],
                ),
            ],
        ),
        Element::text(""),
        punct("}"),
    ];
    assert_eq!(elements(&v, 8, &c), expected);
}

#[test]
fn escaped_characters_count_toward_the_width() {
    let c = classes();
    // ["a\"b"] is eight bytes of compact text; the token shows the raw text.
    let v = Json::Array(vec![Json::String("a\"b".to_string())]);
    let dense = elements(&v, 8, &c);
    assert_eq!(dense.len(), 2);
    assert_eq!(
        dense[0],
        Element::labeled(
            class(&["node", "array"]),
            vec![punct("["), value(vec![Element::token(class(&["syntax", "string"]), "\"a\"b\"")])],
        )
    );
    let spread = elements(&v, 7, &c);
    assert_eq!(spread.len(), 3);
    assert_eq!(spread[1], Element::text(""));
}

#[test]
fn code_blocks_by_language() {
    let c = classes();
    assert!(matches!(
        highlight(Language::Plain, "<a>", None, None, None, true, &c),
        Highlighted::Markup(m) if m == "&lt;a&gt;"
    ));
    assert!(matches!(
        highlight(Language::Starlark, "x = <", None, None, None, false, &c),
        Highlighted::Markup(m) if m == "x = &lt;"
    ));
    assert!(matches!(highlight(Language::Bash, "ls", None, None, None, true, &c), Highlighted::Parsed(Language::Bash)));
    assert!(matches!(
        highlight(Language::Json, "{", None, None, None, false, &c),
        Highlighted::Markup(m) if m == "{"
    ));
    match highlight(Language::Json, "null", None, None, Some(&Json::Null), true, &c) {
        Highlighted::Elements(es) => assert_eq!(es, vec![value(vec![constant("null")])]),
        _ => panic!("JSON value highlighted as elements"),
    }
    assert!(matches!(
        highlight(Language::Rust, "a & b", None, None, None, false, &c),
        Highlighted::Markup(m) if m == "a &amp; b"
    ));
}
