use generation::assembler::{Assembler, Error};
use generation::element::{Element, Reference};
use generation::escape::{bytes, close, escape, open};
use generation::rust::{is_keyword_value, is_type_name, rust, snippet};
use generation::starlark::{classify, Node, Parent};
use generation::syntax::{File, Item, UseTree, Visibility};

fn class(words: &[&str]) -> Reference {
    Reference { words: words.iter().map(|w| w.to_string()).collect() }
}

#[test]
fn escape_replaces_markup_characters() {
    assert_eq!(escape("a<b>&\"'"), "a&lt;b&gt;&amp;&quot;&#39;");
    assert_eq!(escape("plain text"), "plain text");
    assert_eq!(escape("&amp;"), "&amp;amp;");
}

#[test]
fn bytes_shows_printable_and_escapes_the_rest() {
    assert_eq!(bytes(b"ab ~"), "ab ~");
    assert_eq!(bytes(&[0x00, 0x7f, b'\n', 0xff]), "\\x00\\x7f\\x0a\\xff");
    assert_eq!(bytes(&[]), "");
}

#[test]
fn open_and_close_write_node_spans() {
    let mut output = String::new();
    open(&mut output, "expr");
    output.push_str("x");
    close(&mut output);
    assert_eq!(output, "<span class=\"node-expr\">x</span>");
}

#[test]
fn assembler_round_trip() {
    let mut assembler = Assembler::new();
    assembler.push(Element::text("a"));
    assembler.open();
    assembler.extend(vec![Element::token(class(&["syntax", "constant"]), "1"), Element::text(" ")]);
    let children = assembler.close();
    assert_eq!(children.len(), 2);
    assembler.push(Element::labeled(class(&["node", "value"]), children));
    let finished = assembler.finish().ok().expect("balanced");
    assert_eq!(finished.len(), 2);
    assert_eq!(finished[0], Element::text("a"));
    assert!(matches!(&finished[1], Element::Labeled { children, .. } if children.len() == 2));
}

#[test]
fn assembler_unbalanced_close_fails() {
    let mut assembler = Assembler::default();
    let first = assembler.close();
    assert!(first.is_empty());
    let second = assembler.close();
    assert!(second.is_empty());
    assembler.push(Element::text("lost"));
    let result = assembler.finish();
    assert!(matches!(result, Err(Error::Stack)));
    assert_eq!(Error::Stack.message(), "unbalanced highlight element stack");
}

#[test]
fn type_names_and_keyword_values() {
    assert!(is_type_name("Display"));
    assert!(is_type_name("_private"));
    assert!(!is_type_name("value"));
    assert!(!is_type_name(""));
    assert!(is_keyword_value("None"));
    assert!(is_keyword_value("true"));
    assert!(!is_keyword_value("none"));
}

#[test]
fn rust_highlights_a_use_item() {
    let file = File {
        attrs: vec![],
        items: vec![Item::Use {
            attrs: vec![],
            vis: Visibility::Inherited,
            tree: UseTree::Path {
                ident: "std".to_string(),
                tree: Box::new(UseTree::Path {
                    ident: "fmt".to_string(),
                    tree: Box::new(UseTree::Name("Display".to_string())),
                }),
            },
        }],
    };
    let expected = "<span class=\"node-use\"><span class=\"syntax keyword\">use</span> std\
<span class=\"syntax punctuation\">::</span>fmt<span class=\"syntax punctuation\">::</span>\
<span class=\"syntax entity\">Display</span><span class=\"syntax punctuation\">;</span>\n</span>";
    assert_eq!(rust(&file), expected);
}

#[test]
fn snippet_of_a_file_without_a_function_is_empty() {
    let file = File { attrs: vec![], items: vec![] };
    assert_eq!(snippet(&file), "");
}

fn node(kind: &str, named: bool, parent: Option<Parent>) -> Node {
    Node { kind: kind.to_string(), named, error: false, missing: false, parent }
}

#[test]
fn starlark_classes() {
    assert_eq!(classify(&node("comment", true, None), "# x"), Some("syntax-comment"));
    assert_eq!(classify(&node("string_content", true, None), "x"), Some("syntax-string"));
    assert_eq!(classify(&node("none", true, None), "None"), Some("syntax-constant"));
    assert_eq!(classify(&node("def", false, None), "def"), Some("syntax-keyword"));
    assert_eq!(classify(&node("**=", false, None), "**="), Some("syntax-operator"));
    assert_eq!(classify(&node(";", false, None), ";"), Some("syntax-punctuation"));
    assert_eq!(classify(&node("block", true, None), ""), None);
    let mut broken = node("comment", true, None);
    broken.error = true;
    assert_eq!(classify(&broken, "# x"), None);
}

#[test]
fn starlark_identifiers() {
    assert_eq!(classify(&node("identifier", true, None), "load"), Some("syntax-macro"));
    assert_eq!(classify(&node("identifier", true, None), "True"), Some("syntax-constant"));
    let called = Parent { kind: "call".to_string(), named_by: false, called_by: true };
    assert_eq!(classify(&node("identifier", true, Some(called)), "run"), Some("syntax-function"));
    let defined = Parent { kind: "function_definition".to_string(), named_by: true, called_by: false };
    assert_eq!(classify(&node("identifier", true, Some(defined)), "run"), Some("syntax-entity"));
    let decorated = Parent { kind: "decorator".to_string(), named_by: false, called_by: false };
    assert_eq!(classify(&node("identifier", true, Some(decorated)), "x"), Some("syntax-macro"));
    assert_eq!(classify(&node("identifier", true, None), "x"), Some("syntax-variable"));
}

use generation::highlight::{highlight_rust, wrap_snippet};

#[test]
fn snippet_wrapping() {
    assert_eq!(wrap_snippet("let x = 1;"), "fn __snippet__() {\nlet x = 1;\n}");
}

#[test]
fn unparsed_source_is_escaped() {
    assert_eq!(highlight_rust("a < b", None, None), "a &lt; b");
    let empty = File { attrs: vec![], items: vec![] };
    assert_eq!(highlight_rust("x", None, Some(&empty)), "");
    assert_eq!(highlight_rust("x", Some(&empty), None), "");
}

use generation::syntax::{Expr, Generics, Lit, Pat, Signature, Stmt};

#[test]
fn snippet_highlights_statements() {
    let sig = Signature {
        constness: false,
        asyncness: false,
        unsafety: false,
        ident: "__snippet__".to_string(),
        generics: Generics { params: vec![], where_clause: None },
        inputs: vec![],
        output: None,
    };
    let body = vec![Stmt::Local {
        pat: Pat::Ident { by_ref: false, mutable: false, ident: "x".to_string() },
        init: Some(Expr::Lit(Lit::Int("1".to_string()))),
    }];
    let file = File {
        attrs: vec![],
        items: vec![Item::Fn { attrs: vec![], vis: Visibility::Inherited, sig, body }],
    };
    let expected = "<span class=\"node-let\"><span class=\"syntax keyword\">let</span> \
<span class=\"node-pattern\"><span class=\"syntax variable\">x</span></span> \
<span class=\"syntax operator\">=</span> \
<span class=\"node-expression\"><span class=\"syntax constant\">1</span></span>\
<span class=\"syntax punctuation\">;</span>\n</span>";
    assert_eq!(snippet(&file), expected);
}
