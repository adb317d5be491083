use generation::imports::{is_identifier, sort_paths, split, use_statement_text, ImportTrie};
use generation::syntax::UseTree;

fn strings(parts: &[&str]) -> Vec<String> {
    parts.iter().map(|p| p.to_string()).collect()
}

#[test]
fn split_at_double_colons() {
    assert_eq!(split("std::collections::HashMap"), strings(&["std", "collections", "HashMap"]));
    assert_eq!(split("single"), strings(&["single"]));
    assert_eq!(split(""), strings(&[""]));
    assert_eq!(split("a::"), strings(&["a", ""]));
}

#[test]
fn use_paths_deduplicate_and_put_std_first() {
    let mut trie = ImportTrie::new();
    trie.insert("crate::model::Value");
    trie.insert("std::collections::HashSet");
    trie.insert("std::collections::HashMap");
    trie.insert("std::collections::HashMap");
    trie.insert("anyhow::Result");
    let paths = trie.use_paths();
    assert_eq!(
        paths,
        vec![
            strings(&["std", "collections", "HashMap"]),
            strings(&["std", "collections", "HashSet"]),
            strings(&["anyhow", "Result"]),
            strings(&["crate", "model", "Value"]),
        ]
    );
}

#[test]
fn collect_paths_lists_items_before_children() {
    let mut trie = ImportTrie::default();
    trie.insert("b::x");
    trie.insert("a");
    trie.insert("b");
    let mut prefix = strings(&["root"]);
    let mut out = vec![strings(&["first"])];
    trie.collect_paths(&mut prefix, &mut out);
    assert_eq!(prefix, strings(&["root"]));
    assert_eq!(
        out,
        vec![
            strings(&["first"]),
            strings(&["root", "a"]),
            strings(&["root", "b"]),
            strings(&["root", "b", "x"]),
        ]
    );
}

#[test]
fn insert_segments_of_nothing_changes_nothing() {
    let mut trie = ImportTrie::new();
    trie.insert_segments(&vec![]);
    assert!(trie.use_paths().is_empty());
}

#[test]
fn sort_paths_orders_by_segments() {
    let sorted = sort_paths(&vec![
        strings(&["b"]),
        strings(&["a", "z"]),
        strings(&["std", "b"]),
        strings(&["a"]),
        strings(&["std", "a"]),
    ]);
    assert_eq!(
        sorted,
        vec![
            strings(&["std", "a"]),
            strings(&["std", "b"]),
            strings(&["a"]),
            strings(&["a", "z"]),
            strings(&["b"]),
        ]
    );
}

#[test]
fn use_statement_text_joins_segments() {
    assert_eq!(use_statement_text(&strings(&["std", "fmt", "Write"])), "use std::fmt::Write;");
    assert_eq!(use_statement_text(&strings(&["serde"])), "use serde;");
}

fn segments_of(tree: &UseTree) -> Vec<String> {
    match tree {
        UseTree::Path { ident, tree } => {
            let mut out = vec![ident.clone()];
            out.extend(segments_of(tree));
            out
        }
        UseTree::Name(name) => vec![name.clone()],
        _ => panic!("not a plain path"),
    }
}

fn statements(trees: &[UseTree]) -> Vec<String> {
    trees.iter().map(|t| segments_of(t).join("::")).collect()
}

#[test]
fn to_use_statements_gives_one_item_per_path() {
    let mut trie = ImportTrie::new();
    trie.insert("std::fmt::Write");
    trie.insert("std::fmt::Display");
    trie.insert("std::fmt::Write");
    let items = trie.to_use_statements();
    assert_eq!(statements(&items), vec!["std::fmt::Display", "std::fmt::Write"]);
}

#[test]
fn to_use_statements_puts_std_first() {
    let mut trie = ImportTrie::default();
    trie.insert("alpha::Beta");
    trie.insert("std::collections::HashSet");
    trie.insert("std::collections::HashMap");
    trie.insert("std::collections::HashMap");
    let items = trie.to_use_statements();
    assert_eq!(
        statements(&items),
        vec!["std::collections::HashMap", "std::collections::HashSet", "alpha::Beta"]
    );
    assert_eq!(statements(&trie.try_use_statements().expect("importable")), statements(&items));
}

#[test]
fn try_use_statements_refuses_what_is_no_identifier() {
    let mut trie = ImportTrie::new();
    trie.insert("my-crate::Thing");
    assert!(trie.try_use_statements().is_none());
    let mut empty = ImportTrie::new();
    empty.insert("std::");
    assert!(empty.try_use_statements().is_none());
    let mut keyword = ImportTrie::new();
    keyword.insert("fn::x");
    assert!(keyword.try_use_statements().is_none());
    let mut spaced = ImportTrie::new();
    spaced.insert("std:: fmt");
    assert!(spaced.try_use_statements().is_none());
}

#[test]
fn identifiers_of_use_paths() {
    assert!(is_identifier("HashMap"));
    assert!(is_identifier("_x1"));
    assert!(is_identifier("größe"));
    assert!(!is_identifier(""));
    assert!(!is_identifier("123"));
    assert!(!is_identifier("1x"));
    assert!(!is_identifier("a-b"));
    assert!(!is_identifier(" a"));
}

fn shape(trie: &ImportTrie) -> String {
    let children: Vec<String> = trie.children.iter().map(|(k, c)| format!("{k}({})", shape(c))).collect();
    format!("[{}]{{{}}}", trie.items.join(","), children.join(","))
}

#[test]
fn repeated_or_reordered_inserts_give_the_same_trie() {
    let mut once = ImportTrie::new();
    once.insert("std::fmt::Write");
    once.insert("alpha::Beta");
    let mut twice = ImportTrie::new();
    twice.insert("alpha::Beta");
    twice.insert("std::fmt::Write");
    twice.insert("std::fmt::Write");
    assert_eq!(shape(&once), shape(&twice));
    assert_eq!(shape(&once), "[]{alpha([Beta]{}),std([]{fmt([Write]{})})}");
}
