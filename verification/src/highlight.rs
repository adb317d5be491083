//! Choosing how to highlight Rust source: a whole file when it parses as one,
//! else the statements of a snippet wrapped in a function, else the escaped
//! text.

use vstd::prelude::*;
use crate::escape::{escape, escaped};
use crate::rust::{file_text, rust, snippet, snippet_text};
use crate::syntax::File;
use crate::text::{extend_str, string_of};
use crate::element::{elements_view, Element};
use crate::json::Json;
use crate::json_highlight::{elements, height, node_view, Classes, Place};

verus! {

/// The text of a snippet wrapped in a function, so that it parses.
pub open spec fn wrapped_text(source: Seq<char>) -> Seq<char> {
    "fn __snippet__() {\n"@ + source + "\n}"@
}

/// Wraps a snippet of statements in a function.
pub fn wrap_snippet(source: &str) -> (r: String)
    ensures
        r@ == wrapped_text(source@),
{
    let mut out: Vec<char> = Vec::new();
    extend_str(&mut out, "fn __snippet__() {\n");
    extend_str(&mut out, source);
    extend_str(&mut out, "\n}");
    string_of(&out)
}

/// The highlighted form of Rust source, given the source parsed as a file
/// and, where that failed, its wrapped form parsed as a file.
pub open spec fn highlighted(source: Seq<char>, parsed: Option<File>, wrapped: Option<File>) -> Seq<char> {
    match parsed {
        Some(file) => file_text(file),
        None => match wrapped {
            Some(file) => snippet_text(file),
            None => escaped(source),
        },
    }
}

/// Highlights Rust source: the whole file where it parsed, else the
/// statements of its wrapped form where that parsed, else the escaped text.
pub fn highlight_rust(source: &str, parsed: Option<&File>, wrapped: Option<&File>) -> (r: String)
    ensures
        r@ == highlighted(
            source@,
            match parsed {
                Some(f) => Some(*f),
                None => None,
            },
            match wrapped {
                Some(f) => Some(*f),
                None => None,
            },
        ),
{
    match parsed {
        Some(file) => rust(file),
        None => match wrapped {
            Some(file) => snippet(file),
            None => escape(source),
        },
    }
}

/// The languages code blocks are highlighted in.
#[derive(Debug, Clone, Copy, PartialEq, Eq, Structural)]
pub enum Language {
    Rust,
    Molten,
    Json,
    Starlark,
    Bash,
    /// Any other language, shown as escaped text.
    Plain,
}

/// The width, in bytes of compact text, up to which a JSON array or object
/// stays on one line in a code block.
pub const JSON_WIDTH: usize = 61;

/// What highlighting a code block comes to.
pub enum Highlighted {
    /// Finished markup.
    Markup(String),
    /// The element tree of a JSON value.
    Elements(Vec<Element>),
    /// A source of this language that parsed, for that language's own
    /// highlighter.
    Parsed(Language),
}

/// Highlights a code block of `language`, given how its source parsed: for
/// Rust, as a file and as a wrapped snippet; for JSON, as a value; for the
/// other languages with a parser, whether it parsed. Source that does not
/// parse, and source of a language without a highlighter, is escaped.
pub fn highlight(
    language: Language,
    source: &str,
    parsed: Option<&File>,
    wrapped: Option<&File>,
    value: Option<&Json>,
    accepted: bool,
    classes: &Classes,
) -> (r: Highlighted)
    requires
        value matches Some(v) ==> height(v@) < usize::MAX,
    ensures
        match language {
            Language::Rust => r matches Highlighted::Markup(m) && m@ == highlighted(
                source@,
                match parsed {
                    Some(f) => Some(*f),
                    None => None,
                },
                match wrapped {
                    Some(f) => Some(*f),
                    None => None,
                },
            ),
            Language::Json => match value {
                Some(v) => r matches Highlighted::Elements(es) && elements_view(es@) == node_view(
                    *classes,
                    v@,
                    JSON_WIDTH as nat,
                    0,
                    Place::Top,
                ),
                None => r matches Highlighted::Markup(m) && m@ == escaped(source@),
            },
            Language::Molten | Language::Starlark | Language::Bash => if accepted {
                r == Highlighted::Parsed(language)
            } else {
                r matches Highlighted::Markup(m) && m@ == escaped(source@)
            },
            Language::Plain => r matches Highlighted::Markup(m) && m@ == escaped(source@),
        },
{
    match language {
        Language::Rust => Highlighted::Markup(highlight_rust(source, parsed, wrapped)),
        Language::Json => match value {
            Some(v) => Highlighted::Elements(elements(v, JSON_WIDTH, classes)),
            None => Highlighted::Markup(escape(source)),
        },
        Language::Plain => Highlighted::Markup(escape(source)),
        _ => if accepted {
            Highlighted::Parsed(language)
        } else {
            Highlighted::Markup(escape(source))
        },
    }
}

} // verus!
