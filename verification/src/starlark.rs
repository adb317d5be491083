//! Highlighting classes of Starlark syntax-tree nodes.

use vstd::prelude::*;
use crate::text::chars_of;

verus! {

/// What the classifier reads of the parent of a node.
pub struct Parent {
    /// The kind of the parent.
    pub kind: String,
    /// Whether the node is the parent's `name` field.
    pub named_by: bool,
    /// Whether the node is the parent's `function` field.
    pub called_by: bool,
}

/// What the classifier reads of a syntax-tree node.
pub struct Node {
    pub kind: String,
    /// Whether the node is a named node of the grammar.
    pub named: bool,
    /// Whether the node is an error node.
    pub error: bool,
    /// Whether the node was inserted by error recovery.
    pub missing: bool,
    pub parent: Option<Parent>,
}

/// Whether two strings are equal.
pub fn same(a: &str, b: &str) -> (r: bool)
    ensures
        r == (a@ == b@),
{
    let x = chars_of(a);
    let y = chars_of(b);
    if x.len() != y.len() {
        return false;
    }
    let mut i: usize = 0;
    while i < x.len()
        invariant
            x@ == a@,
            y@ == b@,
            x.len() == y.len(),
            0 <= i <= x.len(),
            forall|k: int| 0 <= k < i ==> x@[k] == y@[k],
        decreases x.len() - i,
    {
        if x[i] != y[i] {
            assert(x@[i as int] != y@[i as int]);
            assert(x@ != y@);
            return false;
        }
        i = i + 1;
    }
    assert(x@ =~= y@);
    true
}

/// Keywords of the language.
pub open spec fn is_keyword(k: Seq<char>) -> bool {
    k == "def"@ ||
        k == "if"@ ||
        k == "elif"@ ||
        k == "else"@ ||
        k == "for"@ ||
        k == "in"@ ||
        k == "return"@ ||
        k == "pass"@ ||
        k == "break"@ ||
        k == "continue"@ ||
        k == "and"@ ||
        k == "or"@ ||
        k == "not"@ ||
        k == "lambda"@ ||
        k == "class"@ ||
        k == "import"@ ||
        k == "from"@ ||
        k == "as"@ ||
        k == "with"@ ||
        k == "while"@ ||
        k == "try"@ ||
        k == "except"@ ||
        k == "finally"@ ||
        k == "raise"@ ||
        k == "yield"@ ||
        k == "del"@ ||
        k == "assert"@ ||
        k == "global"@ ||
        k == "nonlocal"@ ||
        k == "is"@
}

/// Operators of the language.
pub open spec fn is_operator(k: Seq<char>) -> bool {
    k == "="@ ||
        k == "+="@ ||
        k == "-="@ ||
        k == "*="@ ||
        k == "/="@ ||
        k == "//="@ ||
        k == "%="@ ||
        k == "**="@ ||
        k == "&="@ ||
        k == "|="@ ||
        k == "^="@ ||
        k == ">>="@ ||
        k == "<<="@ ||
        k == "+"@ ||
        k == "-"@ ||
        k == "*"@ ||
        k == "/"@ ||
        k == "//"@ ||
        k == "%"@ ||
        k == "**"@ ||
        k == "<"@ ||
        k == ">"@ ||
        k == "<="@ ||
        k == ">="@ ||
        k == "=="@ ||
        k == "!="@ ||
        k == "|"@ ||
        k == "&"@ ||
        k == "^"@ ||
        k == "~"@ ||
        k == "<<"@ ||
        k == ">>"@ ||
        k == "@"@
}

/// Punctuation of the language.
pub open spec fn is_punctuation(k: Seq<char>) -> bool {
    k == "("@ ||
        k == ")"@ ||
        k == "["@ ||
        k == "]"@ ||
        k == "{"@ ||
        k == "}"@ ||
        k == ":"@ ||
        k == ","@ ||
        k == "."@ ||
        k == ";"@
}

/// Kinds of string pieces.
pub open spec fn is_string(k: Seq<char>) -> bool {
    k == "string"@ ||
        k == "string_content"@ ||
        k == "string_start"@ ||
        k == "string_end"@ ||
        k == "escape_sequence"@
}

/// Kinds of constants.
pub open spec fn is_constant(k: Seq<char>) -> bool {
    k == "integer"@ ||
        k == "float"@ ||
        k == "true"@ ||
        k == "false"@ ||
        k == "none"@
}

fn keyword(k: &str) -> (r: bool)
    ensures
        r == is_keyword(k@),
{
    same(k, "def") ||
        same(k, "if") ||
        same(k, "elif") ||
        same(k, "else") ||
        same(k, "for") ||
        same(k, "in") ||
        same(k, "return") ||
        same(k, "pass") ||
        same(k, "break") ||
        same(k, "continue") ||
        same(k, "and") ||
        same(k, "or") ||
        same(k, "not") ||
        same(k, "lambda") ||
        same(k, "class") ||
        same(k, "import") ||
        same(k, "from") ||
        same(k, "as") ||
        same(k, "with") ||
        same(k, "while") ||
        same(k, "try") ||
        same(k, "except") ||
        same(k, "finally") ||
        same(k, "raise") ||
        same(k, "yield") ||
        same(k, "del") ||
        same(k, "assert") ||
        same(k, "global") ||
        same(k, "nonlocal") ||
        same(k, "is")
}

fn operator(k: &str) -> (r: bool)
    ensures
        r == is_operator(k@),
{
    same(k, "=") ||
        same(k, "+=") ||
        same(k, "-=") ||
        same(k, "*=") ||
        same(k, "/=") ||
        same(k, "//=") ||
        same(k, "%=") ||
        same(k, "**=") ||
        same(k, "&=") ||
        same(k, "|=") ||
        same(k, "^=") ||
        same(k, ">>=") ||
        same(k, "<<=") ||
        same(k, "+") ||
        same(k, "-") ||
        same(k, "*") ||
        same(k, "/") ||
        same(k, "//") ||
        same(k, "%") ||
        same(k, "**") ||
        same(k, "<") ||
        same(k, ">") ||
        same(k, "<=") ||
        same(k, ">=") ||
        same(k, "==") ||
        same(k, "!=") ||
        same(k, "|") ||
        same(k, "&") ||
        same(k, "^") ||
        same(k, "~") ||
        same(k, "<<") ||
        same(k, ">>") ||
        same(k, "@")
}

fn punctuation(k: &str) -> (r: bool)
    ensures
        r == is_punctuation(k@),
{
    same(k, "(") ||
        same(k, ")") ||
        same(k, "[") ||
        same(k, "]") ||
        same(k, "{") ||
        same(k, "}") ||
        same(k, ":") ||
        same(k, ",") ||
        same(k, ".") ||
        same(k, ";")
}

fn string_piece(k: &str) -> (r: bool)
    ensures
        r == is_string(k@),
{
    same(k, "string") ||
        same(k, "string_content") ||
        same(k, "string_start") ||
        same(k, "string_end") ||
        same(k, "escape_sequence")
}

fn constant_kind(k: &str) -> (r: bool)
    ensures
        r == is_constant(k@),
{
    same(k, "integer") ||
        same(k, "float") ||
        same(k, "true") ||
        same(k, "false") ||
        same(k, "none")
}

/// The class of an identifier: `load` is a macro; `True`, `False` and `None`
/// are constants; the name of a definition is an entity, the callee of a call
/// a function, a decorator a macro, the name of a parameter or keyword
/// argument a variable; anything else a variable.
pub open spec fn identifier_class(node: Node, text: Seq<char>) -> Seq<char> {
    if text == "load"@ {
        "syntax-macro"@
    } else if text == "True"@ || text == "False"@ || text == "None"@ {
        "syntax-constant"@
    } else {
        match node.parent {
            Some(parent) => {
                let k = parent.kind@;
                if k == "function_definition"@ || k == "class_definition"@ {
                    if parent.named_by {
                        "syntax-entity"@
                    } else {
                        "syntax-variable"@
                    }
                } else if k == "call"@ {
                    if parent.called_by {
                        "syntax-function"@
                    } else {
                        "syntax-variable"@
                    }
                } else if k == "decorator"@ {
                    "syntax-macro"@
                } else {
                    "syntax-variable"@
                }
            },
            None => "syntax-variable"@,
        }
    }
}

/// The class of a node whose source text is `text`, if it has one.
pub open spec fn classification(node: Node, text: Seq<char>) -> Option<Seq<char>> {
    let k = node.kind@;
    if node.error || node.missing {
        None
    } else if node.named {
        if k == "comment"@ {
            Some("syntax-comment"@)
        } else if is_string(k) {
            Some("syntax-string"@)
        } else if is_constant(k) {
            Some("syntax-constant"@)
        } else if k == "identifier"@ {
            Some(identifier_class(node, text))
        } else if k == "type"@ {
            Some("syntax-entity"@)
        } else {
            None
        }
    } else if is_keyword(k) {
        Some("syntax-keyword"@)
    } else if is_operator(k) {
        Some("syntax-operator"@)
    } else if is_punctuation(k) {
        Some("syntax-punctuation"@)
    } else {
        None
    }
}

/// The class of an identifier node.
pub fn identifier(node: &Node, text: &str) -> (c: &'static str)
    ensures
        c@ == identifier_class(*node, text@),
{
    if same(text, "load") {
        return "syntax-macro";
    }
    if same(text, "True") || same(text, "False") || same(text, "None") {
        return "syntax-constant";
    }
    match &node.parent {
        Some(parent) => {
            let k = parent.kind.as_str();
            if same(k, "function_definition") || same(k, "class_definition") {
                if parent.named_by {
                    return "syntax-entity";
                }
            } else if same(k, "call") {
                if parent.called_by {
                    return "syntax-function";
                }
            } else if same(k, "decorator") {
                return "syntax-macro";
            } else if same(k, "keyword_argument") || same(k, "parameter") || same(k, "typed_parameter")
                || same(k, "default_parameter") || same(k, "typed_default_parameter") {
                if parent.named_by {
                    return "syntax-variable";
                }
            }
        },
        None => {},
    }
    "syntax-variable"
}

/// The highlighting class of a node, if it has one.
pub fn classify(node: &Node, text: &str) -> (c: Option<&'static str>)
    ensures
        c is None <==> classification(*node, text@) is None,
        c matches Some(x) ==> classification(*node, text@) == Some(x@),
{
    if node.error || node.missing {
        return None;
    }
    let k = node.kind.as_str();
    if node.named {
        if same(k, "comment") {
            Some("syntax-comment")
        } else if string_piece(k) {
            Some("syntax-string")
        } else if constant_kind(k) {
            Some("syntax-constant")
        } else if same(k, "identifier") {
            Some(identifier(node, text))
        } else if same(k, "type") {
            Some("syntax-entity")
        } else {
            None
        }
    } else if keyword(k) {
        Some("syntax-keyword")
    } else if operator(k) {
        Some("syntax-operator")
    } else if punctuation(k) {
        Some("syntax-punctuation")
    } else {
        None
    }
}

/// The reserved words of Starlark and of the Python grammar its parser
/// shares, as keyword tokens of the syntax tree.
pub open spec fn reserved_words() -> Seq<Seq<char>> {
    seq![
        "def"@, "if"@, "elif"@, "else"@, "for"@, "in"@, "return"@, "pass"@, "break"@, "continue"@,
        "and"@, "or"@, "not"@, "lambda"@, "class"@, "import"@, "from"@, "as"@, "with"@, "while"@,
        "try"@, "except"@, "finally"@, "raise"@, "yield"@, "del"@, "assert"@, "global"@, "nonlocal"@, "is"@,
    ]
}

/// Every reserved word, as an anonymous token of a well-formed tree, is
/// highlighted as a keyword, whatever its source text and parent.
pub proof fn lemma_reserved_words_are_keywords(node: Node, text: Seq<char>)
    requires
        !node.named,
        !node.error,
        !node.missing,
        reserved_words().contains(node.kind@),
    ensures
        classification(node, text) == Some("syntax-keyword"@),
{
    let w = reserved_words();
    let i = choose|i: int| 0 <= i < w.len() && w[i] == node.kind@;
    assert(is_keyword(w[i]));
}

} // verus!
