//! HTML highlighting of Rust source. Each syntax construct is written as
//! nested `node-*` spans around `syntax *` token spans; text is escaped.
//!
//! The `*_text` spec functions give the whole output after writing a
//! construct, as a function of the output before it: indentation of nested
//! blocks is taken from the last line written so far.

use vstd::prelude::*;
use crate::escape::{escaped, stream};
use crate::syntax::{
    Arguments, Arm, Bound, Expr, FieldPat, FieldValue, Fields, File, FnArg, GenericArg, GenericParam,
    Generics, ImplItem, Item, Lit, NamedField, Pat, Path, Predicate, Segment, Signature, Stmt,
    TraitItem, Ty, UnnamedField, UseTree, Variant, Visibility,
};
use crate::text::{extend_str, string_of};

verus! {

/// Output after a `syntax` token of class `class` with text `text`.
pub open spec fn token_text(pre: Seq<char>, class: Seq<char>, text: Seq<char>) -> Seq<char> {
    pre + "<span class=\"syntax "@ + class + "\">"@ + escaped(text) + "</span>"@
}

/// Output after escaped plain text.
pub open spec fn plain_text(pre: Seq<char>, text: Seq<char>) -> Seq<char> {
    pre + escaped(text)
}

/// Output after opening a node span of class `class`.
pub open spec fn node_text(pre: Seq<char>, class: Seq<char>) -> Seq<char> {
    pre + "<span class=\"node-"@ + escaped(class) + "\">"@
}

/// Output after closing a span.
pub open spec fn end_text(pre: Seq<char>) -> Seq<char> {
    pre + "</span>"@
}

pub open spec fn keyword_text(pre: Seq<char>, w: Seq<char>) -> Seq<char> {
    token_text(pre, "keyword"@, w)
}

pub open spec fn entity_text(pre: Seq<char>, w: Seq<char>) -> Seq<char> {
    token_text(pre, "entity"@, w)
}

pub open spec fn string_text(pre: Seq<char>, w: Seq<char>) -> Seq<char> {
    token_text(pre, "string"@, w)
}

pub open spec fn constant_text(pre: Seq<char>, w: Seq<char>) -> Seq<char> {
    token_text(pre, "constant"@, w)
}

pub open spec fn storage_text(pre: Seq<char>, w: Seq<char>) -> Seq<char> {
    token_text(pre, "storage"@, w)
}

pub open spec fn punctuation_text(pre: Seq<char>, w: Seq<char>) -> Seq<char> {
    token_text(pre, "punctuation"@, w)
}

pub open spec fn variable_text(pre: Seq<char>, w: Seq<char>) -> Seq<char> {
    token_text(pre, "variable"@, w)
}

pub open spec fn function_text(pre: Seq<char>, w: Seq<char>) -> Seq<char> {
    token_text(pre, "function"@, w)
}

pub open spec fn operator_text(pre: Seq<char>, w: Seq<char>) -> Seq<char> {
    token_text(pre, "operator"@, w)
}

pub open spec fn macro_text(pre: Seq<char>, w: Seq<char>) -> Seq<char> {
    token_text(pre, "macro"@, w)
}

pub open spec fn comment_text(pre: Seq<char>, w: Seq<char>) -> Seq<char> {
    token_text(pre, "comment"@, w)
}

/// A lifetime as written: a quote before its name.
pub open spec fn lifetime(name: Seq<char>) -> Seq<char> {
    seq!['\''] + name
}

/// Whether a name reads as a type: it starts with an uppercase letter or `_`.
pub open spec fn reads_as_type(name: Seq<char>) -> bool {
    name.len() > 0 && (is_upper(name[0]) || name[0] == '_')
}

/// Whether a name is one of the value keywords `true false None Some`.
pub open spec fn value_keyword(name: Seq<char>) -> bool {
    name == "true"@ || name == "false"@ || name == "None"@ || name == "Some"@
}

/// The uppercase predicate of characters, as `char::is_uppercase` defines it.
pub uninterp spec fn is_upper(c: char) -> bool;

/// Whether `c` is uppercase.
///
/// Trusted: wraps `char::is_uppercase`; the claim is only that the answer is
/// the uppercase property of `c`, which the Unicode tables define.
#[verifier::external_body]
pub(crate) fn uppercase(c: char) -> (r: bool)
    ensures
        r == is_upper(c),
{
    c.is_uppercase()
}

/// Output after a name that is shown as an entity when it reads as a type,
/// as plain text otherwise.
pub open spec fn name_text(pre: Seq<char>, name: Seq<char>) -> Seq<char> {
    if reads_as_type(name) {
        entity_text(pre, name)
    } else {
        plain_text(pre, name)
    }
}


/// Output after generic arguments joined by `, `.
pub open spec fn generic_args_text(pre: Seq<char>, args: Seq<GenericArg>) -> Seq<char>
    decreases args,
{
    if args.len() == 0 {
        pre
    } else {
        let p = generic_args_text(pre, args.drop_last());
        let p = if args.len() > 1 { plain_text(p, ", "@) } else { p };
        match args.last() {
            GenericArg::Type(t) => ty_text(p, t),
            GenericArg::Lifetime(l) => storage_text(p, lifetime(l@)),
            GenericArg::Other(o) => plain_text(p, o@),
        }
    }
}

/// Output after the arguments of a path segment; `turbofish` selects `::<`
/// over `<`.
pub open spec fn arguments_text(pre: Seq<char>, a: Arguments, turbofish: bool) -> Seq<char>
    decreases a,
{
    match a {
        Arguments::Angle(args) => {
            let p = punctuation_text(pre, if turbofish { "::<"@ } else { "<"@ });
            let p = generic_args_text(p, args@);
            punctuation_text(p, ">"@)
        },
        Arguments::Parenthesized { inputs, output } => {
            let p = punctuation_text(pre, "("@);
            let p = tys_text(p, inputs@, ", "@);
            let p = punctuation_text(p, ")"@);
            match output {
                Some(t) => ty_text(plain_text(operator_text(plain_text(p, " "@), "->"@), " "@), *t),
                None => p,
            }
        },
        Arguments::Plain => pre,
    }
}

/// Output after path segments joined by `::`, each name shown as an entity
/// when it reads as a type.
pub open spec fn segments_text(pre: Seq<char>, segs: Seq<Segment>, turbofish: bool) -> Seq<char>
    decreases segs,
{
    if segs.len() == 0 {
        pre
    } else {
        let p = segments_text(pre, segs.drop_last(), turbofish);
        let p = if segs.len() > 1 { punctuation_text(p, "::"@) } else { p };
        let p = name_text(p, segs.last().ident@);
        arguments_text(p, segs.last().arguments, turbofish)
    }
}

/// Output after a path node.
pub open spec fn path_text(pre: Seq<char>, path: Path) -> Seq<char>
    decreases path,
{
    end_text(segments_text(node_text(pre, "path"@), path.segments@, true))
}

/// Output after a bound.
pub open spec fn bound_text(pre: Seq<char>, b: Bound) -> Seq<char>
    decreases b,
{
    match b {
        Bound::Trait(path) => path_text(pre, path),
        Bound::Lifetime(l) => storage_text(pre, lifetime(l@)),
        Bound::Other(o) => plain_text(pre, o@),
    }
}

/// Output after bounds joined by `sep`.
pub open spec fn bounds_text(pre: Seq<char>, bs: Seq<Bound>, sep: Seq<char>) -> Seq<char>
    decreases bs,
{
    if bs.len() == 0 {
        pre
    } else {
        let p = bounds_text(pre, bs.drop_last(), sep);
        let p = if bs.len() > 1 { plain_text(p, sep) } else { p };
        bound_text(p, bs.last())
    }
}

/// Output after types joined by `sep`.
pub open spec fn tys_text(pre: Seq<char>, ts: Seq<Ty>, sep: Seq<char>) -> Seq<char>
    decreases ts,
{
    if ts.len() == 0 {
        pre
    } else {
        let p = tys_text(pre, ts.drop_last(), sep);
        let p = if ts.len() > 1 { plain_text(p, sep) } else { p };
        ty_text(p, ts.last())
    }
}

/// Output after the segments of a qualified path past the first, each as an
/// entity, joined by `::`.
pub open spec fn qualified_rest_text(pre: Seq<char>, segs: Seq<Segment>) -> Seq<char>
    decreases segs.len(),
{
    if segs.len() == 0 {
        pre
    } else {
        let p = qualified_rest_text(pre, segs.drop_last());
        let p = if segs.len() > 1 { punctuation_text(p, "::"@) } else { p };
        entity_text(p, segs.last().ident@)
    }
}

/// Output after a type node.
pub open spec fn ty_text(pre: Seq<char>, t: Ty) -> Seq<char>
    decreases t,
{
    let p = node_text(pre, "type"@);
    let p = match t {
        Ty::Path { qself, path } => match qself {
            Some(q) => {
                let p = punctuation_text(p, "<"@);
                let p = ty_text(p, *q);
                let p = keyword_text(plain_text(p, " "@), "as"@);
                let p = plain_text(p, " "@);
                let p = if path.segments@.len() > 0 { entity_text(p, path.segments@[0].ident@) } else { p };
                let p = punctuation_text(punctuation_text(p, ">"@), "::"@);
                if path.segments@.len() > 0 {
                    qualified_rest_text(p, path.segments@.skip(1))
                } else {
                    p
                }
            },
            None => segments_text(p, path.segments@, false),
        },
        Ty::Reference { lifetime: l, mutable, elem } => {
            let p = punctuation_text(p, "&"@);
            let p = match l {
                Some(name) => plain_text(storage_text(p, lifetime(name@)), " "@),
                None => p,
            };
            let p = if mutable { plain_text(keyword_text(p, "mut"@), " "@) } else { p };
            ty_text(p, *elem)
        },
        Ty::Slice(elem) => punctuation_text(ty_text(punctuation_text(p, "["@), *elem), "]"@),
        Ty::Array { elem, len } => {
            let p = ty_text(punctuation_text(p, "["@), *elem);
            punctuation_text(plain_text(plain_text(p, "; "@), len@), "]"@)
        },
        Ty::Tuple(elems) => punctuation_text(tys_text(punctuation_text(p, "("@), elems@, ", "@), ")"@),
        Ty::ImplTrait(bounds) => bounds_text(plain_text(keyword_text(p, "impl"@), " "@), bounds@, " + "@),
        Ty::TraitObject(bounds) => bounds_text(plain_text(keyword_text(p, "dyn"@), " "@), bounds@, " + "@),
        Ty::Infer => plain_text(p, "_"@),
        Ty::Never => punctuation_text(p, "!"@),
        Ty::Other(o) => plain_text(p, o@),
    };
    end_text(p)
}


/// The writer of highlighted output.
pub struct Visitor {
    output: Vec<char>,
}

impl Visitor {
    /// Everything written so far.
    pub closed spec fn written(&self) -> Seq<char> {
        self.output@
    }

    /// A writer that has written nothing.
    pub fn new() -> (v: Visitor)
        ensures
            v.written() == Seq::<char>::empty(),
    {
        Visitor { output: Vec::new() }
    }

    /// The output written so far.
    pub fn text(&self) -> (s: String)
        ensures
            s@ == self.written(),
    {
        string_of(&self.output)
    }

    /// Writes `text` unescaped.
    pub fn raw(&mut self, text: &str)
        ensures
            final(self).written() == old(self).written() + text@,
    {
        extend_str(&mut self.output, text);
    }

    /// Writes the characters `text` unescaped.
    pub fn raw_chars(&mut self, text: &Vec<char>)
        ensures
            final(self).written() == old(self).written() + text@,
    {
        crate::text::extend_chars(&mut self.output, text);
    }

    /// Writes a token of class `class` whose text is the characters `text`.
    pub fn token_chars(&mut self, class: &str, text: &Vec<char>)
        ensures
            final(self).written() == token_text(old(self).written(), class@, text@),
    {
        extend_str(&mut self.output, "<span class=\"syntax ");
        extend_str(&mut self.output, class);
        extend_str(&mut self.output, "\">");
        crate::escape::stream_chars(&mut self.output, text);
        extend_str(&mut self.output, "</span>");
    }

    /// Writes a token of class `class` with text `text`.
    pub fn token(&mut self, class: &str, text: &str)
        ensures
            final(self).written() == token_text(old(self).written(), class@, text@),
    {
        extend_str(&mut self.output, "<span class=\"syntax ");
        extend_str(&mut self.output, class);
        extend_str(&mut self.output, "\">");
        stream(&mut self.output, text);
        extend_str(&mut self.output, "</span>");
    }

    /// Writes a literal token of class `class`; it is written as any token.
    pub fn literal(&mut self, class: &str, word: &str)
        ensures
            final(self).written() == token_text(old(self).written(), class@, word@),
    {
        self.token(class, word);
    }

    pub fn keyword(&mut self, word: &str)
        ensures
            final(self).written() == keyword_text(old(self).written(), word@),
    {
        self.literal("keyword", word);
    }

    pub fn entity(&mut self, name: &str)
        ensures
            final(self).written() == entity_text(old(self).written(), name@),
    {
        self.token("entity", name);
    }

    pub fn string(&mut self, text: &str)
        ensures
            final(self).written() == string_text(old(self).written(), text@),
    {
        self.token("string", text);
    }

    pub fn constant(&mut self, text: &str)
        ensures
            final(self).written() == constant_text(old(self).written(), text@),
    {
        self.token("constant", text);
    }

    pub fn storage(&mut self, text: &str)
        ensures
            final(self).written() == storage_text(old(self).written(), text@),
    {
        self.literal("storage", text);
    }

    pub fn punctuation(&mut self, text: &str)
        ensures
            final(self).written() == punctuation_text(old(self).written(), text@),
    {
        self.token("punctuation", text);
    }

    pub fn variable(&mut self, text: &str)
        ensures
            final(self).written() == variable_text(old(self).written(), text@),
    {
        self.token("variable", text);
    }

    pub fn function(&mut self, text: &str)
        ensures
            final(self).written() == function_text(old(self).written(), text@),
    {
        self.token("function", text);
    }

    pub fn operator(&mut self, text: &str)
        ensures
            final(self).written() == operator_text(old(self).written(), text@),
    {
        self.token("operator", text);
    }

    pub fn macros(&mut self, text: &str)
        ensures
            final(self).written() == macro_text(old(self).written(), text@),
    {
        self.token("macro", text);
    }

    pub fn comment(&mut self, text: &str)
        ensures
            final(self).written() == comment_text(old(self).written(), text@),
    {
        self.token("comment", text);
    }

    /// Writes `text` escaped.
    pub fn plain(&mut self, text: &str)
        ensures
            final(self).written() == plain_text(old(self).written(), text@),
    {
        stream(&mut self.output, text);
    }

    /// Opens a node span of class `class`.
    pub fn node(&mut self, class: &str)
        ensures
            final(self).written() == node_text(old(self).written(), class@),
    {
        extend_str(&mut self.output, "<span class=\"node-");
        stream(&mut self.output, class);
        extend_str(&mut self.output, "\">");
    }

    /// Closes a span.
    pub fn end(&mut self)
        ensures
            final(self).written() == end_text(old(self).written()),
    {
        extend_str(&mut self.output, "</span>");
    }

    /// Writes a lifetime token of storage class.
    pub fn lifetime(&mut self, name: &str)
        ensures
            final(self).written() == storage_text(old(self).written(), lifetime(name@)),
    {
        let mut text: Vec<char> = Vec::new();
        text.push('\'');
        extend_str(&mut text, name);
        assert(text@ == lifetime(name@));
        self.token_chars("storage", &text);
    }

    /// Writes a name as an entity when it reads as a type, else as plain text.
    pub fn name(&mut self, name: &str)
        ensures
            final(self).written() == name_text(old(self).written(), name@),
    {
        if is_type_name(name) {
            self.entity(name);
        } else {
            self.plain(name);
        }
    }
}

/// Whether a name reads as a type.
pub fn is_type_name(name: &str) -> (r: bool)
    ensures
        r == reads_as_type(name@),
{
    let chars = crate::text::chars_of(name);
    chars.len() > 0 && (uppercase(chars[0]) || chars[0] == '_')
}

/// Whether a name is a value keyword.
pub fn is_keyword_value(name: &str) -> (r: bool)
    ensures
        r == value_keyword(name@),
{
    let n = name.to_owned();
    let t = String::from_str("true");
    let f = String::from_str("false");
    let none = String::from_str("None");
    let some = String::from_str("Some");
    n == t || n == f || n == none || n == some
}


impl Visitor {
    /// Writes generic arguments joined by `, `.
    pub fn generic_args(&mut self, args: &Vec<GenericArg>)
        ensures
            final(self).written() == generic_args_text(old(self).written(), args@),
        decreases args,
    {
        let ghost pre = self.written();
        let mut i: usize = 0;
        while i < args.len()
            invariant
                0 <= i <= args.len(),
                self.written() == generic_args_text(pre, args@.take(i as int)),
            decreases args.len() - i,
        {
            assert(args@.take(i + 1).drop_last() == args@.take(i as int));
            if i > 0 {
                self.plain(", ");
            }
            match &args[i] {
                GenericArg::Type(t) => self.typed(t),
                GenericArg::Lifetime(l) => self.lifetime(l.as_str()),
                GenericArg::Other(o) => self.plain(o.as_str()),
            }
            i = i + 1;
        }
        assert(args@.take(args.len() as int) == args@);
    }

    /// Writes the arguments of a path segment.
    pub fn arguments(&mut self, a: &Arguments, turbofish: bool)
        ensures
            final(self).written() == arguments_text(old(self).written(), *a, turbofish),
        decreases a,
    {
        match a {
            Arguments::Angle(args) => {
                self.punctuation(if turbofish { "::<" } else { "<" });
                self.generic_args(args);
                self.punctuation(">");
            },
            Arguments::Parenthesized { inputs, output } => {
                self.punctuation("(");
                self.types(inputs, ", ");
                self.punctuation(")");
                match output {
                    Some(t) => {
                        self.plain(" ");
                        self.operator("->");
                        self.plain(" ");
                        self.typed(t);
                    },
                    None => {},
                }
            },
            Arguments::Plain => {},
        }
    }

    /// Writes path segments joined by `::`.
    pub fn segments(&mut self, segs: &Vec<Segment>, turbofish: bool)
        ensures
            final(self).written() == segments_text(old(self).written(), segs@, turbofish),
        decreases segs,
    {
        let ghost pre = self.written();
        let mut i: usize = 0;
        while i < segs.len()
            invariant
                0 <= i <= segs.len(),
                self.written() == segments_text(pre, segs@.take(i as int), turbofish),
            decreases segs.len() - i,
        {
            assert(segs@.take(i + 1).drop_last() == segs@.take(i as int));
            if i > 0 {
                self.punctuation("::");
            }
            self.name(segs[i].ident.as_str());
            self.arguments(&segs[i].arguments, turbofish);
            i = i + 1;
        }
        assert(segs@.take(segs.len() as int) == segs@);
    }

    /// Writes a path node.
    pub fn path(&mut self, path: &Path)
        ensures
            final(self).written() == path_text(old(self).written(), *path),
        decreases path,
    {
        self.node("path");
        self.segments(&path.segments, true);
        self.end();
    }

    /// Writes a bound.
    pub fn bound(&mut self, b: &Bound)
        ensures
            final(self).written() == bound_text(old(self).written(), *b),
        decreases b,
    {
        match b {
            Bound::Trait(path) => self.path(path),
            Bound::Lifetime(l) => self.lifetime(l.as_str()),
            Bound::Other(o) => self.plain(o.as_str()),
        }
    }

    /// Writes bounds joined by `sep`.
    pub fn bounds(&mut self, bs: &Vec<Bound>, sep: &str)
        ensures
            final(self).written() == bounds_text(old(self).written(), bs@, sep@),
        decreases bs,
    {
        let ghost pre = self.written();
        let mut i: usize = 0;
        while i < bs.len()
            invariant
                0 <= i <= bs.len(),
                self.written() == bounds_text(pre, bs@.take(i as int), sep@),
            decreases bs.len() - i,
        {
            assert(bs@.take(i + 1).drop_last() == bs@.take(i as int));
            if i > 0 {
                self.plain(sep);
            }
            self.bound(&bs[i]);
            i = i + 1;
        }
        assert(bs@.take(bs.len() as int) == bs@);
    }

    /// Writes types joined by `sep`.
    pub fn types(&mut self, ts: &Vec<Ty>, sep: &str)
        ensures
            final(self).written() == tys_text(old(self).written(), ts@, sep@),
        decreases ts,
    {
        let ghost pre = self.written();
        let mut i: usize = 0;
        while i < ts.len()
            invariant
                0 <= i <= ts.len(),
                self.written() == tys_text(pre, ts@.take(i as int), sep@),
            decreases ts.len() - i,
        {
            assert(ts@.take(i + 1).drop_last() == ts@.take(i as int));
            if i > 0 {
                self.plain(sep);
            }
            self.typed(&ts[i]);
            i = i + 1;
        }
        assert(ts@.take(ts.len() as int) == ts@);
    }

    /// Writes a type node.
    pub fn typed(&mut self, t: &Ty)
        ensures
            final(self).written() == ty_text(old(self).written(), *t),
        decreases t,
    {
        self.node("type");
        match t {
            Ty::Path { qself, path } => match qself {
                Some(q) => {
                    self.punctuation("<");
                    self.typed(q);
                    self.plain(" ");
                    self.keyword("as");
                    self.plain(" ");
                    if path.segments.len() > 0 {
                        self.entity(path.segments[0].ident.as_str());
                    }
                    self.punctuation(">");
                    self.punctuation("::");
                    let ghost pre = self.written();
                    let ghost rest = path.segments@.skip(1);
                    let mut i: usize = 1;
                    while i < path.segments.len()
                        invariant
                            1 <= i,
                            i <= path.segments.len() || path.segments.len() == 0,
                            rest == path.segments@.skip(1),
                            path.segments.len() > 0 ==> self.written() == qualified_rest_text(pre, rest.take(i - 1)),
                            path.segments.len() == 0 ==> self.written() == pre,
                        decreases path.segments.len() - i,
                    {
                        assert(rest.take(i as int).drop_last() == rest.take(i - 1));
                        assert(rest.take(i as int).last() == path.segments@[i as int]);
                        if i > 1 {
                            self.punctuation("::");
                        }
                        self.entity(path.segments[i].ident.as_str());
                        i = i + 1;
                    }
                    proof {
                        if path.segments.len() > 0 {
                            assert(rest.take(i - 1) == rest);
                        }
                    }
                },
                None => self.segments(&path.segments, false),
            },
            Ty::Reference { lifetime: l, mutable, elem } => {
                self.punctuation("&");
                match l {
                    Some(name) => {
                        self.lifetime(name.as_str());
                        self.plain(" ");
                    },
                    None => {},
                }
                if *mutable {
                    self.keyword("mut");
                    self.plain(" ");
                }
                self.typed(elem);
            },
            Ty::Slice(elem) => {
                self.punctuation("[");
                self.typed(elem);
                self.punctuation("]");
            },
            Ty::Array { elem, len } => {
                self.punctuation("[");
                self.typed(elem);
                self.plain("; ");
                self.plain(len.as_str());
                self.punctuation("]");
            },
            Ty::Tuple(elems) => {
                self.punctuation("(");
                self.types(elems, ", ");
                self.punctuation(")");
            },
            Ty::ImplTrait(bounds) => {
                self.keyword("impl");
                self.plain(" ");
                self.bounds(bounds, " + ");
            },
            Ty::TraitObject(bounds) => {
                self.keyword("dyn");
                self.plain(" ");
                self.bounds(bounds, " + ");
            },
            Ty::Infer => self.plain("_"),
            Ty::Never => self.punctuation("!"),
            Ty::Other(o) => self.plain(o.as_str()),
        }
        self.end();
    }
}


/// Output after a literal.
pub open spec fn value_text(pre: Seq<char>, lit: Lit) -> Seq<char> {
    match lit {
        Lit::Str(v) => string_text(pre, "\""@ + v@ + "\""@),
        Lit::Char(c) => string_text(pre, "'"@ + seq![c] + "'"@),
        Lit::Int(t) => constant_text(pre, t@),
        Lit::Float(t) => constant_text(pre, t@),
        Lit::Bool(b) => constant_text(pre, if b { "true"@ } else { "false"@ }),
        Lit::ByteStr(bytes) => string_text(pre, "b\""@ + crate::escape::bytes_text(bytes@) + "\""@),
        Lit::Byte(b) => string_text(pre, "b'"@ + seq![b as char] + "'"@),
        Lit::Other(t) => plain_text(pre, t@),
    }
}

/// Output after patterns joined by `sep`.
pub open spec fn pats_text(pre: Seq<char>, ps: Seq<Pat>, sep: Seq<char>) -> Seq<char>
    decreases ps,
{
    if ps.len() == 0 {
        pre
    } else {
        let p = pats_text(pre, ps.drop_last(), sep);
        let p = if ps.len() > 1 { plain_text(p, sep) } else { p };
        pat_text(p, ps.last())
    }
}

/// Output after the fields of a struct pattern, joined by `, `.
pub open spec fn field_pats_text(pre: Seq<char>, fs: Seq<FieldPat>) -> Seq<char>
    decreases fs,
{
    if fs.len() == 0 {
        pre
    } else {
        let p = field_pats_text(pre, fs.drop_last());
        let p = if fs.len() > 1 { plain_text(p, ", "@) } else { p };
        let f = fs.last();
        let p = variable_text(p, f.member@);
        if f.colon {
            pat_text(punctuation_text(p, ": "@), f.pat)
        } else {
            p
        }
    }
}

/// Output after a pattern node.
pub open spec fn pat_text(pre: Seq<char>, pat: Pat) -> Seq<char>
    decreases pat,
{
    let p = node_text(pre, "pattern"@);
    let p = match pat {
        Pat::Ident { by_ref, mutable, ident } => {
            let p = if by_ref { plain_text(keyword_text(p, "ref"@), " "@) } else { p };
            let p = if mutable { plain_text(keyword_text(p, "mut"@), " "@) } else { p };
            variable_text(p, ident@)
        },
        Pat::Wild => plain_text(p, "_"@),
        Pat::Lit(lit) => value_text(p, lit),
        Pat::Path(path) => path_text(p, path),
        Pat::Tuple(elems) => punctuation_text(pats_text(punctuation_text(p, "("@), elems@, ", "@), ")"@),
        Pat::TupleStruct { path, elems } => {
            let p = punctuation_text(path_text(p, path), "("@);
            punctuation_text(pats_text(p, elems@, ", "@), ")"@)
        },
        Pat::Struct { path, fields, qualified } => {
            let p = plain_text(path_text(p, path), " { "@);
            let p = field_pats_text(p, fields@);
            let p = if qualified { plain_text(p, ", .."@) } else { p };
            plain_text(p, " }"@)
        },
        Pat::Reference { mutable, pat } => {
            let p = punctuation_text(p, "&"@);
            let p = if mutable { plain_text(keyword_text(p, "mut"@), " "@) } else { p };
            pat_text(p, *pat)
        },
        Pat::Slice(elems) => punctuation_text(pats_text(punctuation_text(p, "["@), elems@, ", "@), "]"@),
        Pat::Or(cases) => pats_text(p, cases@, " | "@),
        Pat::Rest => plain_text(p, ".."@),
        Pat::Type { pat, ty } => ty_text(punctuation_text(pat_text(p, *pat), ": "@), *ty),
        Pat::Other(o) => plain_text(p, o@),
    };
    end_text(p)
}

/// Output after the bounds of a type parameter: `: ` before the first,
/// ` + ` between the others.
pub open spec fn param_bounds_text(pre: Seq<char>, bs: Seq<Bound>) -> Seq<char>
    decreases bs.len(),
{
    if bs.len() == 0 {
        pre
    } else {
        let p = param_bounds_text(pre, bs.drop_last());
        let p = if bs.len() == 1 { punctuation_text(p, ": "@) } else { plain_text(p, " + "@) };
        bound_text(p, bs.last())
    }
}

/// Output after generic parameters joined by `, `.
pub open spec fn params_text(pre: Seq<char>, ps: Seq<GenericParam>) -> Seq<char>
    decreases ps.len(),
{
    if ps.len() == 0 {
        pre
    } else {
        let p = params_text(pre, ps.drop_last());
        let p = if ps.len() > 1 { plain_text(p, ", "@) } else { p };
        match ps.last() {
            GenericParam::Type { ident, bounds } => param_bounds_text(entity_text(p, ident@), bounds@),
            GenericParam::Lifetime(l) => storage_text(p, lifetime(l@)),
            GenericParam::Const { ident, ty } => {
                let p = plain_text(keyword_text(p, "const"@), " "@);
                ty_text(punctuation_text(constant_text(p, ident@), ": "@), ty)
            },
        }
    }
}

/// Output after generic parameters, if there are any.
pub open spec fn generics_text(pre: Seq<char>, g: Generics) -> Seq<char> {
    if g.params@.len() == 0 {
        pre
    } else {
        let p = punctuation_text(node_text(pre, "generics"@), "<"@);
        end_text(punctuation_text(params_text(p, g.params@), ">"@))
    }
}

/// Output after where-clause predicates, each indented, joined by `,\n`.
pub open spec fn predicates_text(pre: Seq<char>, ps: Seq<Predicate>) -> Seq<char>
    decreases ps.len(),
{
    if ps.len() == 0 {
        pre
    } else {
        let p = predicates_text(pre, ps.drop_last());
        let p = if ps.len() > 1 { plain_text(p, ",\n"@) } else { p };
        let p = plain_text(p, "    "@);
        match ps.last() {
            Predicate::Type { bounded, bounds } => bounds_text(
                punctuation_text(ty_text(p, bounded), ": "@),
                bounds@,
                " + "@,
            ),
            Predicate::Other(o) => plain_text(p, o@),
        }
    }
}

/// Output after a where clause.
pub open spec fn clause_text(pre: Seq<char>, ps: Seq<Predicate>) -> Seq<char> {
    let p = keyword_text(node_text(pre, "where"@) + "\n"@, "where"@) + "\n"@;
    end_text(plain_text(predicates_text(p, ps), ","@))
}

/// Output after attribute lines.
pub open spec fn attribute_lines_text(pre: Seq<char>, attrs: Seq<String>) -> Seq<char>
    decreases attrs.len(),
{
    if attrs.len() == 0 {
        pre
    } else {
        macro_text(attribute_lines_text(pre, attrs.drop_last()), attrs.last()@) + "\n"@
    }
}

/// Output after attributes, if there are any.
pub open spec fn attributes_text(pre: Seq<char>, attrs: Seq<String>) -> Seq<char> {
    if attrs.len() == 0 {
        pre
    } else {
        end_text(attribute_lines_text(node_text(pre, "attributes"@), attrs))
    }
}

/// Output after a visibility.
pub open spec fn visibility_text(pre: Seq<char>, v: Visibility) -> Seq<char> {
    match v {
        Visibility::Public => end_text(keyword_text(node_text(pre, "visibility"@), "pub"@) + " "@),
        Visibility::Restricted(path) => {
            let p = keyword_text(node_text(pre, "visibility"@), "pub"@);
            let p = punctuation_text(keyword_text(punctuation_text(p, "("@), path@), ")"@);
            end_text(p + " "@)
        },
        Visibility::Inherited => pre,
    }
}

/// Output after use trees joined by `, `.
pub open spec fn trees_text(pre: Seq<char>, ts: Seq<UseTree>) -> Seq<char>
    decreases ts,
{
    if ts.len() == 0 {
        pre
    } else {
        let p = trees_text(pre, ts.drop_last());
        let p = if ts.len() > 1 { plain_text(p, ", "@) } else { p };
        tree_text(p, ts.last())
    }
}

/// Output after a use tree.
pub open spec fn tree_text(pre: Seq<char>, t: UseTree) -> Seq<char>
    decreases t,
{
    match t {
        UseTree::Path { ident, tree } => tree_text(punctuation_text(name_text(pre, ident@), "::"@), *tree),
        UseTree::Name(n) => name_text(pre, n@),
        UseTree::Rename { ident, rename } => {
            let p = plain_text(name_text(pre, ident@), " "@);
            name_text(plain_text(keyword_text(p, "as"@), " "@), rename@)
        },
        UseTree::Glob => punctuation_text(pre, "*"@),
        UseTree::Group(items) => plain_text(trees_text(plain_text(pre, "{"@), items@), "}"@),
    }
}


impl Visitor {
    /// Writes a literal.
    pub fn value(&mut self, lit: &Lit)
        ensures
            final(self).written() == value_text(old(self).written(), *lit),
    {
        match lit {
            Lit::Str(v) => {
                let mut t: Vec<char> = Vec::new();
                extend_str(&mut t, "\"");
                extend_str(&mut t, v.as_str());
                extend_str(&mut t, "\"");
                assert(t@ =~= "\""@ + v@ + "\""@);
                self.token_chars("string", &t);
            },
            Lit::Char(c) => {
                let mut t: Vec<char> = Vec::new();
                extend_str(&mut t, "'");
                t.push(*c);
                extend_str(&mut t, "'");
                assert(t@ =~= "'"@ + seq![*c] + "'"@);
                self.token_chars("string", &t);
            },
            Lit::Int(t) => self.constant(t.as_str()),
            Lit::Float(t) => self.constant(t.as_str()),
            Lit::Bool(b) => {
                if *b {
                    self.constant("true");
                } else {
                    self.constant("false");
                }
            },
            Lit::ByteStr(bytes) => {
                let shown = crate::escape::bytes(bytes.as_slice());
                let mut t: Vec<char> = Vec::new();
                extend_str(&mut t, "b\"");
                extend_str(&mut t, shown.as_str());
                extend_str(&mut t, "\"");
                assert(t@ =~= "b\""@ + crate::escape::bytes_text(bytes@) + "\""@);
                self.token_chars("string", &t);
            },
            Lit::Byte(b) => {
                let mut t: Vec<char> = Vec::new();
                extend_str(&mut t, "b'");
                t.push(*b as char);
                extend_str(&mut t, "'");
                assert(t@ =~= "b'"@ + seq![*b as char] + "'"@);
                self.token_chars("string", &t);
            },
            Lit::Other(t) => self.plain(t.as_str()),
        }
    }

    /// Writes patterns joined by `sep`.
    pub fn patterns(&mut self, ps: &Vec<Pat>, sep: &str)
        ensures
            final(self).written() == pats_text(old(self).written(), ps@, sep@),
        decreases ps,
    {
        let ghost pre = self.written();
        let mut i: usize = 0;
        while i < ps.len()
            invariant
                0 <= i <= ps.len(),
                self.written() == pats_text(pre, ps@.take(i as int), sep@),
            decreases ps.len() - i,
        {
            assert(ps@.take(i + 1).drop_last() == ps@.take(i as int));
            if i > 0 {
                self.plain(sep);
            }
            self.pattern(&ps[i]);
            i = i + 1;
        }
        assert(ps@.take(ps.len() as int) == ps@);
    }

    /// Writes the fields of a struct pattern.
    pub fn field_patterns(&mut self, fs: &Vec<FieldPat>)
        ensures
            final(self).written() == field_pats_text(old(self).written(), fs@),
        decreases fs,
    {
        let ghost pre = self.written();
        let mut i: usize = 0;
        while i < fs.len()
            invariant
                0 <= i <= fs.len(),
                self.written() == field_pats_text(pre, fs@.take(i as int)),
            decreases fs.len() - i,
        {
            assert(fs@.take(i + 1).drop_last() == fs@.take(i as int));
            if i > 0 {
                self.plain(", ");
            }
            let f = &fs[i];
            self.variable(f.member.as_str());
            if f.colon {
                self.punctuation(": ");
                self.pattern(&f.pat);
            }
            i = i + 1;
        }
        assert(fs@.take(fs.len() as int) == fs@);
    }

    /// Writes a pattern node.
    pub fn pattern(&mut self, pat: &Pat)
        ensures
            final(self).written() == pat_text(old(self).written(), *pat),
        decreases pat,
    {
        self.node("pattern");
        match pat {
            Pat::Ident { by_ref, mutable, ident } => {
                if *by_ref {
                    self.keyword("ref");
                    self.plain(" ");
                }
                if *mutable {
                    self.keyword("mut");
                    self.plain(" ");
                }
                self.variable(ident.as_str());
            },
            Pat::Wild => self.plain("_"),
            Pat::Lit(lit) => self.value(lit),
            Pat::Path(path) => self.path(path),
            Pat::Tuple(elems) => {
                self.punctuation("(");
                self.patterns(elems, ", ");
                self.punctuation(")");
            },
            Pat::TupleStruct { path, elems } => {
                self.path(path);
                self.punctuation("(");
                self.patterns(elems, ", ");
                self.punctuation(")");
            },
            Pat::Struct { path, fields, qualified } => {
                self.path(path);
                self.plain(" { ");
                self.field_patterns(fields);
                if *qualified {
                    self.plain(", ..");
                }
                self.plain(" }");
            },
            Pat::Reference { mutable, pat } => {
                self.punctuation("&");
                if *mutable {
                    self.keyword("mut");
                    self.plain(" ");
                }
                self.pattern(pat);
            },
            Pat::Slice(elems) => {
                self.punctuation("[");
                self.patterns(elems, ", ");
                self.punctuation("]");
            },
            Pat::Or(cases) => self.patterns(cases, " | "),
            Pat::Rest => self.plain(".."),
            Pat::Type { pat, ty } => {
                self.pattern(pat);
                self.punctuation(": ");
                self.typed(ty);
            },
            Pat::Other(o) => self.plain(o.as_str()),
        }
        self.end();
    }

    /// Writes the bounds of a type parameter.
    pub fn parameter_bounds(&mut self, bs: &Vec<Bound>)
        ensures
            final(self).written() == param_bounds_text(old(self).written(), bs@),
    {
        let ghost pre = self.written();
        let mut j: usize = 0;
        while j < bs.len()
            invariant
                0 <= j <= bs.len(),
                self.written() == param_bounds_text(pre, bs@.take(j as int)),
            decreases bs.len() - j,
        {
            assert(bs@.take(j + 1).drop_last() == bs@.take(j as int));
            if j == 0 {
                self.punctuation(": ");
            } else {
                self.plain(" + ");
            }
            self.bound(&bs[j]);
            j = j + 1;
        }
        assert(bs@.take(bs.len() as int) == bs@);
    }

    /// Writes generic parameters, if there are any.
    pub fn generics(&mut self, g: &Generics)
        ensures
            final(self).written() == generics_text(old(self).written(), *g),
    {
        if g.params.len() > 0 {
            self.node("generics");
            self.punctuation("<");
            let ghost pre = self.written();
            let mut i: usize = 0;
            while i < g.params.len()
                invariant
                    0 <= i <= g.params.len(),
                    self.written() == params_text(pre, g.params@.take(i as int)),
                decreases g.params.len() - i,
            {
                assert(g.params@.take(i + 1).drop_last() == g.params@.take(i as int));
                if i > 0 {
                    self.plain(", ");
                }
                match &g.params[i] {
                    GenericParam::Type { ident, bounds } => {
                        self.entity(ident.as_str());
                        self.parameter_bounds(bounds);
                    },
                    GenericParam::Lifetime(l) => self.lifetime(l.as_str()),
                    GenericParam::Const { ident, ty } => {
                        self.keyword("const");
                        self.plain(" ");
                        self.constant(ident.as_str());
                        self.punctuation(": ");
                        self.typed(ty);
                    },
                }
                i = i + 1;
            }
            assert(g.params@.take(g.params.len() as int) == g.params@);
            self.punctuation(">");
            self.end();
        }
    }

    /// Writes a where clause.
    pub fn clause(&mut self, ps: &Vec<Predicate>)
        ensures
            final(self).written() == clause_text(old(self).written(), ps@),
    {
        self.node("where");
        self.raw("\n");
        self.keyword("where");
        self.raw("\n");
        let ghost pre = self.written();
        let mut i: usize = 0;
        while i < ps.len()
            invariant
                0 <= i <= ps.len(),
                self.written() == predicates_text(pre, ps@.take(i as int)),
            decreases ps.len() - i,
        {
            assert(ps@.take(i + 1).drop_last() == ps@.take(i as int));
            if i > 0 {
                self.plain(",\n");
            }
            self.plain("    ");
            match &ps[i] {
                Predicate::Type { bounded, bounds } => {
                    self.typed(bounded);
                    self.punctuation(": ");
                    self.bounds(bounds, " + ");
                },
                Predicate::Other(o) => self.plain(o.as_str()),
            }
            i = i + 1;
        }
        assert(ps@.take(ps.len() as int) == ps@);
        self.plain(",");
        self.end();
    }

    /// Writes attributes, one per line, if there are any.
    pub fn attributes(&mut self, attrs: &Vec<String>)
        ensures
            final(self).written() == attributes_text(old(self).written(), attrs@),
    {
        if attrs.len() == 0 {
            return;
        }
        self.node("attributes");
        let ghost pre = self.written();
        let mut i: usize = 0;
        while i < attrs.len()
            invariant
                0 <= i <= attrs.len(),
                self.written() == attribute_lines_text(pre, attrs@.take(i as int)),
            decreases attrs.len() - i,
        {
            assert(attrs@.take(i + 1).drop_last() == attrs@.take(i as int));
            self.macros(attrs[i].as_str());
            self.raw("\n");
            i = i + 1;
        }
        assert(attrs@.take(attrs.len() as int) == attrs@);
        self.end();
    }

    /// Writes a visibility.
    pub fn visibility(&mut self, v: &Visibility)
        ensures
            final(self).written() == visibility_text(old(self).written(), *v),
    {
        match v {
            Visibility::Public => {
                self.node("visibility");
                self.keyword("pub");
                self.raw(" ");
                self.end();
            },
            Visibility::Restricted(path) => {
                self.node("visibility");
                self.keyword("pub");
                self.punctuation("(");
                self.keyword(path.as_str());
                self.punctuation(")");
                self.raw(" ");
                self.end();
            },
            Visibility::Inherited => {},
        }
    }

    /// Writes use trees joined by `, `.
    pub fn trees(&mut self, ts: &Vec<UseTree>)
        ensures
            final(self).written() == trees_text(old(self).written(), ts@),
        decreases ts,
    {
        let ghost pre = self.written();
        let mut i: usize = 0;
        while i < ts.len()
            invariant
                0 <= i <= ts.len(),
                self.written() == trees_text(pre, ts@.take(i as int)),
            decreases ts.len() - i,
        {
            assert(ts@.take(i + 1).drop_last() == ts@.take(i as int));
            if i > 0 {
                self.plain(", ");
            }
            self.tree(&ts[i]);
            i = i + 1;
        }
        assert(ts@.take(ts.len() as int) == ts@);
    }

    /// Writes a use tree.
    pub fn tree(&mut self, t: &UseTree)
        ensures
            final(self).written() == tree_text(old(self).written(), *t),
        decreases t,
    {
        match t {
            UseTree::Path { ident, tree } => {
                self.name(ident.as_str());
                self.punctuation("::");
                self.tree(tree);
            },
            UseTree::Name(n) => self.name(n.as_str()),
            UseTree::Rename { ident, rename } => {
                self.name(ident.as_str());
                self.plain(" ");
                self.keyword("as");
                self.plain(" ");
                self.name(rename.as_str());
            },
            UseTree::Glob => self.punctuation("*"),
            UseTree::Group(items) => {
                self.plain("{");
                self.trees(items);
                self.plain("}");
            },
        }
    }
}


/// The last line of `s`: what follows its last line break.
pub open spec fn last_line(s: Seq<char>) -> Seq<char>
    decreases s.len(),
{
    if s.len() == 0 {
        s
    } else if s.last() == '\n' {
        seq![]
    } else {
        last_line(s.drop_last()).push(s.last())
    }
}

/// The spaces at the start of a line of markup, tags skipped: counting stops
/// at the first other character outside a tag. `tag` holds inside a tag.
pub open spec fn indent_width(line: Seq<char>, tag: bool) -> nat
    decreases line.len(),
{
    if line.len() == 0 {
        0
    } else {
        let c = line[0];
        let rest = line.drop_first();
        if c == '<' {
            indent_width(rest, true)
        } else if c == '>' && tag {
            indent_width(rest, false)
        } else if c == ' ' && !tag {
            1 + indent_width(rest, false)
        } else if !tag {
            0
        } else {
            indent_width(rest, tag)
        }
    }
}

/// `n` spaces.
pub open spec fn spaces(n: nat) -> Seq<char> {
    Seq::new(n, |i: int| ' ')
}

/// The indentation of a nested block: the indentation of the last line
/// written, plus four spaces.
pub open spec fn leading_of(s: Seq<char>) -> Seq<char> {
    spaces(indent_width(last_line(s), false) + 4)
}

/// The indentation of the closing brace of a nested block: `ind` less four spaces.
pub open spec fn outer(ind: Seq<char>) -> Seq<char> {
    if ind.len() >= 4 {
        ind.subrange(0, ind.len() - 4)
    } else {
        seq![]
    }
}

/// How many links a method, field or await chain has; a `?` adds none.
pub open spec fn chain_length(e: Expr) -> nat
    decreases e,
{
    match e {
        Expr::MethodCall { receiver, .. } => 1 + chain_length(*receiver),
        Expr::Await(base) => 1 + chain_length(*base),
        Expr::Try(inner) => chain_length(*inner),
        Expr::Field { base, .. } => 1 + chain_length(*base),
        _ => 0,
    }
}

/// Whether an expression is written as a chain, one link per line.
pub open spec fn is_chained(e: Expr) -> bool {
    (e is MethodCall || e is Field || e is Try || e is Await) && chain_length(e) >= 3
}

/// Output after turbofish arguments joined by `, `: types as type nodes,
/// anything else as plain text.
pub open spec fn turbofish_args_text(pre: Seq<char>, args: Seq<GenericArg>) -> Seq<char>
    decreases args,
{
    if args.len() == 0 {
        pre
    } else {
        let p = turbofish_args_text(pre, args.drop_last());
        let p = if args.len() > 1 { plain_text(p, ", "@) } else { p };
        match args.last() {
            GenericArg::Type(t) => ty_text(p, t),
            GenericArg::Lifetime(l) => plain_text(p, lifetime(l@)),
            GenericArg::Other(o) => plain_text(p, o@),
        }
    }
}

/// Output after a method name, its turbofish and its arguments.
pub open spec fn call_tail_text(
    pre: Seq<char>,
    method: Seq<char>,
    turbofish: Option<Vec<GenericArg>>,
    args: Seq<Expr>,
) -> Seq<char>
    decreases args, 1int,
{
    let p = function_text(punctuation_text(pre, "."@), method);
    let p = match turbofish {
        Some(targs) => punctuation_text(turbofish_args_text(punctuation_text(p, "::<"@), targs@), ">"@),
        None => p,
    };
    punctuation_text(exprs_text(punctuation_text(p, "("@), args, ", "@), ")"@)
}

/// Whether an expression is a link of a chain: a method call, a field
/// access or an await.
pub open spec fn is_link(e: Expr) -> bool {
    e is MethodCall || e is Field || e is Await
}

/// Output after the receiver of a link: its own links when it is a link,
/// else the expression at the root of the chain.
pub open spec fn receiver_text(pre: Seq<char>, r: Expr, ind: Seq<char>) -> Seq<char>
    decreases r, 4int,
{
    if is_link(r) {
        links_text(pre, r, ind)
    } else {
        expr_text(pre, r)
    }
}

/// Output after the links of a chain, each on a new line indented by `ind`,
/// after its root expression.
pub open spec fn links_text(pre: Seq<char>, e: Expr, ind: Seq<char>) -> Seq<char>
    decreases e, 0int,
{
    match e {
        Expr::MethodCall { receiver, method, turbofish, args } => {
            let p = receiver_text(pre, *receiver, ind) + "\n"@ + ind;
            call_tail_text(p, method@, turbofish, args@)
        },
        Expr::Await(base) => {
            let p = receiver_text(pre, *base, ind) + "\n"@ + ind;
            keyword_text(punctuation_text(p, "."@), "await"@)
        },
        Expr::Field { base, member } => {
            let p = receiver_text(pre, *base, ind) + "\n"@ + ind;
            variable_text(punctuation_text(p, "."@), member@)
        },
        _ => pre,
    }
}

/// Output after a chain written one link per line.
pub open spec fn chained_text(pre: Seq<char>, e: Expr) -> Seq<char>
    decreases e, 1int,
{
    let ind = leading_of(pre);
    match e {
        Expr::Try(inner) => operator_text(receiver_text(pre, *inner, ind), "?"@),
        _ => links_text(pre, e, ind),
    }
}

/// Output after expressions joined by `sep`.
pub open spec fn exprs_text(pre: Seq<char>, es: Seq<Expr>, sep: Seq<char>) -> Seq<char>
    decreases es, 0int,
{
    if es.len() == 0 {
        pre
    } else {
        let p = exprs_text(pre, es.drop_last(), sep);
        let p = if es.len() > 1 { plain_text(p, sep) } else { p };
        expr_text(p, es.last())
    }
}

/// Output after statements, each indented by `ind`.
pub open spec fn stmts_text(pre: Seq<char>, ss: Seq<Stmt>, ind: Seq<char>) -> Seq<char>
    decreases ss, 0int,
{
    if ss.len() == 0 {
        pre
    } else {
        statement_text(stmts_text(pre, ss.drop_last(), ind), ss.last(), ind)
    }
}

/// Output after a braced block of statements opened by `open`, indented one
/// level deeper than the last line written.
pub open spec fn block_text(pre: Seq<char>, open: Seq<char>, ss: Seq<Stmt>) -> Seq<char>
    decreases ss, 1int,
{
    let ind = leading_of(pre);
    plain_text(stmts_text(plain_text(pre, open), ss, ind) + outer(ind), "}"@)
}

/// Output after match arms, each on its own line indented by `ind`.
pub open spec fn arms_text(pre: Seq<char>, arms: Seq<Arm>, ind: Seq<char>) -> Seq<char>
    decreases arms, 0int,
{
    if arms.len() == 0 {
        pre
    } else {
        let p = arms_text(pre, arms.drop_last(), ind) + ind;
        let arm = arms.last();
        let p = operator_text(plain_text(pat_text(p, arm.pat), " "@), "=>"@);
        plain_text(expr_text(plain_text(p, " "@), arm.body), ",\n"@)
    }
}

/// Output after the fields of a struct expression, one per line indented by `ind`.
pub open spec fn field_values_text(pre: Seq<char>, fs: Seq<FieldValue>, ind: Seq<char>) -> Seq<char>
    decreases fs, 0int,
{
    if fs.len() == 0 {
        pre
    } else {
        let p = field_values_text(pre, fs.drop_last(), ind);
        let p = if fs.len() > 1 { plain_text(p, ",\n"@) } else { p };
        let p = p + ind;
        let f = fs.last();
        let p = if f.colon {
            plain_text(punctuation_text(variable_text(p, f.member@), ":"@), " "@)
        } else {
            p
        };
        expr_text(p, f.expr)
    }
}

/// Output after an expression node.
pub open spec fn expr_text(pre: Seq<char>, e: Expr) -> Seq<char>
    decreases e, 3int,
{
    end_text(expr_body_text(node_text(pre, "expression"@), e))
}

/// Output after the contents of an expression node.
pub open spec fn expr_body_text(p: Seq<char>, e: Expr) -> Seq<char>
    decreases e, 2int,
{
    if is_chained(e) {
        chained_text(p, e)
    } else {
        match e {
            Expr::Lit(lit) => value_text(p, lit),
            Expr::Path(path) => if path.segments@.len() == 1 {
                let name = path.segments@[0].ident@;
                if reads_as_type(name) {
                    entity_text(p, name)
                } else if value_keyword(name) {
                    constant_text(p, name)
                } else {
                    variable_text(p, name)
                }
            } else {
                path_text(p, path)
            },
            Expr::Call { func, args } => {
                let p = punctuation_text(expr_text(p, *func), "("@);
                punctuation_text(exprs_text(p, args@, ", "@), ")"@)
            },
            Expr::MethodCall { receiver, method, turbofish, args } => call_tail_text(
                expr_text(p, *receiver),
                method@,
                turbofish,
                args@,
            ),
            Expr::Reference { mutable, expr } => {
                let p = punctuation_text(p, "&"@);
                let p = if mutable { plain_text(keyword_text(p, "mut"@), " "@) } else { p };
                expr_text(p, *expr)
            },
            Expr::Block(stmts) => block_text(p, " {\n"@, stmts@),
            Expr::If { cond, then_branch, else_branch } => {
                let ind = leading_of(p);
                let p = expr_text(plain_text(keyword_text(p, "if"@), " "@), *cond);
                let p = plain_text(stmts_text(plain_text(p, " {\n"@), then_branch@, ind) + outer(ind), "}"@);
                match else_branch {
                    Some(other) => expr_text(plain_text(keyword_text(plain_text(p, " "@), "else"@), " "@), *other),
                    None => p,
                }
            },
            Expr::Match { expr, arms } => {
                let ind = leading_of(p);
                let p = expr_text(plain_text(keyword_text(p, "match"@), " "@), *expr);
                plain_text(arms_text(plain_text(p, " {\n"@), arms@, ind) + outer(ind), "}"@)
            },
            Expr::Closure { asyncness, movability, capture, inputs, body } => {
                let p = if asyncness { plain_text(keyword_text(p, "async"@), " "@) } else { p };
                let p = if movability { plain_text(keyword_text(p, "static"@), " "@) } else { p };
                let p = if capture { plain_text(keyword_text(p, "move"@), " "@) } else { p };
                let p = punctuation_text(pats_text(punctuation_text(p, "|"@), inputs@, ", "@), "|"@);
                let p = plain_text(p, " "@);
                match *body {
                    Expr::Block(stmts) => block_text(p, "{\n"@, stmts@),
                    _ => expr_text(p, *body),
                }
            },
            Expr::Struct { path, fields } => {
                let ind = leading_of(p);
                let p = plain_text(path_text(p, path), " {\n"@);
                let p = field_values_text(p, fields@, ind) + "\n"@ + outer(ind);
                plain_text(p, "}"@)
            },
            Expr::Field { base, member } => variable_text(punctuation_text(expr_text(p, *base), "."@), member@),
            Expr::Index { expr, index } => {
                let p = punctuation_text(expr_text(p, *expr), "["@);
                punctuation_text(expr_text(p, *index), "]"@)
            },
            Expr::Unary { op, expr } => expr_text(operator_text(p, op@), *expr),
            Expr::Binary { left, op, right } => {
                let p = plain_text(expr_text(p, *left), " "@);
                expr_text(plain_text(operator_text(p, op@), " "@), *right)
            },
            Expr::Let { pat, expr } => {
                let p = pat_text(plain_text(keyword_text(p, "let"@), " "@), *pat);
                expr_text(plain_text(operator_text(plain_text(p, " "@), "="@), " "@), *expr)
            },
            Expr::Return(value) => {
                let p = keyword_text(p, "return"@);
                match value {
                    Some(v) => expr_text(plain_text(p, " "@), *v),
                    None => p,
                }
            },
            Expr::Try(inner) => operator_text(expr_text(p, *inner), "?"@),
            Expr::Await(base) => keyword_text(punctuation_text(expr_text(p, *base), "."@), "await"@),
            Expr::Paren(inner) => punctuation_text(expr_text(punctuation_text(p, "("@), *inner), ")"@),
            Expr::Tuple(elems) => punctuation_text(exprs_text(punctuation_text(p, "("@), elems@, ", "@), ")"@),
            Expr::Array(elems) => punctuation_text(exprs_text(punctuation_text(p, "["@), elems@, ", "@), "]"@),
            Expr::Cast { expr, ty } => {
                let p = keyword_text(plain_text(expr_text(p, *expr), " "@), "as"@);
                ty_text(plain_text(p, " "@), *ty)
            },
            Expr::Range { start, limits, end } => {
                let p = match start {
                    Some(s) => expr_text(p, *s),
                    None => p,
                };
                let p = operator_text(p, limits@);
                match end {
                    Some(x) => expr_text(p, *x),
                    None => p,
                }
            },
            Expr::Macro { path, tokens } => {
                let p = punctuation_text(macro_text(path_text(p, path), "!"@), "("@);
                punctuation_text(plain_text(p, tokens@), ")"@)
            },
            Expr::Other(o) => plain_text(p, o@),
        }
    }
}

/// Output after a statement indented by `ind`.
pub open spec fn statement_text(pre: Seq<char>, st: Stmt, ind: Seq<char>) -> Seq<char>
    decreases st, 0int,
{
    match st {
        Stmt::Local { pat, init } => {
            let p = plain_text(keyword_text(node_text(pre, "let"@) + ind, "let"@), " "@);
            let p = match pat {
                Pat::Ident { mutable: true, ident, .. } => variable_text(
                    plain_text(keyword_text(p, "mut"@), " "@),
                    ident@,
                ),
                _ => pat_text(p, pat),
            };
            let p = match init {
                Some(x) => expr_text(plain_text(operator_text(plain_text(p, " "@), "="@), " "@), x),
                None => p,
            };
            end_text(punctuation_text(p, ";"@) + "\n"@)
        },
        Stmt::Expr { expr, semi } => {
            let p = expr_text(node_text(pre, "statement"@) + ind, expr);
            let p = if semi { punctuation_text(p, ";"@) } else { p };
            end_text(p + "\n"@)
        },
        Stmt::Item(item) => item_text(pre, item),
        Stmt::Macro { path, tokens, semi } => {
            let p = path_text(node_text(pre, "statement"@) + ind, path);
            let p = punctuation_text(macro_text(p, "!"@), "("@);
            let p = punctuation_text(plain_text(p, tokens@), ")"@);
            let p = if semi { punctuation_text(p, ";"@) } else { p };
            end_text(p + "\n"@)
        },
    }
}

/// Output after function parameters joined by `, `; `lifetimes` selects
/// whether the lifetime of a reference receiver is written.
pub open spec fn params_list_text(pre: Seq<char>, args: Seq<FnArg>, lifetimes: bool) -> Seq<char>
    decreases args.len(),
{
    if args.len() == 0 {
        pre
    } else {
        let p = params_list_text(pre, args.drop_last(), lifetimes);
        let p = if args.len() > 1 { plain_text(p, ", "@) } else { p };
        let p = node_text(p, "parameter"@);
        let p = match args.last() {
            FnArg::Receiver { reference, lifetime: l, mutable } => {
                let p = if reference {
                    let p = punctuation_text(p, "&"@);
                    match l {
                        Some(name) => if lifetimes {
                            plain_text(storage_text(p, lifetime(name@)), " "@)
                        } else {
                            p
                        },
                        None => p,
                    }
                } else {
                    p
                };
                let p = if mutable { plain_text(keyword_text(p, "mut"@), " "@) } else { p };
                keyword_text(p, "self"@)
            },
            FnArg::Typed { pat, ty } => ty_text(plain_text(punctuation_text(pat_text(p, pat), ":"@), " "@), ty),
        };
        end_text(p)
    }
}

/// Output after a parameters node.
pub open spec fn parameters_text(pre: Seq<char>, args: Seq<FnArg>, lifetimes: bool) -> Seq<char> {
    let p = punctuation_text(node_text(pre, "parameters"@), "("@);
    end_text(punctuation_text(params_list_text(p, args, lifetimes), ")"@))
}

/// Output after ` -> T` when there is a return type.
pub open spec fn returns_text(pre: Seq<char>, output: Option<Ty>) -> Seq<char> {
    match output {
        Some(t) => ty_text(plain_text(operator_text(plain_text(pre, " "@), "->"@), " "@), t),
        None => pre,
    }
}

/// Output after a function signature.
pub open spec fn signature_text(pre: Seq<char>, sig: Signature) -> Seq<char> {
    let p = if sig.constness { plain_text(storage_text(pre, "const"@), " "@) } else { pre };
    let p = if sig.asyncness { plain_text(storage_text(p, "async"@), " "@) } else { p };
    let p = if sig.unsafety { plain_text(storage_text(p, "unsafe"@), " "@) } else { p };
    let p = entity_text(plain_text(keyword_text(p, "fn"@), " "@), sig.ident@);
    let p = generics_text(p, sig.generics);
    let p = returns_text(parameters_text(p, sig.inputs@, true), sig.output);
    match sig.generics.where_clause {
        Some(ps) => clause_text(p, ps@),
        None => p,
    }
}

/// Output after the named fields of a struct, one per line.
pub open spec fn struct_fields_text(pre: Seq<char>, fs: Seq<NamedField>) -> Seq<char>
    decreases fs.len(),
{
    if fs.len() == 0 {
        pre
    } else {
        let p = struct_fields_text(pre, fs.drop_last());
        let f = fs.last();
        let p = plain_text(attributes_text(node_text(p, "field"@), f.attrs@), "    "@);
        let p = variable_text(visibility_text(p, f.vis), f.ident@);
        let p = ty_text(plain_text(punctuation_text(p, ":"@), " "@), f.ty);
        end_text(plain_text(p, ",\n"@))
    }
}

/// Output after the unnamed fields of a struct, joined by `, `.
pub open spec fn tuple_fields_text(pre: Seq<char>, fs: Seq<UnnamedField>) -> Seq<char>
    decreases fs.len(),
{
    if fs.len() == 0 {
        pre
    } else {
        let p = tuple_fields_text(pre, fs.drop_last());
        let p = if fs.len() > 1 { plain_text(p, ", "@) } else { p };
        ty_text(visibility_text(p, fs.last().vis), fs.last().ty)
    }
}

/// Output after the named fields of a variant, one per line.
pub open spec fn variant_fields_text(pre: Seq<char>, fs: Seq<NamedField>) -> Seq<char>
    decreases fs.len(),
{
    if fs.len() == 0 {
        pre
    } else {
        let p = variant_fields_text(pre, fs.drop_last());
        let f = fs.last();
        let p = variable_text(plain_text(node_text(p, "field"@), "        "@), f.ident@);
        let p = ty_text(plain_text(punctuation_text(p, ":"@), " "@), f.ty);
        end_text(plain_text(p, ",\n"@))
    }
}

/// Output after the unnamed fields of a variant, joined by `, `.
pub open spec fn variant_tuple_text(pre: Seq<char>, fs: Seq<UnnamedField>) -> Seq<char>
    decreases fs.len(),
{
    if fs.len() == 0 {
        pre
    } else {
        let p = variant_tuple_text(pre, fs.drop_last());
        let p = if fs.len() > 1 { plain_text(p, ", "@) } else { p };
        end_text(ty_text(node_text(p, "field"@), fs.last().ty))
    }
}

/// Output after an enum variant on its own line.
pub open spec fn variant_text(pre: Seq<char>, v: Variant) -> Seq<char> {
    let p = attributes_text(node_text(pre, "variant"@), v.attrs@);
    let p = entity_text(plain_text(p, "    "@), v.ident@);
    let p = match v.fields {
        Fields::Named(fs) => plain_text(variant_fields_text(plain_text(p, " {\n"@), fs@), "    }"@),
        Fields::Unnamed(fs) => punctuation_text(variant_tuple_text(punctuation_text(p, "("@), fs@), ")"@),
        Fields::Unit => p,
    };
    end_text(plain_text(p, ",\n"@))
}

/// Output after enum variants, one per line.
pub open spec fn variants_text(pre: Seq<char>, vs: Seq<Variant>) -> Seq<char>
    decreases vs.len(),
{
    if vs.len() == 0 {
        pre
    } else {
        variant_text(variants_text(pre, vs.drop_last()), vs.last())
    }
}

/// Output after a struct item.
pub open spec fn struct_text(
    pre: Seq<char>,
    attrs: Seq<String>,
    vis: Visibility,
    ident: Seq<char>,
    generics: Generics,
    fields: Fields,
) -> Seq<char> {
    let p = visibility_text(attributes_text(node_text(pre, "struct"@), attrs), vis);
    let p = entity_text(plain_text(keyword_text(p, "struct"@), " "@), ident);
    let p = generics_text(p, generics);
    let p = match fields {
        Fields::Named(fs) => {
            let p = match generics.where_clause {
                Some(ps) => clause_text(p, ps@),
                None => p,
            };
            plain_text(struct_fields_text(plain_text(p, " {\n"@), fs@), "}\n"@)
        },
        Fields::Unnamed(fs) => {
            let p = punctuation_text(tuple_fields_text(punctuation_text(p, "("@), fs@), ")"@);
            punctuation_text(p, ";"@) + "\n"@
        },
        Fields::Unit => punctuation_text(p, ";"@) + "\n"@,
    };
    end_text(p)
}

/// Output after an enum item.
pub open spec fn enum_text(
    pre: Seq<char>,
    attrs: Seq<String>,
    vis: Visibility,
    ident: Seq<char>,
    generics: Generics,
    variants: Seq<Variant>,
) -> Seq<char> {
    let p = visibility_text(attributes_text(node_text(pre, "enum"@), attrs), vis);
    let p = entity_text(plain_text(keyword_text(p, "enum"@), " "@), ident);
    let p = plain_text(generics_text(p, generics), " {\n"@);
    end_text(plain_text(variants_text(p, variants), "}\n"@))
}

/// Output after the items of a trait.
pub open spec fn trait_items_text(pre: Seq<char>, items: Seq<TraitItem>) -> Seq<char>
    decreases items.len(),
{
    if items.len() == 0 {
        pre
    } else {
        let p = trait_items_text(pre, items.drop_last());
        match items.last() {
            TraitItem::Fn { sig } => {
                let p = plain_text(node_text(p, "function"@), "    "@);
                let p = entity_text(plain_text(keyword_text(p, "fn"@), " "@), sig.ident@);
                let p = parameters_text(generics_text(p, sig.generics), sig.inputs@, false);
                let p = returns_text(p, sig.output);
                end_text(punctuation_text(p, ";"@) + "\n"@)
            },
            TraitItem::Type { ident } => {
                let p = plain_text(node_text(p, "alias"@), "    "@);
                let p = entity_text(plain_text(keyword_text(p, "type"@), " "@), ident@);
                end_text(punctuation_text(p, ";"@) + "\n"@)
            },
            TraitItem::Other => p,
        }
    }
}

/// Output after a trait item.
pub open spec fn trait_text(
    pre: Seq<char>,
    attrs: Seq<String>,
    vis: Visibility,
    unsafety: bool,
    ident: Seq<char>,
    generics: Generics,
    items: Seq<TraitItem>,
) -> Seq<char> {
    let p = visibility_text(attributes_text(node_text(pre, "trait"@), attrs), vis);
    let p = if unsafety { plain_text(storage_text(p, "unsafe"@), " "@) } else { p };
    let p = entity_text(plain_text(keyword_text(p, "trait"@), " "@), ident);
    let p = plain_text(generics_text(p, generics), " {\n"@);
    end_text(plain_text(trait_items_text(p, items), "}\n"@))
}

/// Output after the statements of a method body, each preceded by four
/// spaces and written at that indentation.
pub open spec fn method_stmts_text(pre: Seq<char>, ss: Seq<Stmt>) -> Seq<char>
    decreases ss, 0int,
{
    if ss.len() == 0 {
        pre
    } else {
        statement_text(plain_text(method_stmts_text(pre, ss.drop_last()), "    "@), ss.last(), "    "@)
    }
}

/// Output after the items of an impl block.
pub open spec fn impl_items_text(pre: Seq<char>, items: Seq<ImplItem>) -> Seq<char>
    decreases items, 0int,
{
    if items.len() == 0 {
        pre
    } else {
        let p = impl_items_text(pre, items.drop_last());
        match items.last() {
            ImplItem::Fn { attrs, vis, sig, body } => {
                let p = plain_text(attributes_text(node_text(p, "function"@), attrs@), "    "@);
                let p = signature_text(visibility_text(p, vis), sig);
                let p = plain_text(node_text(p, "block"@), " {\n"@);
                end_text(end_text(plain_text(method_stmts_text(p, body@), "    }\n"@)))
            },
            ImplItem::Type { ident, ty } => {
                let p = plain_text(node_text(p, "alias"@), "    "@);
                let p = entity_text(plain_text(keyword_text(p, "type"@), " "@), ident@);
                let p = ty_text(plain_text(operator_text(plain_text(p, " "@), "="@), " "@), ty);
                end_text(punctuation_text(p, ";"@) + "\n"@)
            },
            ImplItem::Const { ident, ty, expr } => {
                let p = plain_text(node_text(p, "const"@), "    "@);
                let p = constant_text(plain_text(storage_text(p, "const"@), " "@), ident@);
                let p = ty_text(plain_text(punctuation_text(p, ":"@), " "@), ty);
                let p = expr_text(plain_text(operator_text(plain_text(p, " "@), "="@), " "@), expr);
                end_text(punctuation_text(p, ";"@) + "\n"@)
            },
            ImplItem::Other => p,
        }
    }
}

/// Output after items written one after another.
pub open spec fn items_text(pre: Seq<char>, items: Seq<Item>) -> Seq<char>
    decreases items, 0int,
{
    if items.len() == 0 {
        pre
    } else {
        item_text(items_text(pre, items.drop_last()), items.last())
    }
}

/// Output after a `const` or `static` binding: `NAME: T = value;`.
pub open spec fn binding_text(pre: Seq<char>, ident: Seq<char>, ty: Ty, expr: Expr) -> Seq<char>
    decreases expr, 5int,
{
    let p = constant_text(pre, ident);
    let p = ty_text(plain_text(punctuation_text(p, ":"@), " "@), ty);
    let p = expr_text(plain_text(operator_text(plain_text(p, " "@), "="@), " "@), expr);
    end_text(punctuation_text(p, ";"@) + "\n"@)
}

/// Output after an item.
pub open spec fn item_text(pre: Seq<char>, item: Item) -> Seq<char>
    decreases item, 0int,
{
    match item {
        Item::Use { attrs, vis, tree } => {
            let p = visibility_text(attributes_text(node_text(pre, "use"@), attrs@), vis);
            let p = tree_text(plain_text(keyword_text(p, "use"@), " "@), tree);
            end_text(punctuation_text(p, ";"@) + "\n"@)
        },
        Item::Fn { attrs, vis, sig, body } => {
            let p = visibility_text(attributes_text(node_text(pre, "function"@), attrs@), vis);
            let p = plain_text(node_text(signature_text(p, sig), "block"@), " {\n"@);
            end_text(end_text(plain_text(stmts_text(p, body@, "    "@), "}\n"@)))
        },
        Item::Struct { attrs, vis, ident, generics, fields } => struct_text(pre, attrs@, vis, ident@, generics, fields),
        Item::Enum { attrs, vis, ident, generics, variants } => enum_text(pre, attrs@, vis, ident@, generics, variants@),
        Item::Impl { attrs, unsafety, generics, trait_path, self_ty, items } => {
            let p = attributes_text(node_text(pre, "impl"@), attrs@);
            let p = if unsafety { plain_text(storage_text(p, "unsafe"@), " "@) } else { p };
            let p = plain_text(generics_text(keyword_text(p, "impl"@), generics), " "@);
            let p = match trait_path {
                Some(path) => plain_text(keyword_text(plain_text(path_text(p, path), " "@), "for"@), " "@),
                None => p,
            };
            let p = ty_text(p, self_ty);
            let p = match generics.where_clause {
                Some(ps) => clause_text(p, ps@),
                None => p,
            };
            end_text(plain_text(impl_items_text(plain_text(p, " {\n"@), items@), "}\n"@))
        },
        Item::Trait { attrs, vis, unsafety, ident, generics, items } => trait_text(
            pre,
            attrs@,
            vis,
            unsafety,
            ident@,
            generics,
            items@,
        ),
        Item::Const { attrs, vis, ident, ty, expr } => {
            let p = visibility_text(attributes_text(node_text(pre, "const"@), attrs@), vis);
            binding_text(plain_text(storage_text(p, "const"@), " "@), ident@, ty, expr)
        },
        Item::Static { attrs, vis, mutable, ident, ty, expr } => {
            let p = visibility_text(attributes_text(node_text(pre, "static"@), attrs@), vis);
            let p = plain_text(storage_text(p, "static"@), " "@);
            let p = if mutable { plain_text(keyword_text(p, "mut"@), " "@) } else { p };
            binding_text(p, ident@, ty, expr)
        },
        Item::Type { attrs, vis, ident, generics, ty } => {
            let p = visibility_text(attributes_text(node_text(pre, "alias"@), attrs@), vis);
            let p = entity_text(plain_text(keyword_text(p, "type"@), " "@), ident@);
            let p = plain_text(generics_text(p, generics), " "@);
            let p = ty_text(plain_text(operator_text(p, "="@), " "@), ty);
            end_text(punctuation_text(p, ";"@) + "\n"@)
        },
        Item::Mod { attrs, vis, ident, content } => {
            let p = visibility_text(attributes_text(node_text(pre, "mod"@), attrs@), vis);
            let p = plain_text(plain_text(keyword_text(p, "mod"@), " "@), ident@);
            let p = match content {
                Some(items) => plain_text(items_text(plain_text(p, " {\n"@), items@), "}\n"@),
                None => punctuation_text(p, ";"@) + "\n"@,
            };
            end_text(p)
        },
        Item::Macro { path, tokens } => {
            let p = macro_text(path_text(node_text(pre, "macro"@), path), "!"@);
            let p = plain_text(plain_text(plain_text(p, " {\n"@), tokens@), "\n}\n"@);
            end_text(p)
        },
        Item::Other(o) => plain_text(pre, o@) + "\n"@,
    }
}

/// Output after the attributes of a file, each a comment on its own line.
pub open spec fn file_attrs_text(pre: Seq<char>, attrs: Seq<String>) -> Seq<char>
    decreases attrs.len(),
{
    if attrs.len() == 0 {
        pre
    } else {
        comment_text(file_attrs_text(pre, attrs.drop_last()), attrs.last()@) + "\n"@
    }
}

/// Output after items separated by blank-line breaks.
pub open spec fn file_items_text(pre: Seq<char>, items: Seq<Item>) -> Seq<char>
    decreases items.len(),
{
    if items.len() == 0 {
        pre
    } else {
        let p = file_items_text(pre, items.drop_last());
        let p = if items.len() > 1 { p + "\n"@ } else { p };
        item_text(p, items.last())
    }
}

/// The highlighted form of a whole file.
pub open spec fn file_text(file: File) -> Seq<char> {
    file_items_text(file_attrs_text(seq![], file.attrs@), file.items@)
}

/// Output after statements separated by line breaks, written without indentation.
pub open spec fn snippet_stmts_text(pre: Seq<char>, ss: Seq<Stmt>) -> Seq<char>
    decreases ss.len(),
{
    if ss.len() == 0 {
        pre
    } else {
        let p = snippet_stmts_text(pre, ss.drop_last());
        let p = if ss.len() > 1 { p + "\n"@ } else { p };
        statement_text(p, ss.last(), seq![])
    }
}

/// The highlighted form of the body of a file's first function: nothing when
/// its first item is not a function.
pub open spec fn snippet_text(file: File) -> Seq<char> {
    if file.items@.len() > 0 {
        match file.items@[0] {
            Item::Fn { body, .. } => snippet_stmts_text(seq![], body@),
            _ => seq![],
        }
    } else {
        seq![]
    }
}


/// The number of links of a chain.
pub fn chain(e: &Expr) -> (n: usize)
    ensures
        n == chain_length(*e) || (n == usize::MAX && chain_length(*e) >= usize::MAX),
    decreases e,
{
    let m = match e {
        Expr::MethodCall { receiver, .. } => chain(receiver),
        Expr::Await(base) => chain(base),
        Expr::Try(inner) => return chain(inner),
        Expr::Field { base, .. } => chain(base),
        _ => return 0,
    };
    if m == usize::MAX {
        usize::MAX
    } else {
        m + 1
    }
}

/// Whether an expression is written as a chain.
pub fn chained(e: &Expr) -> (r: bool)
    ensures
        r == is_chained(*e),
{
    let link = match e {
        Expr::MethodCall { .. } | Expr::Field { .. } | Expr::Try(_) | Expr::Await(_) => true,
        _ => false,
    };
    link && chain(e) >= 3
}

/// Whether an expression is a link of a chain.
pub fn link(e: &Expr) -> (r: bool)
    ensures
        r == is_link(*e),
{
    match e {
        Expr::MethodCall { .. } | Expr::Field { .. } | Expr::Await(_) => true,
        _ => false,
    }
}

impl Visitor {
    /// The indentation of a nested block: that of the last line written, plus four.
    pub fn leading_chars(&self) -> (r: Vec<char>)
        ensures
            r@ == leading_of(self.written()),
    {
        let out = &self.output;
        let n = out.len();
        let ghost s = out@;
        let mut start = n;
        assert(s.take(n as int) == s);
        assert(s.subrange(n as int, n as int) =~= Seq::<char>::empty());
        while start > 0 && out[start - 1] != '\n'
            invariant
                s == out@,
                n == out.len(),
                0 <= start <= n,
                last_line(s) == last_line(s.take(start as int)) + s.subrange(start as int, n as int),
            decreases start,
        {
            assert(s.take(start as int).drop_last() == s.take(start - 1));
            assert(s.subrange(start - 1, n as int) =~= seq![s[start - 1]] + s.subrange(
                start as int,
                n as int,
            ));
            start = start - 1;
        }
        assert(last_line(s.take(start as int)) =~= Seq::<char>::empty());
        let ghost line = s.subrange(start as int, n as int);
        assert(last_line(s) =~= line);
        let mut count: usize = 0;
        let mut tag = false;
        let mut i = start;
        let mut done = false;
        assert(line.skip(0) == line);
        while i < n && !done
            invariant
                s == out@,
                n == out.len(),
                start <= i <= n,
                line == s.subrange(start as int, n as int),
                count <= i - start,
                indent_width(line, false) == count + indent_width(line.skip(i - start), tag),
                done ==> indent_width(line.skip(i - start), tag) == 0,
            decreases n - i, if done { 0int } else { 1int },
        {
            let c = out[i];
            let ghost rest = line.skip(i - start);
            assert(rest[0] == c);
            assert(rest.drop_first() == line.skip(i - start + 1));
            if c == '<' {
                tag = true;
            } else if c == '>' && tag {
                tag = false;
            } else if c == ' ' && !tag {
                count = count + 1;
            } else if !tag {
                done = true;
            }
            if !done {
                i = i + 1;
            }
        }
        proof {
            if !done {
                assert(line.skip(i - start).len() == 0);
            }
        }
        let mut r: Vec<char> = Vec::new();
        let mut k: usize = 0;
        while k < count
            invariant
                k <= count,
                r@ == spaces(k as nat),
            decreases count - k,
        {
            r.push(' ');
            k = k + 1;
            assert(r@ =~= spaces(k as nat));
        }
        let mut k: usize = 0;
        while k < 4
            invariant
                k <= 4,
                r@ == spaces((count + k) as nat),
            decreases 4 - k,
        {
            r.push(' ');
            k = k + 1;
            assert(r@ =~= spaces((count + k) as nat));
        }
        r
    }

    /// The indentation of a nested block, as a string.
    pub fn leading(&self) -> (r: String)
        ensures
            r@ == leading_of(self.written()),
    {
        let v = self.leading_chars();
        string_of(&v)
    }
}

/// The indentation `ind` less four spaces.
pub fn outdent(ind: &Vec<char>) -> (r: Vec<char>)
    ensures
        r@ == outer(ind@),
{
    let mut r: Vec<char> = Vec::new();
    if ind.len() >= 4 {
        let m = ind.len() - 4;
        let mut i: usize = 0;
        while i < m
            invariant
                m == ind.len() - 4,
                i <= m,
                r@ == ind@.subrange(0, i as int),
            decreases m - i,
        {
            r.push(ind[i]);
            i = i + 1;
            assert(r@ =~= ind@.subrange(0, i as int));
        }
    }
    r
}


impl Visitor {
    /// Writes turbofish arguments.
    pub fn turbofish_args(&mut self, args: &Vec<GenericArg>)
        ensures
            final(self).written() == turbofish_args_text(old(self).written(), args@),
        decreases args, 0int,
    {
        let ghost pre = self.written();
        let mut i: usize = 0;
        while i < args.len()
            invariant
                0 <= i <= args.len(),
                self.written() == turbofish_args_text(pre, args@.take(i as int)),
            decreases args.len() - i,
        {
            assert(args@.take(i + 1).drop_last() == args@.take(i as int));
            if i > 0 {
                self.plain(", ");
            }
            match &args[i] {
                GenericArg::Type(t) => self.typed(t),
                GenericArg::Lifetime(l) => {
                    let mut text: Vec<char> = Vec::new();
                    text.push('\'');
                    extend_str(&mut text, l.as_str());
                    assert(text@ == lifetime(l@));
                    crate::escape::stream_chars(&mut self.output, &text);
                },
                GenericArg::Other(o) => self.plain(o.as_str()),
            }
            i = i + 1;
        }
        assert(args@.take(args.len() as int) == args@);
    }

    /// Writes `.method::<..>(args)`.
    pub fn call_tail(&mut self, method: &String, turbofish: &Option<Vec<GenericArg>>, args: &Vec<Expr>)
        ensures
            final(self).written() == call_tail_text(old(self).written(), method@, *turbofish, args@),
        decreases args, 1int,
    {
        self.punctuation(".");
        self.function(method.as_str());
        match turbofish {
            Some(targs) => {
                self.punctuation("::<");
                self.turbofish_args(targs);
                self.punctuation(">");
            },
            None => {},
        }
        self.punctuation("(");
        self.expressions(args, ", ");
        self.punctuation(")");
    }

    /// Writes the receiver of a link.
    pub fn receiver(&mut self, r: &Expr, ind: &Vec<char>)
        ensures
            final(self).written() == receiver_text(old(self).written(), *r, ind@),
        decreases r, 4int,
    {
        if link(r) {
            self.links(r, ind);
        } else {
            self.expression(r);
        }
    }

    /// Writes the links of a chain, one per line.
    pub fn links(&mut self, e: &Expr, ind: &Vec<char>)
        ensures
            final(self).written() == links_text(old(self).written(), *e, ind@),
        decreases e, 0int,
    {
        match e {
            Expr::MethodCall { receiver, method, turbofish, args } => {
                self.receiver(receiver, ind);
                self.raw("\n");
                self.raw_chars(ind);
                self.call_tail(method, turbofish, args);
            },
            Expr::Await(base) => {
                self.receiver(base, ind);
                self.raw("\n");
                self.raw_chars(ind);
                self.punctuation(".");
                self.keyword("await");
            },
            Expr::Field { base, member } => {
                self.receiver(base, ind);
                self.raw("\n");
                self.raw_chars(ind);
                self.punctuation(".");
                self.variable(member.as_str());
            },
            _ => {},
        }
    }

    /// Writes a chain, one link per line.
    pub fn chained(&mut self, e: &Expr)
        ensures
            final(self).written() == chained_text(old(self).written(), *e),
        decreases e, 1int,
    {
        let ind = self.leading_chars();
        match e {
            Expr::Try(inner) => {
                self.receiver(inner, &ind);
                self.operator("?");
            },
            _ => self.links(e, &ind),
        }
    }

    /// Writes expressions joined by `sep`.
    pub fn expressions(&mut self, es: &Vec<Expr>, sep: &str)
        ensures
            final(self).written() == exprs_text(old(self).written(), es@, sep@),
        decreases es, 0int,
    {
        let ghost pre = self.written();
        let mut i: usize = 0;
        while i < es.len()
            invariant
                0 <= i <= es.len(),
                self.written() == exprs_text(pre, es@.take(i as int), sep@),
            decreases es.len() - i,
        {
            assert(es@.take(i + 1).drop_last() == es@.take(i as int));
            if i > 0 {
                self.plain(sep);
            }
            self.expression(&es[i]);
            i = i + 1;
        }
        assert(es@.take(es.len() as int) == es@);
    }

    /// Writes statements, each indented by `ind`.
    pub fn statements(&mut self, ss: &Vec<Stmt>, ind: &Vec<char>)
        ensures
            final(self).written() == stmts_text(old(self).written(), ss@, ind@),
        decreases ss, 0int,
    {
        let ghost pre = self.written();
        let mut i: usize = 0;
        while i < ss.len()
            invariant
                0 <= i <= ss.len(),
                self.written() == stmts_text(pre, ss@.take(i as int), ind@),
            decreases ss.len() - i,
        {
            assert(ss@.take(i + 1).drop_last() == ss@.take(i as int));
            self.statement(&ss[i], ind);
            i = i + 1;
        }
        assert(ss@.take(ss.len() as int) == ss@);
    }

    /// Writes a braced block opened by `open`, one level deeper.
    pub fn block(&mut self, open: &str, ss: &Vec<Stmt>)
        ensures
            final(self).written() == block_text(old(self).written(), open@, ss@),
        decreases ss, 1int,
    {
        let ind = self.leading_chars();
        let out = outdent(&ind);
        self.plain(open);
        self.statements(ss, &ind);
        self.raw_chars(&out);
        self.plain("}");
    }

    /// Writes match arms.
    pub fn arms(&mut self, arms: &Vec<Arm>, ind: &Vec<char>)
        ensures
            final(self).written() == arms_text(old(self).written(), arms@, ind@),
        decreases arms, 0int,
    {
        let ghost pre = self.written();
        let mut i: usize = 0;
        while i < arms.len()
            invariant
                0 <= i <= arms.len(),
                self.written() == arms_text(pre, arms@.take(i as int), ind@),
            decreases arms.len() - i,
        {
            assert(arms@.take(i + 1).drop_last() == arms@.take(i as int));
            self.raw_chars(ind);
            self.pattern(&arms[i].pat);
            self.plain(" ");
            self.operator("=>");
            self.plain(" ");
            self.expression(&arms[i].body);
            self.plain(",\n");
            i = i + 1;
        }
        assert(arms@.take(arms.len() as int) == arms@);
    }

    /// Writes the fields of a struct expression.
    pub fn field_values(&mut self, fs: &Vec<FieldValue>, ind: &Vec<char>)
        ensures
            final(self).written() == field_values_text(old(self).written(), fs@, ind@),
        decreases fs, 0int,
    {
        let ghost pre = self.written();
        let mut i: usize = 0;
        while i < fs.len()
            invariant
                0 <= i <= fs.len(),
                self.written() == field_values_text(pre, fs@.take(i as int), ind@),
            decreases fs.len() - i,
        {
            assert(fs@.take(i + 1).drop_last() == fs@.take(i as int));
            if i > 0 {
                self.plain(",\n");
            }
            self.raw_chars(ind);
            let f = &fs[i];
            if f.colon {
                self.variable(f.member.as_str());
                self.punctuation(":");
                self.plain(" ");
            }
            self.expression(&f.expr);
            i = i + 1;
        }
        assert(fs@.take(fs.len() as int) == fs@);
    }

    /// Writes an expression node.
    pub fn expression(&mut self, e: &Expr)
        ensures
            final(self).written() == expr_text(old(self).written(), *e),
        decreases e, 3int,
    {
        self.node("expression");
        self.expression_body(e);
        self.end();
    }

    /// Writes the contents of an expression node.
    pub fn expression_body(&mut self, e: &Expr)
        ensures
            final(self).written() == expr_body_text(old(self).written(), *e),
        decreases e, 2int,
    {
        if chained(e) {
            self.chained(e);
            return;
        }
        match e {
            Expr::Lit(lit) => self.value(lit),
            Expr::Path(path) => {
                if path.segments.len() == 1 {
                    let name = path.segments[0].ident.as_str();
                    if is_type_name(name) {
                        self.entity(name);
                    } else if is_keyword_value(name) {
                        self.constant(name);
                    } else {
                        self.variable(name);
                    }
                } else {
                    self.path(path);
                }
            },
            Expr::Call { func, args } => {
                self.expression(func);
                self.punctuation("(");
                self.expressions(args, ", ");
                self.punctuation(")");
            },
            Expr::MethodCall { receiver, method, turbofish, args } => {
                self.expression(receiver);
                self.call_tail(method, turbofish, args);
            },
            Expr::Reference { mutable, expr } => {
                self.punctuation("&");
                if *mutable {
                    self.keyword("mut");
                    self.plain(" ");
                }
                self.expression(expr);
            },
            Expr::Block(stmts) => self.block(" {\n", stmts),
            Expr::If { .. } => self.conditional(e),
            Expr::Match { .. } => self.matching(e),
            Expr::Closure { .. } => self.closure(e),
            Expr::Struct { path, fields } => {
                let ind = self.leading_chars();
                let out = outdent(&ind);
                self.path(path);
                self.plain(" {\n");
                self.field_values(fields, &ind);
                self.raw("\n");
                self.raw_chars(&out);
                self.plain("}");
            },
            Expr::Field { base, member } => {
                self.expression(base);
                self.punctuation(".");
                self.variable(member.as_str());
            },
            Expr::Index { expr, index } => {
                self.expression(expr);
                self.punctuation("[");
                self.expression(index);
                self.punctuation("]");
            },
            Expr::Unary { op, expr } => {
                self.operator(op.as_str());
                self.expression(expr);
            },
            Expr::Binary { left, op, right } => {
                self.expression(left);
                self.plain(" ");
                self.operator(op.as_str());
                self.plain(" ");
                self.expression(right);
            },
            Expr::Let { pat, expr } => {
                self.keyword("let");
                self.plain(" ");
                self.pattern(pat);
                self.plain(" ");
                self.operator("=");
                self.plain(" ");
                self.expression(expr);
            },
            Expr::Return(value) => {
                self.keyword("return");
                match value {
                    Some(v) => {
                        self.plain(" ");
                        self.expression(v);
                    },
                    None => {},
                }
            },
            Expr::Try(inner) => {
                self.expression(inner);
                self.operator("?");
            },
            Expr::Await(base) => {
                self.expression(base);
                self.punctuation(".");
                self.keyword("await");
            },
            Expr::Paren(inner) => {
                self.punctuation("(");
                self.expression(inner);
                self.punctuation(")");
            },
            Expr::Tuple(elems) => {
                self.punctuation("(");
                self.expressions(elems, ", ");
                self.punctuation(")");
            },
            Expr::Array(elems) => {
                self.punctuation("[");
                self.expressions(elems, ", ");
                self.punctuation("]");
            },
            Expr::Cast { expr, ty } => {
                self.expression(expr);
                self.plain(" ");
                self.keyword("as");
                self.plain(" ");
                self.typed(ty);
            },
            Expr::Range { start, limits, end } => {
                match start {
                    Some(x) => self.expression(x),
                    None => {},
                }
                self.operator(limits.as_str());
                match end {
                    Some(x) => self.expression(x),
                    None => {},
                }
            },
            Expr::Macro { path, tokens } => {
                self.path(path);
                self.macros("!");
                self.punctuation("(");
                self.plain(tokens.as_str());
                self.punctuation(")");
            },
            Expr::Other(o) => self.plain(o.as_str()),
        }
    }

    /// Writes the contents of an `if` expression node.
    pub fn conditional(&mut self, e: &Expr)
        requires
            e is If,
        ensures
            final(self).written() == expr_body_text(old(self).written(), *e),
        decreases e, 1int,
    {
        match e {
            Expr::If { cond, then_branch, else_branch } => {
                let ind = self.leading_chars();
                let out = outdent(&ind);
                self.keyword("if");
                self.plain(" ");
                self.expression(cond);
                self.plain(" {\n");
                self.statements(then_branch, &ind);
                self.raw_chars(&out);
                self.plain("}");
                match else_branch {
                    Some(other) => {
                        self.plain(" ");
                        self.keyword("else");
                        self.plain(" ");
                        self.expression(other);
                    },
                    None => {},
                }
            },
            _ => {},
        }
    }

    /// Writes the contents of a `match` expression node.
    pub fn matching(&mut self, e: &Expr)
        requires
            e is Match,
        ensures
            final(self).written() == expr_body_text(old(self).written(), *e),
        decreases e, 1int,
    {
        match e {
            Expr::Match { expr, arms } => {
                let ind = self.leading_chars();
                let out = outdent(&ind);
                self.keyword("match");
                self.plain(" ");
                self.expression(expr);
                self.plain(" {\n");
                self.arms(arms, &ind);
                self.raw_chars(&out);
                self.plain("}");
            },
            _ => {},
        }
    }

    /// Writes the contents of a closure expression node.
    pub fn closure(&mut self, e: &Expr)
        requires
            e is Closure,
        ensures
            final(self).written() == expr_body_text(old(self).written(), *e),
        decreases e, 1int,
    {
        match e {
            Expr::Closure { asyncness, movability, capture, inputs, body } => {
                if *asyncness {
                    self.keyword("async");
                    self.plain(" ");
                }
                if *movability {
                    self.keyword("static");
                    self.plain(" ");
                }
                if *capture {
                    self.keyword("move");
                    self.plain(" ");
                }
                self.punctuation("|");
                self.patterns(inputs, ", ");
                self.punctuation("|");
                self.plain(" ");
                match &**body {
                    Expr::Block(stmts) => self.block("{\n", stmts),
                    _ => self.expression(body),
                }
            },
            _ => {},
        }
    }

    /// Writes a statement indented by `ind`.
    pub fn statement(&mut self, st: &Stmt, ind: &Vec<char>)
        ensures
            final(self).written() == statement_text(old(self).written(), *st, ind@),
        decreases st, 0int,
    {
        match st {
            Stmt::Local { pat, init } => {
                self.node("let");
                self.raw_chars(ind);
                self.keyword("let");
                self.plain(" ");
                match pat {
                    Pat::Ident { mutable: true, ident, .. } => {
                        self.keyword("mut");
                        self.plain(" ");
                        self.variable(ident.as_str());
                    },
                    _ => self.pattern(pat),
                }
                match init {
                    Some(x) => {
                        self.plain(" ");
                        self.operator("=");
                        self.plain(" ");
                        self.expression(x);
                    },
                    None => {},
                }
                self.punctuation(";");
                self.raw("\n");
                self.end();
            },
            Stmt::Expr { expr, semi } => {
                self.node("statement");
                self.raw_chars(ind);
                self.expression(expr);
                if *semi {
                    self.punctuation(";");
                }
                self.raw("\n");
                self.end();
            },
            Stmt::Item(item) => self.item(item),
            Stmt::Macro { path, tokens, semi } => {
                self.node("statement");
                self.raw_chars(ind);
                self.path(path);
                self.macros("!");
                self.punctuation("(");
                self.plain(tokens.as_str());
                self.punctuation(")");
                if *semi {
                    self.punctuation(";");
                }
                self.raw("\n");
                self.end();
            },
        }
    }

    /// Writes function parameters; `lifetimes` selects whether the lifetime of
    /// a reference receiver is written.
    pub fn parameters(&mut self, args: &Vec<FnArg>, lifetimes: bool)
        ensures
            final(self).written() == parameters_text(old(self).written(), args@, lifetimes),
    {
        self.node("parameters");
        self.punctuation("(");
        let ghost pre = self.written();
        let mut i: usize = 0;
        while i < args.len()
            invariant
                0 <= i <= args.len(),
                self.written() == params_list_text(pre, args@.take(i as int), lifetimes),
            decreases args.len() - i,
        {
            assert(args@.take(i + 1).drop_last() == args@.take(i as int));
            if i > 0 {
                self.plain(", ");
            }
            self.node("parameter");
            match &args[i] {
                FnArg::Receiver { reference, lifetime: l, mutable } => {
                    if *reference {
                        self.punctuation("&");
                        match l {
                            Some(name) => {
                                if lifetimes {
                                    self.lifetime(name.as_str());
                                    self.plain(" ");
                                }
                            },
                            None => {},
                        }
                    }
                    if *mutable {
                        self.keyword("mut");
                        self.plain(" ");
                    }
                    self.keyword("self");
                },
                FnArg::Typed { pat, ty } => {
                    self.pattern(pat);
                    self.punctuation(":");
                    self.plain(" ");
                    self.typed(ty);
                },
            }
            self.end();
            i = i + 1;
        }
        assert(args@.take(args.len() as int) == args@);
        self.punctuation(")");
        self.end();
    }

    /// Writes ` -> T` when there is a return type.
    pub fn return_type(&mut self, output: &Option<Ty>)
        ensures
            final(self).written() == returns_text(old(self).written(), *output),
    {
        match output {
            Some(t) => {
                self.plain(" ");
                self.operator("->");
                self.plain(" ");
                self.typed(t);
            },
            None => {},
        }
    }

    /// Writes a function signature.
    pub fn signature(&mut self, sig: &Signature)
        ensures
            final(self).written() == signature_text(old(self).written(), *sig),
    {
        if sig.constness {
            self.storage("const");
            self.plain(" ");
        }
        if sig.asyncness {
            self.storage("async");
            self.plain(" ");
        }
        if sig.unsafety {
            self.storage("unsafe");
            self.plain(" ");
        }
        self.keyword("fn");
        self.plain(" ");
        self.entity(sig.ident.as_str());
        self.generics(&sig.generics);
        self.parameters(&sig.inputs, true);
        self.return_type(&sig.output);
        match &sig.generics.where_clause {
            Some(ps) => self.clause(ps),
            None => {},
        }
    }

    /// Writes a struct item.
    pub fn structure(&mut self, item: &Item)
        requires
            item is Struct,
        ensures
            final(self).written() == item_text(old(self).written(), *item),
    {
        match item {
            Item::Struct { attrs, vis, ident, generics, fields } => {
                self.node("struct");
                self.attributes(attrs);
                self.visibility(vis);
                self.keyword("struct");
                self.plain(" ");
                self.entity(ident.as_str());
                self.generics(generics);
                match fields {
                    Fields::Named(fs) => {
                        match &generics.where_clause {
                            Some(ps) => self.clause(ps),
                            None => {},
                        }
                        self.plain(" {\n");
                        let ghost pre = self.written();
                        let mut i: usize = 0;
                        while i < fs.len()
                            invariant
                                0 <= i <= fs.len(),
                                self.written() == struct_fields_text(pre, fs@.take(i as int)),
                            decreases fs.len() - i,
                        {
                            assert(fs@.take(i + 1).drop_last() == fs@.take(i as int));
                            let f = &fs[i];
                            self.node("field");
                            self.attributes(&f.attrs);
                            self.plain("    ");
                            self.visibility(&f.vis);
                            self.variable(f.ident.as_str());
                            self.punctuation(":");
                            self.plain(" ");
                            self.typed(&f.ty);
                            self.plain(",\n");
                            self.end();
                            i = i + 1;
                        }
                        assert(fs@.take(fs.len() as int) == fs@);
                        self.plain("}\n");
                    },
                    Fields::Unnamed(fs) => {
                        self.punctuation("(");
                        let ghost pre = self.written();
                        let mut i: usize = 0;
                        while i < fs.len()
                            invariant
                                0 <= i <= fs.len(),
                                self.written() == tuple_fields_text(pre, fs@.take(i as int)),
                            decreases fs.len() - i,
                        {
                            assert(fs@.take(i + 1).drop_last() == fs@.take(i as int));
                            if i > 0 {
                                self.plain(", ");
                            }
                            self.visibility(&fs[i].vis);
                            self.typed(&fs[i].ty);
                            i = i + 1;
                        }
                        assert(fs@.take(fs.len() as int) == fs@);
                        self.punctuation(")");
                        self.punctuation(";");
                        self.raw("\n");
                    },
                    Fields::Unit => {
                        self.punctuation(";");
                        self.raw("\n");
                    },
                }
                self.end();
            },
            _ => {},
        }
    }

    /// Writes an enum variant.
    pub fn variant(&mut self, v: &Variant)
        ensures
            final(self).written() == variant_text(old(self).written(), *v),
    {
        self.node("variant");
        self.attributes(&v.attrs);
        self.plain("    ");
        self.entity(v.ident.as_str());
        match &v.fields {
            Fields::Named(fs) => {
                self.plain(" {\n");
                let ghost before = self.written();
                let mut i: usize = 0;
                while i < fs.len()
                    invariant
                        0 <= i <= fs.len(),
                        self.written() == variant_fields_text(before, fs@.take(i as int)),
                    decreases fs.len() - i,
                {
                    assert(fs@.take(i + 1).drop_last() == fs@.take(i as int));
                    self.node("field");
                    self.plain("        ");
                    self.variable(fs[i].ident.as_str());
                    self.punctuation(":");
                    self.plain(" ");
                    self.typed(&fs[i].ty);
                    self.plain(",\n");
                    self.end();
                    i = i + 1;
                }
                assert(fs@.take(fs.len() as int) == fs@);
                self.plain("    }");
            },
            Fields::Unnamed(fs) => {
                self.punctuation("(");
                let ghost before = self.written();
                let mut i: usize = 0;
                while i < fs.len()
                    invariant
                        0 <= i <= fs.len(),
                        self.written() == variant_tuple_text(before, fs@.take(i as int)),
                    decreases fs.len() - i,
                {
                    assert(fs@.take(i + 1).drop_last() == fs@.take(i as int));
                    if i > 0 {
                        self.plain(", ");
                    }
                    self.node("field");
                    self.typed(&fs[i].ty);
                    self.end();
                    i = i + 1;
                }
                assert(fs@.take(fs.len() as int) == fs@);
                self.punctuation(")");
            },
            Fields::Unit => {},
        }
        self.plain(",\n");
        self.end();
    }

    /// Writes an enum item.
    pub fn enumeration(&mut self, item: &Item)
        requires
            item is Enum,
        ensures
            final(self).written() == item_text(old(self).written(), *item),
    {
        match item {
            Item::Enum { attrs, vis, ident, generics, variants } => {
                self.node("enum");
                self.attributes(attrs);
                self.visibility(vis);
                self.keyword("enum");
                self.plain(" ");
                self.entity(ident.as_str());
                self.generics(generics);
                self.plain(" {\n");
                let ghost pre = self.written();
                let mut i: usize = 0;
                while i < variants.len()
                    invariant
                        0 <= i <= variants.len(),
                        self.written() == variants_text(pre, variants@.take(i as int)),
                    decreases variants.len() - i,
                {
                    assert(variants@.take(i + 1).drop_last() == variants@.take(i as int));
                    self.variant(&variants[i]);
                    i = i + 1;
                }
                assert(variants@.take(variants.len() as int) == variants@);
                self.plain("}\n");
                self.end();
            },
            _ => {},
        }
    }

    /// Writes a trait item.
    pub fn trait_item(&mut self, item: &Item)
        requires
            item is Trait,
        ensures
            final(self).written() == item_text(old(self).written(), *item),
    {
        match item {
            Item::Trait { attrs, vis, unsafety, ident, generics, items } => {
                self.node("trait");
                self.attributes(attrs);
                self.visibility(vis);
                if *unsafety {
                    self.storage("unsafe");
                    self.plain(" ");
                }
                self.keyword("trait");
                self.plain(" ");
                self.entity(ident.as_str());
                self.generics(generics);
                self.plain(" {\n");
                let ghost pre = self.written();
                let mut i: usize = 0;
                while i < items.len()
                    invariant
                        0 <= i <= items.len(),
                        self.written() == trait_items_text(pre, items@.take(i as int)),
                    decreases items.len() - i,
                {
                    assert(items@.take(i + 1).drop_last() == items@.take(i as int));
                    match &items[i] {
                        TraitItem::Fn { sig } => {
                            self.node("function");
                            self.plain("    ");
                            self.keyword("fn");
                            self.plain(" ");
                            self.entity(sig.ident.as_str());
                            self.generics(&sig.generics);
                            self.parameters(&sig.inputs, false);
                            self.return_type(&sig.output);
                            self.punctuation(";");
                            self.raw("\n");
                            self.end();
                        },
                        TraitItem::Type { ident } => {
                            self.node("alias");
                            self.plain("    ");
                            self.keyword("type");
                            self.plain(" ");
                            self.entity(ident.as_str());
                            self.punctuation(";");
                            self.raw("\n");
                            self.end();
                        },
                        TraitItem::Other => {},
                    }
                    i = i + 1;
                }
                assert(items@.take(items.len() as int) == items@);
                self.plain("}\n");
                self.end();
            },
            _ => {},
        }
    }

    /// Writes the statements of a method body.
    pub fn method_statements(&mut self, ss: &Vec<Stmt>)
        ensures
            final(self).written() == method_stmts_text(old(self).written(), ss@),
        decreases ss, 0int,
    {
        let four = crate::text::chars_of("    ");
        let ghost pre = self.written();
        let mut i: usize = 0;
        while i < ss.len()
            invariant
                0 <= i <= ss.len(),
                four@ == "    "@,
                self.written() == method_stmts_text(pre, ss@.take(i as int)),
            decreases ss.len() - i,
        {
            assert(ss@.take(i + 1).drop_last() == ss@.take(i as int));
            self.plain("    ");
            self.statement(&ss[i], &four);
            i = i + 1;
        }
        assert(ss@.take(ss.len() as int) == ss@);
    }

    /// Writes `NAME: T = value;`.
    pub fn binding(&mut self, ident: &String, ty: &Ty, expr: &Expr)
        ensures
            final(self).written() == binding_text(old(self).written(), ident@, *ty, *expr),
        decreases expr, 5int,
    {
        self.constant(ident.as_str());
        self.punctuation(":");
        self.plain(" ");
        self.typed(ty);
        self.plain(" ");
        self.operator("=");
        self.plain(" ");
        self.expression(expr);
        self.punctuation(";");
        self.raw("\n");
        self.end();
    }

    /// Writes the items of an impl block.
    pub fn impl_items(&mut self, items: &Vec<ImplItem>)
        ensures
            final(self).written() == impl_items_text(old(self).written(), items@),
        decreases items, 0int,
    {
        let ghost pre = self.written();
        let mut i: usize = 0;
        while i < items.len()
            invariant
                0 <= i <= items.len(),
                self.written() == impl_items_text(pre, items@.take(i as int)),
            decreases items.len() - i,
        {
            assert(items@.take(i + 1).drop_last() == items@.take(i as int));
            match &items[i] {
                ImplItem::Fn { attrs, vis, sig, body } => {
                    self.node("function");
                    self.attributes(attrs);
                    self.plain("    ");
                    self.visibility(vis);
                    self.signature(sig);
                    self.node("block");
                    self.plain(" {\n");
                    self.method_statements(body);
                    self.plain("    }\n");
                    self.end();
                    self.end();
                },
                ImplItem::Type { ident, ty } => {
                    self.node("alias");
                    self.plain("    ");
                    self.keyword("type");
                    self.plain(" ");
                    self.entity(ident.as_str());
                    self.plain(" ");
                    self.operator("=");
                    self.plain(" ");
                    self.typed(ty);
                    self.punctuation(";");
                    self.raw("\n");
                    self.end();
                },
                ImplItem::Const { ident, ty, expr } => {
                    self.node("const");
                    self.plain("    ");
                    self.storage("const");
                    self.plain(" ");
                    self.constant(ident.as_str());
                    self.punctuation(":");
                    self.plain(" ");
                    self.typed(ty);
                    self.plain(" ");
                    self.operator("=");
                    self.plain(" ");
                    self.expression(expr);
                    self.punctuation(";");
                    self.raw("\n");
                    self.end();
                },
                ImplItem::Other => {},
            }
            i = i + 1;
        }
        assert(items@.take(items.len() as int) == items@);
    }

    /// Writes items one after another.
    pub fn items(&mut self, items: &Vec<Item>)
        ensures
            final(self).written() == items_text(old(self).written(), items@),
        decreases items, 0int,
    {
        let ghost pre = self.written();
        let mut i: usize = 0;
        while i < items.len()
            invariant
                0 <= i <= items.len(),
                self.written() == items_text(pre, items@.take(i as int)),
            decreases items.len() - i,
        {
            assert(items@.take(i + 1).drop_last() == items@.take(i as int));
            self.item(&items[i]);
            i = i + 1;
        }
        assert(items@.take(items.len() as int) == items@);
    }

    /// Writes an item.
    pub fn item(&mut self, item: &Item)
        ensures
            final(self).written() == item_text(old(self).written(), *item),
        decreases item, 0int,
    {
        match item {
            Item::Use { attrs, vis, tree } => {
                self.node("use");
                self.attributes(attrs);
                self.visibility(vis);
                self.keyword("use");
                self.plain(" ");
                self.tree(tree);
                self.punctuation(";");
                self.raw("\n");
                self.end();
            },
            Item::Fn { attrs, vis, sig, body } => {
                self.node("function");
                self.attributes(attrs);
                self.visibility(vis);
                self.signature(sig);
                self.node("block");
                self.plain(" {\n");
                let four = crate::text::chars_of("    ");
                self.statements(body, &four);
                self.plain("}\n");
                self.end();
                self.end();
            },
            Item::Struct { .. } => self.structure(item),
            Item::Enum { .. } => self.enumeration(item),
            Item::Impl { attrs, unsafety, generics, trait_path, self_ty, items } => {
                self.node("impl");
                self.attributes(attrs);
                if *unsafety {
                    self.storage("unsafe");
                    self.plain(" ");
                }
                self.keyword("impl");
                self.generics(generics);
                self.plain(" ");
                match trait_path {
                    Some(path) => {
                        self.path(path);
                        self.plain(" ");
                        self.keyword("for");
                        self.plain(" ");
                    },
                    None => {},
                }
                self.typed(self_ty);
                match &generics.where_clause {
                    Some(ps) => self.clause(ps),
                    None => {},
                }
                self.plain(" {\n");
                self.impl_items(items);
                self.plain("}\n");
                self.end();
            },
            Item::Trait { .. } => self.trait_item(item),
            Item::Const { attrs, vis, ident, ty, expr } => {
                self.node("const");
                self.attributes(attrs);
                self.visibility(vis);
                self.storage("const");
                self.plain(" ");
                self.binding(ident, ty, expr);
            },
            Item::Static { attrs, vis, mutable, ident, ty, expr } => {
                self.node("static");
                self.attributes(attrs);
                self.visibility(vis);
                self.storage("static");
                self.plain(" ");
                if *mutable {
                    self.keyword("mut");
                    self.plain(" ");
                }
                self.binding(ident, ty, expr);
            },
            Item::Type { attrs, vis, ident, generics, ty } => {
                self.node("alias");
                self.attributes(attrs);
                self.visibility(vis);
                self.keyword("type");
                self.plain(" ");
                self.entity(ident.as_str());
                self.generics(generics);
                self.plain(" ");
                self.operator("=");
                self.plain(" ");
                self.typed(ty);
                self.punctuation(";");
                self.raw("\n");
                self.end();
            },
            Item::Mod { attrs, vis, ident, content } => {
                self.node("mod");
                self.attributes(attrs);
                self.visibility(vis);
                self.keyword("mod");
                self.plain(" ");
                self.plain(ident.as_str());
                match content {
                    Some(items) => {
                        self.plain(" {\n");
                        self.items(items);
                        self.plain("}\n");
                    },
                    None => {
                        self.punctuation(";");
                        self.raw("\n");
                    },
                }
                self.end();
            },
            Item::Macro { path, tokens } => {
                self.node("macro");
                self.path(path);
                self.macros("!");
                self.plain(" {\n");
                self.plain(tokens.as_str());
                self.plain("\n}\n");
                self.end();
            },
            Item::Other(o) => {
                self.plain(o.as_str());
                self.raw("\n");
            },
        }
    }

    /// Writes a whole file: its attributes as comments, then its items
    /// separated by line breaks.
    pub fn visit_file(&mut self, file: &File)
        ensures
            final(self).written() == file_items_text(
                file_attrs_text(old(self).written(), file.attrs@),
                file.items@,
            ),
    {
        let ghost pre = self.written();
        let mut i: usize = 0;
        while i < file.attrs.len()
            invariant
                0 <= i <= file.attrs.len(),
                self.written() == file_attrs_text(pre, file.attrs@.take(i as int)),
            decreases file.attrs.len() - i,
        {
            assert(file.attrs@.take(i + 1).drop_last() == file.attrs@.take(i as int));
            self.comment(file.attrs[i].as_str());
            self.raw("\n");
            i = i + 1;
        }
        assert(file.attrs@.take(file.attrs.len() as int) == file.attrs@);
        let ghost mid = self.written();
        let mut i: usize = 0;
        while i < file.items.len()
            invariant
                0 <= i <= file.items.len(),
                self.written() == file_items_text(mid, file.items@.take(i as int)),
            decreases file.items.len() - i,
        {
            assert(file.items@.take(i + 1).drop_last() == file.items@.take(i as int));
            if i > 0 {
                self.raw("\n");
            }
            self.item(&file.items[i]);
            i = i + 1;
        }
        assert(file.items@.take(file.items.len() as int) == file.items@);
    }
}

/// Highlights a whole file.
pub fn rust(ast: &File) -> (html: String)
    ensures
        html@ == file_text(*ast),
{
    let mut visitor = Visitor::new();
    visitor.visit_file(ast);
    visitor.text()
}

/// Highlights the body of the first function of a file, statement by
/// statement without indentation; nothing when the first item is not a function.
pub fn snippet(ast: &File) -> (html: String)
    ensures
        html@ == snippet_text(*ast),
{
    let mut visitor = Visitor::new();
    if ast.items.len() == 0 {
        return visitor.text();
    }
    match &ast.items[0] {
        Item::Fn { body, .. } => {
            let none: Vec<char> = Vec::new();
            let ghost pre = visitor.written();
            let mut i: usize = 0;
            while i < body.len()
                invariant
                    0 <= i <= body.len(),
                    none@ == Seq::<char>::empty(),
                    pre == Seq::<char>::empty(),
                    visitor.written() == snippet_stmts_text(pre, body@.take(i as int)),
                decreases body.len() - i,
            {
                assert(body@.take(i + 1).drop_last() == body@.take(i as int));
                if i > 0 {
                    visitor.raw("\n");
                }
                visitor.statement(&body[i], &none);
                i = i + 1;
            }
            assert(body@.take(body.len() as int) == body@);
        },
        _ => {},
    }
    visitor.text()
}

} // verus!
