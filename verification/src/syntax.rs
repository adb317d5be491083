//! A model of Rust source syntax: what the highlighter reads of a parsed
//! file. Constructs the highlighter does not take apart carry their source
//! text in an `Other` variant.

use vstd::prelude::*;

verus! {

/// A parsed source file: its inner attributes, as text, and its items.
pub struct File {
    pub attrs: Vec<String>,
    pub items: Vec<Item>,
}

/// Item visibility.
pub enum Visibility {
    Public,
    /// `pub(path)`, with the path as text.
    Restricted(String),
    Inherited,
}

/// A path such as `std::vec::Vec<T>`.
pub struct Path {
    pub segments: Vec<Segment>,
}

/// One segment of a path, with its arguments.
pub struct Segment {
    pub ident: String,
    pub arguments: Arguments,
}

/// The arguments of a path segment.
pub enum Arguments {
    Plain,
    /// `<A, B>`.
    Angle(Vec<GenericArg>),
    /// `(A, B) -> C`.
    Parenthesized { inputs: Vec<Ty>, output: Option<Box<Ty>> },
}

/// An argument between angle brackets.
pub enum GenericArg {
    Type(Ty),
    /// A lifetime, by its name without the quote.
    Lifetime(String),
    /// Any other argument, as text.
    Other(String),
}

/// A type.
pub enum Ty {
    /// A path type, with its qualified self type if any.
    Path { qself: Option<Box<Ty>>, path: Path },
    Reference { lifetime: Option<String>, mutable: bool, elem: Box<Ty> },
    Slice(Box<Ty>),
    /// An array type, with its length as text.
    Array { elem: Box<Ty>, len: String },
    Tuple(Vec<Ty>),
    ImplTrait(Vec<Bound>),
    TraitObject(Vec<Bound>),
    Infer,
    Never,
    Other(String),
}

/// A bound on a type parameter.
pub enum Bound {
    Trait(Path),
    /// A lifetime, by its name without the quote.
    Lifetime(String),
    Other(String),
}

/// A literal.
pub enum Lit {
    /// A string literal, by its value.
    Str(String),
    Char(char),
    /// An integer literal, as written.
    Int(String),
    /// A floating point literal, as written.
    Float(String),
    Bool(bool),
    /// A byte string literal, by its bytes.
    ByteStr(Vec<u8>),
    Byte(u8),
    Other(String),
}

/// A pattern.
pub enum Pat {
    Ident { by_ref: bool, mutable: bool, ident: String },
    Wild,
    Lit(Lit),
    Path(Path),
    Tuple(Vec<Pat>),
    TupleStruct { path: Path, elems: Vec<Pat> },
    /// A struct pattern; `qualified` holds when the path has a qualified self type.
    Struct { path: Path, fields: Vec<FieldPat>, qualified: bool },
    Reference { mutable: bool, pat: Box<Pat> },
    Slice(Vec<Pat>),
    Or(Vec<Pat>),
    Rest,
    Type { pat: Box<Pat>, ty: Box<Ty> },
    Other(String),
}

/// A field of a struct pattern; `colon` holds when the field names a subpattern.
pub struct FieldPat {
    pub member: String,
    pub colon: bool,
    pub pat: Pat,
}

/// An expression.
pub enum Expr {
    Lit(Lit),
    Path(Path),
    Call { func: Box<Expr>, args: Vec<Expr> },
    MethodCall { receiver: Box<Expr>, method: String, turbofish: Option<Vec<GenericArg>>, args: Vec<Expr> },
    Reference { mutable: bool, expr: Box<Expr> },
    Block(Vec<Stmt>),
    If { cond: Box<Expr>, then_branch: Vec<Stmt>, else_branch: Option<Box<Expr>> },
    Match { expr: Box<Expr>, arms: Vec<Arm> },
    Closure { asyncness: bool, movability: bool, capture: bool, inputs: Vec<Pat>, body: Box<Expr> },
    Struct { path: Path, fields: Vec<FieldValue> },
    /// Field access, with the member as text.
    Field { base: Box<Expr>, member: String },
    Index { expr: Box<Expr>, index: Box<Expr> },
    /// A unary operation, with the operator as text.
    Unary { op: String, expr: Box<Expr> },
    /// A binary operation, with the operator as text.
    Binary { left: Box<Expr>, op: String, right: Box<Expr> },
    Let { pat: Box<Pat>, expr: Box<Expr> },
    Return(Option<Box<Expr>>),
    Try(Box<Expr>),
    Await(Box<Expr>),
    Paren(Box<Expr>),
    Tuple(Vec<Expr>),
    Array(Vec<Expr>),
    Cast { expr: Box<Expr>, ty: Box<Ty> },
    /// A range, with its limits as text.
    Range { start: Option<Box<Expr>>, limits: String, end: Option<Box<Expr>> },
    /// A macro call, with its tokens as text.
    Macro { path: Path, tokens: String },
    Other(String),
}

/// A match arm.
pub struct Arm {
    pub pat: Pat,
    pub body: Expr,
}

/// A field of a struct expression; `colon` holds when it is not shorthand.
pub struct FieldValue {
    pub member: String,
    pub colon: bool,
    pub expr: Expr,
}

/// A statement.
pub enum Stmt {
    Local { pat: Pat, init: Option<Expr> },
    Expr { expr: Expr, semi: bool },
    Item(Item),
    Macro { path: Path, tokens: String, semi: bool },
}

/// Generic parameters and where clause.
pub struct Generics {
    pub params: Vec<GenericParam>,
    pub where_clause: Option<Vec<Predicate>>,
}

/// A generic parameter.
pub enum GenericParam {
    Type { ident: String, bounds: Vec<Bound> },
    /// A lifetime parameter, by its name without the quote.
    Lifetime(String),
    Const { ident: String, ty: Ty },
}

/// A where-clause predicate.
pub enum Predicate {
    Type { bounded: Ty, bounds: Vec<Bound> },
    Other(String),
}

/// A function signature.
pub struct Signature {
    pub constness: bool,
    pub asyncness: bool,
    pub unsafety: bool,
    pub ident: String,
    pub generics: Generics,
    pub inputs: Vec<FnArg>,
    pub output: Option<Ty>,
}

/// A function parameter.
pub enum FnArg {
    /// `self`, `&self`, `&'a mut self`.
    Receiver { reference: bool, lifetime: Option<String>, mutable: bool },
    Typed { pat: Pat, ty: Ty },
}

/// A named field of a struct.
pub struct NamedField {
    pub attrs: Vec<String>,
    pub vis: Visibility,
    pub ident: String,
    pub ty: Ty,
}

/// An unnamed field of a struct.
pub struct UnnamedField {
    pub vis: Visibility,
    pub ty: Ty,
}

/// The fields of a struct or variant.
pub enum Fields {
    Named(Vec<NamedField>),
    Unnamed(Vec<UnnamedField>),
    Unit,
}

/// An enum variant.
pub struct Variant {
    pub attrs: Vec<String>,
    pub ident: String,
    pub fields: Fields,
}

/// An item of an impl block.
pub enum ImplItem {
    Fn { attrs: Vec<String>, vis: Visibility, sig: Signature, body: Vec<Stmt> },
    Type { ident: String, ty: Ty },
    Const { ident: String, ty: Ty, expr: Expr },
    Other,
}

/// An item of a trait.
pub enum TraitItem {
    Fn { sig: Signature },
    Type { ident: String },
    Other,
}

/// A use tree.
pub enum UseTree {
    Path { ident: String, tree: Box<UseTree> },
    Name(String),
    Rename { ident: String, rename: String },
    Glob,
    Group(Vec<UseTree>),
}

/// An item.
pub enum Item {
    Use { attrs: Vec<String>, vis: Visibility, tree: UseTree },
    Fn { attrs: Vec<String>, vis: Visibility, sig: Signature, body: Vec<Stmt> },
    Struct { attrs: Vec<String>, vis: Visibility, ident: String, generics: Generics, fields: Fields },
    Enum { attrs: Vec<String>, vis: Visibility, ident: String, generics: Generics, variants: Vec<Variant> },
    Impl {
        attrs: Vec<String>,
        unsafety: bool,
        generics: Generics,
        trait_path: Option<Path>,
        self_ty: Ty,
        items: Vec<ImplItem>,
    },
    Trait {
        attrs: Vec<String>,
        vis: Visibility,
        unsafety: bool,
        ident: String,
        generics: Generics,
        items: Vec<TraitItem>,
    },
    Const { attrs: Vec<String>, vis: Visibility, ident: String, ty: Ty, expr: Expr },
    Static { attrs: Vec<String>, vis: Visibility, mutable: bool, ident: String, ty: Ty, expr: Expr },
    Type { attrs: Vec<String>, vis: Visibility, ident: String, generics: Generics, ty: Ty },
    Mod { attrs: Vec<String>, vis: Visibility, ident: String, content: Option<Vec<Item>> },
    Macro { path: Path, tokens: String },
    Other(String),
}

} // verus!
