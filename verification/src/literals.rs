//! Primitive types as generated test code names them, the literals of the
//! values a case gives for them, and types written back as text.

use vstd::prelude::*;
use crate::json::{Json, JsonView};
use crate::starlark::same;
use crate::syntax::{Arguments, GenericArg, NamedField, Ty};
use crate::text::{extend_str, string_of};

verus! {

/// A primitive type.
#[derive(Debug, Clone, Copy, PartialEq, Eq, Structural)]
pub enum PrimitiveType {
    Integral(IntegralType),
    Real(RealType),
    Other(OtherType),
}

/// An integer type.
#[derive(Debug, Clone, Copy, PartialEq, Eq, Structural)]
pub enum IntegralType {
    I8,
    I16,
    I32,
    I64,
    I128,
    ISize,
    U8,
    U16,
    U32,
    U64,
    U128,
    USize,
}

/// A floating point type.
#[derive(Debug, Clone, Copy, PartialEq, Eq, Structural)]
pub enum RealType {
    F32,
    F64,
}

/// A primitive type that is neither a number nor a float.
#[derive(Debug, Clone, Copy, PartialEq, Eq, Structural)]
pub enum OtherType {
    Bool,
    String,
    Str,
}

/// The primitive type a type name stands for.
pub open spec fn primitive_named(name: Seq<char>) -> Option<PrimitiveType> {
    if name == "i8"@ {
        Some(PrimitiveType::Integral(IntegralType::I8))
    } else if name == "i16"@ {
        Some(PrimitiveType::Integral(IntegralType::I16))
    } else if name == "i32"@ {
        Some(PrimitiveType::Integral(IntegralType::I32))
    } else if name == "i64"@ {
        Some(PrimitiveType::Integral(IntegralType::I64))
    } else if name == "i128"@ {
        Some(PrimitiveType::Integral(IntegralType::I128))
    } else if name == "isize"@ {
        Some(PrimitiveType::Integral(IntegralType::ISize))
    } else if name == "u8"@ {
        Some(PrimitiveType::Integral(IntegralType::U8))
    } else if name == "u16"@ {
        Some(PrimitiveType::Integral(IntegralType::U16))
    } else if name == "u32"@ {
        Some(PrimitiveType::Integral(IntegralType::U32))
    } else if name == "u64"@ {
        Some(PrimitiveType::Integral(IntegralType::U64))
    } else if name == "u128"@ {
        Some(PrimitiveType::Integral(IntegralType::U128))
    } else if name == "usize"@ {
        Some(PrimitiveType::Integral(IntegralType::USize))
    } else if name == "f32"@ {
        Some(PrimitiveType::Real(RealType::F32))
    } else if name == "f64"@ {
        Some(PrimitiveType::Real(RealType::F64))
    } else if name == "bool"@ {
        Some(PrimitiveType::Other(OtherType::Bool))
    } else if name == "String"@ {
        Some(PrimitiveType::Other(OtherType::String))
    } else if name == "str"@ {
        Some(PrimitiveType::Other(OtherType::Str))
    } else {
        None
    }
}

impl PrimitiveType {
    /// The primitive type a type name stands for, if any.
    pub fn from_type_name(name: &str) -> (r: Option<PrimitiveType>)
        ensures
            r == primitive_named(name@),
    {
        if same(name, "i8") {
            Some(PrimitiveType::Integral(IntegralType::I8))
        } else if same(name, "i16") {
            Some(PrimitiveType::Integral(IntegralType::I16))
        } else if same(name, "i32") {
            Some(PrimitiveType::Integral(IntegralType::I32))
        } else if same(name, "i64") {
            Some(PrimitiveType::Integral(IntegralType::I64))
        } else if same(name, "i128") {
            Some(PrimitiveType::Integral(IntegralType::I128))
        } else if same(name, "isize") {
            Some(PrimitiveType::Integral(IntegralType::ISize))
        } else if same(name, "u8") {
            Some(PrimitiveType::Integral(IntegralType::U8))
        } else if same(name, "u16") {
            Some(PrimitiveType::Integral(IntegralType::U16))
        } else if same(name, "u32") {
            Some(PrimitiveType::Integral(IntegralType::U32))
        } else if same(name, "u64") {
            Some(PrimitiveType::Integral(IntegralType::U64))
        } else if same(name, "u128") {
            Some(PrimitiveType::Integral(IntegralType::U128))
        } else if same(name, "usize") {
            Some(PrimitiveType::Integral(IntegralType::USize))
        } else if same(name, "f32") {
            Some(PrimitiveType::Real(RealType::F32))
        } else if same(name, "f64") {
            Some(PrimitiveType::Real(RealType::F64))
        } else if same(name, "bool") {
            Some(PrimitiveType::Other(OtherType::Bool))
        } else if same(name, "String") {
            Some(PrimitiveType::Other(OtherType::String))
        } else if same(name, "str") {
            Some(PrimitiveType::Other(OtherType::Str))
        } else {
            None
        }
    }
}

/// The literal of a value for a primitive type that is neither a number nor
/// a float: `true`/`false`, a string turned into an owned `String`, or a
/// string slice.
pub open spec fn other_literal(t: OtherType, value: JsonView) -> Seq<char> {
    match t {
        OtherType::Bool => match value {
            JsonView::Bool(b) => if b { "true"@ } else { "false"@ },
            _ => seq![],
        },
        OtherType::String => match value {
            JsonView::String(s) => "\""@ + s + "\".to_string()"@,
            _ => seq![],
        },
        OtherType::Str => match value {
            JsonView::String(s) => "\""@ + s + "\""@,
            _ => seq![],
        },
    }
}

/// Whether a value fits a primitive type that is neither a number nor a
/// float.
pub open spec fn fits_other(t: OtherType, value: JsonView) -> bool {
    match t {
        OtherType::Bool => value is Bool,
        _ => value is String,
    }
}

impl OtherType {
    /// The literal of `value` for this type; the value must be a boolean for
    /// `bool` and a string otherwise.
    pub fn to_literal(&self, value: &Json) -> (r: String)
        requires
            fits_other(*self, value@),
        ensures
            r@ == other_literal(*self, value@),
    {
        let mut out: Vec<char> = Vec::new();
        match self {
            OtherType::Bool => match value {
                Json::Bool(b) => {
                    if *b {
                        extend_str(&mut out, "true");
                    } else {
                        extend_str(&mut out, "false");
                    }
                },
                _ => {},
            },
            OtherType::String => match value {
                Json::String(s) => {
                    extend_str(&mut out, "\"");
                    extend_str(&mut out, s.as_str());
                    extend_str(&mut out, "\".to_string()");
                },
                _ => {},
            },
            OtherType::Str => match value {
                Json::String(s) => {
                    extend_str(&mut out, "\"");
                    extend_str(&mut out, s.as_str());
                    extend_str(&mut out, "\"");
                },
                _ => {},
            },
        }
        string_of(&out)
    }
}

/// Access to the name of a named field.
pub trait FieldOperations {
    /// The field's name.
    fn field_name(&self) -> String;
}

impl FieldOperations for NamedField {
    fn field_name(&self) -> (r: String)
        ensures
            r@ == self.ident@,
    {
        self.ident.clone()
    }
}

/// Whether every path that `type_text` reads has a last segment.
pub open spec fn writable(ty: Ty) -> bool
    decreases ty,
{
    match ty {
        Ty::Path { path, .. } => path.segments@.len() > 0 && match path.segments@.last().arguments {
            Arguments::Angle(args) => args_writable(args@),
            _ => true,
        },
        Ty::Reference { elem, .. } => writable(*elem),
        Ty::Tuple(elems) => tys_writable(elems@),
        _ => true,
    }
}

pub open spec fn args_writable(args: Seq<GenericArg>) -> bool
    decreases args,
{
    if args.len() == 0 {
        true
    } else {
        args_writable(args.drop_last()) && match args.last() {
            GenericArg::Type(t) => writable(t),
            _ => true,
        }
    }
}

pub open spec fn tys_writable(tys: Seq<Ty>) -> bool
    decreases tys,
{
    if tys.len() == 0 {
        true
    } else {
        tys_writable(tys.drop_last()) && writable(tys.last())
    }
}

/// The number of type arguments among `args`.
pub open spec fn type_arg_count(args: Seq<GenericArg>) -> nat
    decreases args.len(),
{
    if args.len() == 0 {
        0
    } else {
        type_arg_count(args.drop_last()) + if args.last() is Type { 1nat } else { 0nat }
    }
}

/// The text of a type as generated code writes it: a path by its last
/// segment with its type arguments, a reference by `&` and its target, a
/// tuple by its elements; `Unknown` for anything else.
pub open spec fn type_text(ty: Ty) -> Seq<char>
    decreases ty,
{
    match ty {
        Ty::Path { path, .. } => if path.segments@.len() == 0 {
            seq![]
        } else {
            let last = path.segments@.last();
            match last.arguments {
                Arguments::Angle(a) => if type_arg_count(a@) == 0 {
                    last.ident@
                } else {
                    last.ident@ + "<"@ + args_text(a@) + ">"@
                },
                _ => last.ident@,
            }
        },
        Ty::Reference { elem, .. } => "&"@ + type_text(*elem),
        Ty::Tuple(elems) => "("@ + tys_text(elems@) + ")"@,
        _ => "Unknown"@,
    }
}

/// The texts of the type arguments among `args`, joined by `, `.
pub open spec fn args_text(args: Seq<GenericArg>) -> Seq<char>
    decreases args,
{
    if args.len() == 0 {
        seq![]
    } else {
        let prior = args_text(args.drop_last());
        match args.last() {
            GenericArg::Type(t) => if type_arg_count(args.drop_last()) == 0 {
                type_text(t)
            } else {
                prior + ", "@ + type_text(t)
            },
            _ => prior,
        }
    }
}

/// The texts of types, joined by `, `.
pub open spec fn tys_text(tys: Seq<Ty>) -> Seq<char>
    decreases tys,
{
    if tys.len() == 0 {
        seq![]
    } else if tys.len() == 1 {
        type_text(tys[0])
    } else {
        tys_text(tys.drop_last()) + ", "@ + type_text(tys.last())
    }
}

/// The text of a type as generated code writes it.
pub fn type_to_string(ty: &Ty) -> (r: String)
    requires
        writable(*ty),
    ensures
        r@ == type_text(*ty),
{
    let mut out: Vec<char> = Vec::new();
    write_type(&mut out, ty);
    string_of(&out)
}

fn write_type(out: &mut Vec<char>, ty: &Ty)
    requires
        writable(*ty),
    ensures
        final(out)@ == old(out)@ + type_text(*ty),
    decreases ty,
{
    match ty {
        Ty::Path { path, .. } => {
            let n = path.segments.len();
            let last = &path.segments[n - 1];
            assert(path.segments@.last() == path.segments@[n - 1]);
            match &last.arguments {
                Arguments::Angle(a) => {
                    let ghost start = out@;
                    extend_str(out, last.ident.as_str());
                    let ghost named = out@;
                    proof {
                        assert(decreases_to!(*ty => (*ty)->path));
                        assert(decreases_to!(path => path.segments));
                        assert(decreases_to!(path.segments => path.segments@));
                        assert(decreases_to!(path.segments@ => path.segments@[n - 1]));
                        assert(decreases_to!(path.segments@[n - 1] => path.segments@[n - 1].arguments));
                        assert(decreases_to!(path.segments@[n - 1].arguments => a));
                        assert(decreases_to!(*ty => *a));
                    }
                    let count = write_args(out, a);
                    if count == 0 {
                        assert(out@ == named);
                    }
                },
                _ => {
                    extend_str(out, last.ident.as_str());
                },
            }
        },
        Ty::Reference { elem, .. } => {
            extend_str(out, "&");
            write_type(out, elem);
        },
        Ty::Tuple(elems) => {
            extend_str(out, "(");
            write_tys(out, elems);
            extend_str(out, ")");
        },
        _ => {
            extend_str(out, "Unknown");
        },
    }
}

fn write_args(out: &mut Vec<char>, args: &Vec<GenericArg>) -> (count: usize)
    requires
        args_writable(args@),
    ensures
        count == type_arg_count(args@),
        count == 0 ==> final(out)@ == old(out)@,
        count > 0 ==> final(out)@ == old(out)@ + "<"@ + args_text(args@) + ">"@,
    decreases args,
{
    let ghost start = out@;
    let mut body: Vec<char> = Vec::new();
    let mut count: usize = 0;
    let mut i: usize = 0;
    assert(args@.take(0) =~= Seq::<GenericArg>::empty());
    while i < args.len()
        invariant
            i <= args.len(),
            args_writable(args@),
            count == type_arg_count(args@.take(i as int)),
            count <= i,
            body@ == args_text(args@.take(i as int)),
        decreases args.len() - i,
    {
        assert(args@.take(i + 1).drop_last() =~= args@.take(i as int));
        assert(args@.take(i + 1).last() == args@[i as int]);
        proof {
            lemma_args_writable(args@, i as int);
        }
        match &args[i] {
            GenericArg::Type(t) => {
                if count > 0 {
                    extend_str(&mut body, ", ");
                } else {
                    proof {
                        lemma_args_text_empty(args@.take(i as int));
                    }
                }
                proof {
                    assert(decreases_to!(*args => args@));
                    assert(decreases_to!(args@ => args@[i as int]));
                }
                write_type(&mut body, t);
                count = count + 1;
            },
            _ => {},
        }
        i = i + 1;
    }
    assert(args@.take(i as int) =~= args@);
    if count > 0 {
        extend_str(out, "<");
        crate::text::extend_chars(out, &body);
        extend_str(out, ">");
    }
    count
}

proof fn lemma_args_text_empty(args: Seq<GenericArg>)
    requires
        type_arg_count(args) == 0,
    ensures
        args_text(args) == Seq::<char>::empty(),
    decreases args.len(),
{
    if args.len() > 0 {
        lemma_args_text_empty(args.drop_last());
    }
}

proof fn lemma_args_writable(args: Seq<GenericArg>, i: int)
    requires
        args_writable(args),
        0 <= i < args.len(),
    ensures
        args[i] matches GenericArg::Type(t) ==> writable(t),
    decreases args.len(),
{
    if i < args.len() - 1 {
        assert(args.drop_last()[i] == args[i]);
        lemma_args_writable(args.drop_last(), i);
    }
}

proof fn lemma_tys_writable(tys: Seq<Ty>, i: int)
    requires
        tys_writable(tys),
        0 <= i < tys.len(),
    ensures
        writable(tys[i]),
    decreases tys.len(),
{
    if i < tys.len() - 1 {
        assert(tys.drop_last()[i] == tys[i]);
        lemma_tys_writable(tys.drop_last(), i);
    }
}

fn write_tys(out: &mut Vec<char>, tys: &Vec<Ty>)
    requires
        tys_writable(tys@),
    ensures
        final(out)@ == old(out)@ + tys_text(tys@),
    decreases tys,
{
    let ghost start = out@;
    let mut i: usize = 0;
    assert(tys@.take(0) =~= Seq::<Ty>::empty());
    while i < tys.len()
        invariant
            i <= tys.len(),
            tys_writable(tys@),
            out@ == start + tys_text(tys@.take(i as int)),
        decreases tys.len() - i,
    {
        assert(tys@.take(i + 1).drop_last() =~= tys@.take(i as int));
        assert(tys@.take(i + 1).last() == tys@[i as int]);
        if i > 0 {
            extend_str(out, ", ");
        } else {
            assert(tys@.take(1)[0] == tys@[0]);
        }
        proof {
            lemma_tys_writable(tys@, i as int);
            assert(decreases_to!(*tys => tys@));
            assert(decreases_to!(tys@ => tys@[i as int]));
        }
        write_type(out, &tys[i]);
        i = i + 1;
    }
    assert(tys@.take(i as int) =~= tys@);
}

} // verus!
