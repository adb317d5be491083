//! The decisions behind the code generated for one test case: how each
//! parameter is bound and passed, which variable holds the result, and which
//! values are recorded and compared after the call.

use vstd::prelude::*;
use crate::imports::views;
use crate::starlark::same;
use crate::syntax::{FnArg, Pat, Signature, Ty};
use crate::validation::result_key;

verus! {

/// How an argument is passed to the function under test.
#[derive(Debug, Clone, Copy, PartialEq, Eq, Structural)]
pub enum Passing {
    /// By value: `name`.
    Value,
    /// By shared reference: `&name`.
    Shared,
    /// By mutable reference: `&mut name`, bound with `let mut`.
    Mutable,
}

/// How a parameter of type `ty` is passed.
pub open spec fn passing_of(ty: Ty) -> Passing {
    match ty {
        Ty::Reference { mutable, .. } => if mutable { Passing::Mutable } else { Passing::Shared },
        _ => Passing::Value,
    }
}

/// A parameter bound before the call: its name and how it is passed.
pub struct Binding {
    pub name: String,
    pub passing: Passing,
}

/// The bindings of the plain parameters of a signature, in order.
pub open spec fn bindings_of(inputs: Seq<FnArg>) -> Seq<(Seq<char>, Passing)>
    decreases inputs.len(),
{
    if inputs.len() == 0 {
        seq![]
    } else {
        let prior = bindings_of(inputs.drop_last());
        match inputs.last() {
            FnArg::Typed { pat: Pat::Ident { ident, .. }, ty } => prior.push((ident@, passing_of(ty))),
            _ => prior,
        }
    }
}

/// The names and passing of bindings.
pub open spec fn bindings_view(bs: Seq<Binding>) -> Seq<(Seq<char>, Passing)> {
    bs.map_values(|b: Binding| (b.name@, b.passing))
}

/// How each plain parameter of `sig` is bound and passed to the call.
pub fn bindings(sig: &Signature) -> (r: Vec<Binding>)
    ensures
        bindings_view(r@) == bindings_of(sig.inputs@),
{
    let mut r: Vec<Binding> = Vec::new();
    let mut i: usize = 0;
    assert(sig.inputs@.take(0) =~= Seq::<FnArg>::empty());
    while i < sig.inputs.len()
        invariant
            i <= sig.inputs.len(),
            bindings_view(r@) == bindings_of(sig.inputs@.take(i as int)),
        decreases sig.inputs.len() - i,
    {
        assert(sig.inputs@.take(i + 1).drop_last() =~= sig.inputs@.take(i as int));
        assert(sig.inputs@.take(i + 1).last() == sig.inputs@[i as int]);
        match &sig.inputs[i] {
            FnArg::Typed { pat: Pat::Ident { ident, .. }, ty } => {
                let passing = match ty {
                    Ty::Reference { mutable, .. } => if *mutable {
                        Passing::Mutable
                    } else {
                        Passing::Shared
                    },
                    _ => Passing::Value,
                };
                let ghost before = r@;
                r.push(Binding { name: ident.clone(), passing });
                assert(bindings_view(r@) =~= bindings_view(before).push((ident@, passing)));
            },
            _ => {},
        }
        i = i + 1;
    }
    assert(sig.inputs@.take(i as int) =~= sig.inputs@);
    r
}

/// The name of the variable that holds the result of the call: `result`
/// where a check reads it, under the result key or by that name, and
/// `_result` otherwise.
pub open spec fn result_variable_of(keys: Seq<Seq<char>>) -> Seq<char> {
    if keys.contains(result_key()) || keys.contains("result"@) {
        "result"@
    } else {
        "_result"@
    }
}

fn holds(keys: &Vec<String>, key: &str) -> (r: bool)
    ensures
        r == views(keys@).contains(key@),
{
    let mut i: usize = 0;
    while i < keys.len()
        invariant
            i <= keys.len(),
            forall|j: int| 0 <= j < i ==> views(keys@)[j] != key@,
        decreases keys.len() - i,
    {
        if same(keys[i].as_str(), key) {
            assert(views(keys@)[i as int] == key@);
            return true;
        }
        i = i + 1;
    }
    false
}

/// The variable that holds the result of the call, given the keys of the
/// expected values.
pub fn result_variable(keys: &Vec<String>) -> (r: String)
    ensures
        r@ == result_variable_of(views(keys@)),
{
    proof {
        reveal_strlit("()");
    }
    let unit = holds(keys, "()");
    assert("()"@ =~= result_key());
    if unit || holds(keys, "result") {
        String::from_str("result")
    } else {
        String::from_str("_result")
    }
}

/// What is recorded after the call: the result first where a value is
/// expected for it, then each other expected key, which must name a
/// parameter; the first that does not is refused.
pub open spec fn recorded_of(expected: Seq<Seq<char>>, parameters: Seq<Seq<char>>) -> Result<Seq<Seq<char>>, Seq<char>>
    decreases expected.len(),
{
    if expected.len() == 0 {
        Ok(seq![])
    } else {
        match recorded_of(expected.drop_last(), parameters) {
            Err(k) => Err(k),
            Ok(prior) => {
                let k = expected.last();
                if k == result_key() {
                    Ok(prior)
                } else if parameters.contains(k) {
                    Ok(prior.push(k))
                } else {
                    Err(k)
                }
            },
        }
    }
}

/// The keys recorded after the call, the result first where one is expected;
/// the first expected key that is neither the result nor a parameter is
/// refused.
pub fn recorded(expected: &Vec<String>, parameters: &Vec<String>) -> (r: Result<Vec<String>, String>)
    ensures
        match r {
            Ok(keys) => recorded_of(views(expected@), views(parameters@)) matches Ok(rest) && views(keys@) == (
            if views(expected@).contains(result_key()) {
                seq![result_key()] + rest
            } else {
                rest
            }),
            Err(k) => recorded_of(views(expected@), views(parameters@)) == Err::<Seq<Seq<char>>, Seq<char>>(k@),
        },
{
    let ghost ev = views(expected@);
    let ghost pv = views(parameters@);
    proof {
        reveal_strlit("()");
    }
    assert("()"@ =~= result_key());
    let unit = holds(expected, "()");
    let mut keys: Vec<String> = Vec::new();
    if unit {
        keys.push(String::from_str("()"));
    }
    let ghost head = views(keys@);
    assert(head == if ev.contains(result_key()) { seq![result_key()] } else { Seq::<Seq<char>>::empty() });
    let mut i: usize = 0;
    assert(ev.take(0) =~= Seq::<Seq<char>>::empty());
    assert(head + Seq::<Seq<char>>::empty() =~= head);
    while i < expected.len()
        invariant
            i <= expected.len(),
            ev == views(expected@),
            pv == views(parameters@),
            "()"@ == result_key(),
            recorded_of(ev.take(i as int), pv) matches Ok(rest) && views(keys@) == head + rest,
        decreases expected.len() - i,
    {
        assert(ev.take(i + 1).drop_last() =~= ev.take(i as int));
        assert(ev.take(i + 1).last() == expected@[i as int]@);
        let key = expected[i].as_str();
        let ghost rest = recorded_of(ev.take(i as int), pv)->Ok_0;
        if same(key, "()") {
        } else if holds(parameters, key) {
            let ghost before = views(keys@);
            keys.push(expected[i].clone());
            assert(views(keys@) =~= before.push(key@));
            assert(head + rest.push(key@) =~= (head + rest).push(key@));
        } else {
            proof {
                lemma_recorded_refused(ev, pv, i as int);
            }
            return Err(expected[i].clone());
        }
        i = i + 1;
    }
    assert(ev.take(i as int) =~= ev);
    Ok(keys)
}

proof fn lemma_recorded_refused(ev: Seq<Seq<char>>, pv: Seq<Seq<char>>, i: int)
    requires
        0 <= i < ev.len(),
        recorded_of(ev.take(i), pv) is Ok,
        ev[i] != result_key(),
        !pv.contains(ev[i]),
    ensures
        recorded_of(ev, pv) == Err::<Seq<Seq<char>>, Seq<char>>(ev[i]),
    decreases ev.len() - i,
{
    assert(ev.take(i + 1).drop_last() =~= ev.take(i));
    assert(ev.take(i + 1).last() == ev[i]);
    lemma_recorded_err_stays(ev, pv, i + 1, ev[i]);
}

proof fn lemma_recorded_err_stays(ev: Seq<Seq<char>>, pv: Seq<Seq<char>>, n: int, k: Seq<char>)
    requires
        0 <= n <= ev.len(),
        recorded_of(ev.take(n), pv) == Err::<Seq<Seq<char>>, Seq<char>>(k),
    ensures
        recorded_of(ev, pv) == Err::<Seq<Seq<char>>, Seq<char>>(k),
    decreases ev.len() - n,
{
    if n < ev.len() {
        assert(ev.take(n + 1).drop_last() =~= ev.take(n));
        lemma_recorded_err_stays(ev, pv, n + 1, k);
    } else {
        assert(ev.take(n) =~= ev);
    }
}

/// The type of the plain parameter named `name`, if the signature has one.
pub open spec fn parameter_type(inputs: Seq<FnArg>, name: Seq<char>) -> Option<Ty>
    decreases inputs.len(),
{
    if inputs.len() == 0 {
        None
    } else {
        match inputs[0] {
            FnArg::Typed { pat: Pat::Ident { ident, .. }, ty } => if ident@ == name {
                Some(ty)
            } else {
                parameter_type(inputs.drop_first(), name)
            },
            _ => parameter_type(inputs.drop_first(), name),
        }
    }
}

/// The type a value is read into for a comparison: a reference's target,
/// any other type itself.
pub open spec fn compared_type(ty: Ty) -> Ty {
    match ty {
        Ty::Reference { elem, .. } => *elem,
        _ => ty,
    }
}

/// The type a value is read into for a comparison.
pub fn read_type(ty: &Ty) -> (r: &Ty)
    ensures
        *r == compared_type(*ty),
{
    match ty {
        Ty::Reference { elem, .. } => elem,
        _ => ty,
    }
}

/// The type of the plain parameter named `name`, if the signature has one.
pub fn find_parameter_type<'a>(sig: &'a Signature, name: &str) -> (r: Option<&'a Ty>)
    ensures
        match r {
            Some(t) => parameter_type(sig.inputs@, name@) == Some(*t),
            None => parameter_type(sig.inputs@, name@) is None,
        },
{
    let mut i: usize = 0;
    assert(sig.inputs@.skip(0) =~= sig.inputs@);
    while i < sig.inputs.len()
        invariant
            i <= sig.inputs.len(),
            parameter_type(sig.inputs@, name@) == parameter_type(sig.inputs@.skip(i as int), name@),
        decreases sig.inputs.len() - i,
    {
        assert(sig.inputs@.skip(i as int)[0] == sig.inputs@[i as int]);
        assert(sig.inputs@.skip(i as int).drop_first() =~= sig.inputs@.skip(i + 1));
        match &sig.inputs[i] {
            FnArg::Typed { pat: Pat::Ident { ident, .. }, ty } => {
                if same(ident.as_str(), name) {
                    return Some(ty);
                }
            },
            _ => {},
        }
        i = i + 1;
    }
    assert(sig.inputs@.skip(i as int) =~= Seq::<FnArg>::empty());
    None
}

} // verus!
