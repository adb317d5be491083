//! The functions of a template: every function item of the file, wherever
//! it stands, named by the modules around it, with the parameters a test
//! case must give it.

use vstd::prelude::*;
use crate::imports::views;
use crate::names::{qualified, qualified_name};
use crate::starlark::same;
use crate::syntax::Signature;
use crate::validation::{parameter_names, parameter_names_of};

verus! {

/// A function or module item of a template, with the function and module
/// items declared inside it, in the order a syntax visitor meets them.
pub enum Declared {
    /// A function item and the items declared anywhere in its body.
    Fn { sig: Signature, nested: Vec<Declared> },
    /// A module and its items.
    Mod { ident: String, nested: Vec<Declared> },
}

/// A function found in a template: its qualified name and the names of its
/// plain parameters.
pub type Found = (Seq<char>, Seq<Seq<char>>);

/// `acc` followed by the functions of an item inside the modules `m`: a
/// function before the functions declared in its body.
pub open spec fn declared_fns(acc: Seq<Found>, m: Seq<Seq<char>>, d: Declared) -> Seq<Found>
    decreases d, 1int,
{
    match d {
        Declared::Fn { sig, nested } => list_fns(
            acc.push((qualified_name(m, sig.ident@), parameter_names_of(sig.inputs@))),
            m,
            nested@,
        ),
        Declared::Mod { ident, nested } => list_fns(acc, m.push(ident@), nested@),
    }
}

/// `acc` followed by the functions of the items, in order.
pub open spec fn list_fns(acc: Seq<Found>, m: Seq<Seq<char>>, ds: Seq<Declared>) -> Seq<Found>
    decreases ds, 0int,
{
    if ds.len() == 0 {
        acc
    } else {
        declared_fns(list_fns(acc, m, ds.drop_last()), m, ds.last())
    }
}

/// The functions of a template whose items are `ds`, in the order a syntax
/// visitor meets them.
pub open spec fn template_fns(ds: Seq<Declared>) -> Seq<Found> {
    list_fns(seq![], seq![], ds)
}

/// The functions of a template: each qualified name with the names of the
/// parameters a case must give. A name found twice stands for the function
/// found last.
pub struct Context {
    pub functions: Vec<(String, Vec<String>)>,
}

/// The found functions of a list of entries.
pub open spec fn found_of(fs: Seq<(String, Vec<String>)>) -> Seq<Found> {
    fs.map_values(|f: (String, Vec<String>)| (f.0@, views(f.1@)))
}

impl Context {
    /// The functions of the template whose items are `items`.
    pub fn from(items: &Vec<Declared>) -> (c: Context)
        ensures
            found_of(c.functions@) == template_fns(items@),
    {
        let mut collector = Collector { functions: Vec::new() };
        let module: Vec<String> = Vec::new();
        assert(views(module@) =~= Seq::<Seq<char>>::empty());
        assert(found_of(collector.functions@) =~= Seq::<Found>::empty());
        collector.list(&module, items);
        Context { functions: collector.functions }
    }

    /// Where the function named `name` stands: the last entry under that name.
    pub fn find(&self, name: &str) -> (r: Option<usize>)
        ensures
            match r {
                Some(i) => i < self.functions@.len() && self.functions@[i as int].0@ == name@ && forall|j: int|
                    i < j < self.functions@.len() ==> #[trigger] self.functions@[j].0@ != name@,
                None => forall|j: int| 0 <= j < self.functions@.len() ==> #[trigger] self.functions@[j].0@ != name@,
            },
    {
        let mut i: usize = self.functions.len();
        while i > 0
            invariant
                i <= self.functions@.len(),
                forall|j: int| i <= j < self.functions@.len() ==> #[trigger] self.functions@[j].0@ != name@,
            decreases i,
        {
            if same(self.functions[i - 1].0.as_str(), name) {
                return Some(i - 1);
            }
            i = i - 1;
        }
        None
    }
}

struct Collector {
    functions: Vec<(String, Vec<String>)>,
}

impl Collector {
    spec fn found(&self) -> Seq<Found> {
        found_of(self.functions@)
    }

    fn record(&mut self, name: String, parameters: Vec<String>)
        ensures
            final(self).found() == old(self).found().push((name@, views(parameters@))),
    {
        let ghost before = self.functions@;
        self.functions.push((name, parameters));
        assert(found_of(self.functions@) =~= found_of(before).push((name@, views(parameters@))));
    }

    fn declared(&mut self, module: &Vec<String>, d: &Declared)
        ensures
            final(self).found() == declared_fns(old(self).found(), views(module@), *d),
        decreases d, 1int,
    {
        match d {
            Declared::Fn { sig, nested } => {
                let name = qualified(module, sig.ident.as_str());
                let parameters = parameter_names(sig);
                self.record(name, parameters);
                proof {
                    assert(decreases_to!(*d => *nested));
                }
                self.list(module, nested);
            },
            Declared::Mod { ident, nested } => {
                let mut inner: Vec<String> = Vec::new();
                let mut k: usize = 0;
                while k < module.len()
                    invariant
                        k <= module.len(),
                        views(inner@) == views(module@).take(k as int),
                    decreases module.len() - k,
                {
                    let ghost before = inner@;
                    inner.push(module[k].clone());
                    assert(views(inner@) =~= views(before).push(module@[k as int]@));
                    k = k + 1;
                    assert(views(module@).take(k as int) =~= views(module@).take(k - 1).push(module@[k - 1]@));
                }
                let ghost before = inner@;
                inner.push(ident.clone());
                assert(views(inner@) =~= views(before).push(ident@));
                assert(views(module@).take(k as int) =~= views(module@));
                proof {
                    assert(decreases_to!(*d => *nested));
                }
                self.list(&inner, nested);
            },
        }
    }

    fn list(&mut self, module: &Vec<String>, ds: &Vec<Declared>)
        ensures
            final(self).found() == list_fns(old(self).found(), views(module@), ds@),
        decreases ds, 0int,
    {
        let ghost start = self.found();
        let mut i: usize = 0;
        assert(ds@.take(0) =~= Seq::<Declared>::empty());
        while i < ds.len()
            invariant
                i <= ds.len(),
                self.found() == list_fns(start, views(module@), ds@.take(i as int)),
            decreases ds.len() - i,
        {
            assert(ds@.take(i + 1).drop_last() =~= ds@.take(i as int));
            assert(ds@.take(i + 1).last() == ds@[i as int]);
            proof {
                assert(decreases_to!(*ds => ds@));
                assert(decreases_to!(ds@ => ds@[i as int]));
            }
            self.declared(module, &ds[i]);
            i = i + 1;
        }
        assert(ds@.take(i as int) =~= ds@);
    }
}

} // verus!
