//! JSON values of test cases, and the shadowing of default values by the
//! values a case gives: an object patch merges key by key, `null` removes a
//! key, and any other value replaces what it patches.

use vstd::prelude::*;
use crate::order::{precedes, str_precedes, lemma_precedes_transitive, lemma_precedes_total,
    lemma_precedes_irreflexive, lemma_precedes_asymmetric};
use crate::starlark::same;
use crate::imports::{views, increasing};

verus! {

/// A JSON value. The entries of an object are kept in the order of their keys.
#[derive(Debug, PartialEq)]
pub enum Json {
    Null,
    Bool(bool),
    /// A number, as its text.
    Number(String),
    String(String),
    Array(Vec<Json>),
    Object(Vec<(String, Json)>),
}

/// The mathematical value of a `Json`.
pub enum JsonView {
    Null,
    Bool(bool),
    Number(Seq<char>),
    String(Seq<char>),
    Array(Seq<JsonView>),
    Object(Seq<(Seq<char>, JsonView)>),
}

/// The view of a JSON value.
pub open spec fn json_view(j: Json) -> JsonView
    decreases j,
{
    match j {
        Json::Null => JsonView::Null,
        Json::Bool(b) => JsonView::Bool(b),
        Json::Number(n) => JsonView::Number(n@),
        Json::String(s) => JsonView::String(s@),
        Json::Array(v) => JsonView::Array(array_view(v@)),
        Json::Object(es) => JsonView::Object(entries_view(es@)),
    }
}

/// The views of the items of an array.
pub open spec fn array_view(s: Seq<Json>) -> Seq<JsonView>
    decreases s,
{
    if s.len() == 0 {
        seq![]
    } else {
        array_view(s.drop_last()).push(json_view(s.last()))
    }
}

/// The views of the entries of an object.
pub open spec fn entries_view(s: Seq<(String, Json)>) -> Seq<(Seq<char>, JsonView)>
    decreases s,
{
    if s.len() == 0 {
        seq![]
    } else {
        entries_view(s.drop_last()).push((s.last().0@, json_view(s.last().1)))
    }
}

impl View for Json {
    type V = JsonView;

    open spec fn view(&self) -> JsonView {
        json_view(*self)
    }
}

pub proof fn lemma_array_view(s: Seq<Json>)
    ensures
        array_view(s).len() == s.len(),
        forall|i: int| 0 <= i < s.len() ==> #[trigger] array_view(s)[i] == json_view(s[i]),
    decreases s.len(),
{
    if s.len() > 0 {
        lemma_array_view(s.drop_last());
    }
}

pub proof fn lemma_entries_view(s: Seq<(String, Json)>)
    ensures
        entries_view(s).len() == s.len(),
        forall|i: int| 0 <= i < s.len() ==> #[trigger] entries_view(s)[i] == (s[i].0@, json_view(s[i].1)),
    decreases s.len(),
{
    if s.len() > 0 {
        lemma_entries_view(s.drop_last());
    }
}

/// The value stored under the first entry with key `k`, if any.
pub open spec fn found(es: Seq<(Seq<char>, JsonView)>, k: Seq<char>) -> Option<JsonView>
    decreases es.len(),
{
    if es.len() == 0 {
        None
    } else if es[0].0 == k {
        Some(es[0].1)
    } else {
        found(es.drop_first(), k)
    }
}

/// The entries without the first one under `k`.
pub open spec fn removed(es: Seq<(Seq<char>, JsonView)>, k: Seq<char>) -> Seq<(Seq<char>, JsonView)>
    decreases es.len(),
{
    if es.len() == 0 {
        es
    } else if es[0].0 == k {
        es.drop_first()
    } else {
        seq![es[0]] + removed(es.drop_first(), k)
    }
}

/// The entries with `v` stored under `k`: in place of the first entry under
/// `k`, or else before the first entry whose key comes after `k`.
pub open spec fn assigned(es: Seq<(Seq<char>, JsonView)>, k: Seq<char>, v: JsonView) -> Seq<(Seq<char>, JsonView)>
    decreases es.len(),
{
    if es.len() == 0 {
        seq![(k, v)]
    } else if es[0].0 == k {
        seq![(k, v)] + es.drop_first()
    } else if precedes(k, es[0].0) {
        seq![(k, v)] + es
    } else {
        seq![es[0]] + assigned(es.drop_first(), k, v)
    }
}

/// The entries of an object; none for any other value.
pub open spec fn fields(t: JsonView) -> Seq<(Seq<char>, JsonView)> {
    match t {
        JsonView::Object(es) => es,
        _ => seq![],
    }
}

/// What is under `k`, `null` where nothing is.
pub open spec fn found_or_null(es: Seq<(Seq<char>, JsonView)>, k: Seq<char>) -> JsonView {
    match found(es, k) {
        Some(v) => v,
        None => JsonView::Null,
    }
}

/// `t` shadowed by the patch `p`: an object patch applies its entries in
/// turn to the entries of `t` (none, where `t` is no object); any other
/// patch replaces `t`.
pub open spec fn shadowing(t: JsonView, p: JsonView) -> JsonView
    decreases p,
{
    match p {
        JsonView::Object(rw) => JsonView::Object(patched(fields(t), rw)),
        _ => p,
    }
}

/// The entries `base` after the entries `rw` of a patch, in turn: a `null`
/// removes its key, any other value shadows what is under its key.
pub open spec fn patched(base: Seq<(Seq<char>, JsonView)>, rw: Seq<(Seq<char>, JsonView)>) -> Seq<(Seq<char>, JsonView)>
    decreases rw,
{
    if rw.len() == 0 {
        base
    } else {
        let prior = patched(base, rw.drop_last());
        let k = rw.last().0;
        let v = rw.last().1;
        if v is Null {
            removed(prior, k)
        } else {
            assigned(prior, k, shadowing(found_or_null(prior, k), v))
        }
    }
}

/// The `defaults` after the `overrides` in turn: under a key that is there,
/// the value is shadowed; a new key takes the override as it is.
pub open spec fn overlaid(defaults: Seq<(Seq<char>, JsonView)>, overrides: Seq<(Seq<char>, JsonView)>) -> Seq<(Seq<char>, JsonView)>
    decreases overrides.len(),
{
    if overrides.len() == 0 {
        defaults
    } else {
        let prior = overlaid(defaults, overrides.drop_last());
        let k = overrides.last().0;
        let v = overrides.last().1;
        match found(prior, k) {
            Some(e) => assigned(prior, k, shadowing(e, v)),
            None => assigned(prior, k, v),
        }
    }
}

impl Json {
    /// A deep copy.
    pub fn duplicate(&self) -> (r: Json)
        ensures
            r@ == self@,
        decreases self,
    {
        match self {
            Json::Null => Json::Null,
            Json::Bool(b) => Json::Bool(*b),
            Json::Number(n) => Json::Number(n.clone()),
            Json::String(s) => Json::String(s.clone()),
            Json::Array(v) => {
                let mut out: Vec<Json> = Vec::new();
                let mut i: usize = 0;
                while i < v.len()
                    invariant
                        i <= v.len(),
                        *self == Json::Array(*v),
                        array_view(out@) == array_view(v@.take(i as int)),
                    decreases v.len() - i,
                {
                    proof {
                        assert((*self)->Array_0 == *v);
                        assert(decreases_to!(*self => (*self)->Array_0));
                        assert(decreases_to!(*v => v@));
                        assert(decreases_to!(v@ => v@[i as int]));
                        assert(decreases_to!(*self => v@[i as int]));
                    }
                    let item = v[i].duplicate();
                    let ghost before = out@;
                    out.push(item);
                    assert(out@.drop_last() =~= before);
                    assert(v@.take(i + 1).drop_last() =~= v@.take(i as int));
                    i = i + 1;
                }
                assert(v@.take(i as int) =~= v@);
                Json::Array(out)
            },
            Json::Object(es) => Json::Object(copy_entries(es)),
        }
    }
}

/// A deep copy of object entries.
pub(crate) fn copy_entries(es: &Vec<(String, Json)>) -> (r: Vec<(String, Json)>)
    ensures
        entries_view(r@) == entries_view(es@),
    decreases es,
{
    let mut out: Vec<(String, Json)> = Vec::new();
    let mut i: usize = 0;
    while i < es.len()
        invariant
            i <= es.len(),
            entries_view(out@) == entries_view(es@.take(i as int)),
        decreases es.len() - i,
    {
        let value = es[i].1.duplicate();
        let ghost before = out@;
        out.push((es[i].0.clone(), value));
        assert(out@.drop_last() =~= before);
        assert(es@.take(i + 1).drop_last() =~= es@.take(i as int));
        i = i + 1;
    }
    assert(es@.take(i as int) =~= es@);
    out
}

proof fn lemma_found_skip(es: Seq<(Seq<char>, JsonView)>, j: int, k: Seq<char>)
    requires
        0 <= j < es.len(),
        es[j].0 != k,
    ensures
        found(es.skip(j), k) == found(es.skip(j + 1), k),
        removed(es.skip(j), k) == seq![es[j]] + removed(es.skip(j + 1), k),
{
    assert(es.skip(j).drop_first() =~= es.skip(j + 1));
}

/// Where the first entry under `k` is.
pub(crate) fn find_entry(es: &Vec<(String, Json)>, k: &str) -> (r: Option<usize>)
    ensures
        match r {
            Some(j) => j < es.len() && es@[j as int].0@ == k@ && found(entries_view(es@), k@) == Some(
                json_view(es@[j as int].1),
            ) && removed(entries_view(es@), k@) == entries_view(es@).remove(j as int),
            None => found(entries_view(es@), k@) is None && removed(entries_view(es@), k@)
                == entries_view(es@),
        },
{
    let ghost ev = entries_view(es@);
    proof {
        lemma_entries_view(es@);
    }
    let mut j: usize = 0;
    assert(ev.skip(0) =~= ev);
    assert(ev.take(0) + removed(ev.skip(0), k@) =~= removed(ev, k@));
    while j < es.len() && !same(es[j].0.as_str(), k)
        invariant
            j <= es.len(),
            ev == entries_view(es@),
            ev.len() == es.len(),
            forall|i: int| 0 <= i < es.len() ==> #[trigger] ev[i] == (es@[i].0@, json_view(es@[i].1)),
            found(ev, k@) == found(ev.skip(j as int), k@),
            removed(ev, k@) == ev.take(j as int) + removed(ev.skip(j as int), k@),
        decreases es.len() - j,
    {
        proof {
            lemma_found_skip(ev, j as int, k@);
            assert(ev.take(j + 1) =~= ev.take(j as int).push(ev[j as int]));
            assert(ev.take(j + 1) + removed(ev.skip(j + 1), k@) =~= ev.take(j as int) + (seq![ev[j as int]]
                + removed(ev.skip(j + 1), k@)));
        }
        j = j + 1;
    }
    if j < es.len() {
        proof {
            assert(ev.skip(j as int)[0] == ev[j as int]);
            assert(ev.skip(j as int).drop_first() =~= ev.skip(j + 1));
            assert(ev.take(j as int) + ev.skip(j + 1) =~= ev.remove(j as int));
        }
        Some(j)
    } else {
        proof {
            assert(ev.skip(j as int) =~= Seq::<(Seq<char>, JsonView)>::empty());
            assert(ev.take(j as int) =~= ev);
        }
        None
    }
}

/// Stores `v` under `k`, as `assigned` says.
fn assign(es: &mut Vec<(String, Json)>, k: &str, v: Json)
    ensures
        entries_view(final(es)@) == assigned(entries_view(old(es)@), k@, v@),
{
    let ghost ev = entries_view(es@);
    proof {
        lemma_entries_view(es@);
    }
    let mut j: usize = 0;
    assert(ev.skip(0) =~= ev);
    assert(ev.take(0) + assigned(ev.skip(0), k@, v@) =~= assigned(ev, k@, v@));
    while j < es.len() && !same(es[j].0.as_str(), k) && !str_precedes(k, es[j].0.as_str())
        invariant
            j <= es.len(),
            ev == entries_view(es@),
            es@ == old(es)@,
            ev.len() == es.len(),
            forall|i: int| 0 <= i < es.len() ==> #[trigger] ev[i] == (es@[i].0@, json_view(es@[i].1)),
            assigned(ev, k@, v@) == ev.take(j as int) + assigned(ev.skip(j as int), k@, v@),
        decreases es.len() - j,
    {
        proof {
            assert(ev.skip(j as int)[0] == ev[j as int]);
            assert(ev.skip(j as int).drop_first() =~= ev.skip(j + 1));
            assert(ev.take(j + 1) =~= ev.take(j as int).push(ev[j as int]));
            assert(ev.take(j + 1) + assigned(ev.skip(j + 1), k@, v@) =~= ev.take(j as int) + (seq![ev[j as int]]
                + assigned(ev.skip(j + 1), k@, v@)));
        }
        j = j + 1;
    }
    let ghost vv = v@;
    if j < es.len() && same(es[j].0.as_str(), k) {
        proof {
            assert(ev.skip(j as int)[0] == ev[j as int]);
            assert(ev.skip(j as int).drop_first() =~= ev.skip(j + 1));
        }
        let _ = es.remove(j);
        es.insert(j, (k.to_owned(), v));
        proof {
            lemma_entries_view(es@);
            assert(entries_view(es@) =~= ev.take(j as int) + (seq![(k@, vv)] + ev.skip(j + 1)));
        }
    } else {
        proof {
            if j < es.len() {
                assert(ev.skip(j as int)[0] == ev[j as int]);
            } else {
                assert(ev.skip(j as int) =~= Seq::<(Seq<char>, JsonView)>::empty());
            }
        }
        es.insert(j, (k.to_owned(), v));
        proof {
            lemma_entries_view(es@);
            assert(entries_view(es@) =~= ev.take(j as int) + (seq![(k@, vv)] + ev.skip(j as int)));
        }
    }
}

/// `t` shadowed by `patch`.
fn shadowed_value(t: Json, patch: &Json) -> (r: Json)
    ensures
        r@ == shadowing(t@, patch@),
    decreases patch,
{
    match patch {
        Json::Object(rw) => {
            let ghost base = fields(t@);
            let mut es: Vec<(String, Json)> = match t {
                Json::Object(es) => es,
                _ => Vec::new(),
            };
            let ghost rv = entries_view(rw@);
            proof {
                lemma_entries_view(rw@);
            }
            assert(rv.take(0) =~= Seq::<(Seq<char>, JsonView)>::empty());
            let mut i: usize = 0;
            while i < rw.len()
                invariant
                    i <= rw.len(),
                    *patch == Json::Object(*rw),
                    rv == entries_view(rw@),
                    rv.len() == rw.len(),
                    forall|x: int| 0 <= x < rw.len() ==> #[trigger] rv[x] == (rw@[x].0@, json_view(rw@[x].1)),
                    entries_view(es@) == patched(base, rv.take(i as int)),
                decreases rw.len() - i,
            {
                let ghost prior = entries_view(es@);
                let k = rw[i].0.as_str();
                let v = &rw[i].1;
                assert(rv.take(i + 1).drop_last() =~= rv.take(i as int));
                assert(rv.take(i + 1).last() == rv[i as int]);
                match v {
                    Json::Null => {
                        match find_entry(&es, k) {
                            Some(j) => {
                                let ghost before = es@;
                                let _ = es.remove(j);
                                proof {
                                    lemma_entries_view(es@);
                                    lemma_entries_view(before);
                                }
                                assert(entries_view(es@) =~= prior.remove(j as int));
                            },
                            None => {},
                        }
                    },
                    _ => {
                        let current = match find_entry(&es, k) {
                            Some(j) => es[j].1.duplicate(),
                            None => Json::Null,
                        };
                        assert(current@ == found_or_null(prior, k@));
                        proof {
                            assert((*patch)->Object_0 == *rw);
                            assert(decreases_to!(*patch => (*patch)->Object_0));
                            assert(decreases_to!(*rw => rw@));
                            assert(decreases_to!(rw@ => rw@[i as int]));
                            assert(decreases_to!(rw@[i as int] => rw@[i as int].1));
                            assert(decreases_to!(*patch => rw@[i as int].1));
                        }
                        let next = shadowed_value(current, v);
                        assign(&mut es, k, next);
                    },
                }
                i = i + 1;
            }
            assert(rv.take(i as int) =~= rv);
            Json::Object(es)
        },
        _ => patch.duplicate(),
    }
}

/// Shadows `target` by `patch` in place.
pub fn shadow(target: &mut Json, patch: &Json)
    ensures
        final(target)@ == shadowing(old(target)@, patch@),
{
    let mut t = Json::Null;
    std::mem::swap(&mut t, target);
    *target = shadowed_value(t, patch);
}

/// The `defaults` with the `overrides` laid over them: where a key has a
/// default, the override shadows it; a new key takes the override as it is.
pub fn shadowed(defaults: &Vec<(String, Json)>, overrides: &Vec<(String, Json)>) -> (r: Vec<(String, Json)>)
    ensures
        entries_view(r@) == overlaid(entries_view(defaults@), entries_view(overrides@)),
{
    let mut merged = copy_entries(defaults);
    let ghost dv = entries_view(defaults@);
    let ghost ov = entries_view(overrides@);
    proof {
        lemma_entries_view(overrides@);
    }
    assert(ov.take(0) =~= Seq::<(Seq<char>, JsonView)>::empty());
    let mut i: usize = 0;
    while i < overrides.len()
        invariant
            i <= overrides.len(),
            dv == entries_view(defaults@),
            ov == entries_view(overrides@),
            ov.len() == overrides.len(),
            forall|x: int| 0 <= x < overrides.len() ==> #[trigger] ov[x] == (overrides@[x].0@, json_view(overrides@[x].1)),
            entries_view(merged@) == overlaid(dv, ov.take(i as int)),
        decreases overrides.len() - i,
    {
        let k = overrides[i].0.as_str();
        let v = &overrides[i].1;
        assert(ov.take(i + 1).drop_last() =~= ov.take(i as int));
        assert(ov.take(i + 1).last() == ov[i as int]);
        match find_entry(&merged, k) {
            Some(j) => {
                let current = merged[j].1.duplicate();
                let next = shadowed_value(current, v);
                assign(&mut merged, k, next);
            },
            None => {
                let next = v.duplicate();
                assign(&mut merged, k, next);
            },
        }
        i = i + 1;
    }
    assert(ov.take(i as int) =~= ov);
    merged
}

/// The tags of a function followed by those of one of its cases.
pub fn merge(function: &[String], case: &[String]) -> (tags: Vec<String>)
    ensures
        views(tags@) == views(function@) + views(case@),
{
    let mut tags: Vec<String> = Vec::new();
    let mut i: usize = 0;
    while i < function.len()
        invariant
            i <= function.len(),
            views(tags@) == views(function@.take(i as int)),
        decreases function.len() - i,
    {
        let ghost before = tags@;
        tags.push(function[i].clone());
        assert(views(tags@) =~= views(before).push(function@[i as int]@));
        i = i + 1;
        assert(views(function@.take(i as int)) =~= views(function@.take(i - 1)).push(function@[i - 1]@));
    }
    assert(function@.take(i as int) =~= function@);
    let mut k: usize = 0;
    while k < case.len()
        invariant
            k <= case.len(),
            views(tags@) == views(function@) + views(case@.take(k as int)),
        decreases case.len() - k,
    {
        let ghost before = tags@;
        tags.push(case[k].clone());
        assert(views(tags@) =~= views(before).push(case@[k as int]@));
        k = k + 1;
        assert(views(case@.take(k as int)) =~= views(case@.take(k - 1)).push(case@[k - 1]@));
    }
    assert(case@.take(k as int) =~= case@);
    tags
}

/// The keys of object entries.
pub open spec fn keys_of(es: Seq<(Seq<char>, JsonView)>) -> Seq<Seq<char>> {
    es.map_values(|e: (Seq<char>, JsonView)| e.0)
}

/// Whether the keys of the entries strictly increase, as in a map that keeps
/// its keys in order.
pub open spec fn ordered(es: Seq<(Seq<char>, JsonView)>) -> bool {
    increasing(keys_of(es))
}

/// Whether no two entries share a key.
pub open spec fn distinct(es: Seq<(Seq<char>, JsonView)>) -> bool {
    forall|i: int, j: int| 0 <= i < j < es.len() ==> es[i].0 != es[j].0
}

proof fn lemma_ordered_tail(es: Seq<(Seq<char>, JsonView)>)
    requires
        ordered(es),
        es.len() > 0,
    ensures
        ordered(es.drop_first()),
        forall|i: int| 1 <= i < es.len() ==> precedes(es[0].0, #[trigger] es[i].0),
{
    assert(keys_of(es.drop_first()) =~= keys_of(es).drop_first());
    assert forall|i: int| 1 <= i < es.len() implies precedes(es[0].0, #[trigger] es[i].0) by {
        assert(keys_of(es)[0] == es[0].0);
        assert(keys_of(es)[i] == es[i].0);
    }
}

proof fn lemma_ordered_cons(e: (Seq<char>, JsonView), es: Seq<(Seq<char>, JsonView)>)
    requires
        ordered(es),
        forall|i: int| 0 <= i < es.len() ==> precedes(e.0, #[trigger] es[i].0),
    ensures
        ordered(seq![e] + es),
{
    let r = seq![e] + es;
    assert(keys_of(r) =~= seq![e.0] + keys_of(es));
    assert forall|a: int, b: int| 0 <= a < b < keys_of(r).len() implies precedes(keys_of(r)[a], keys_of(r)[b]) by {
        if a == 0 {
            assert(keys_of(r)[b] == es[b - 1].0);
        } else {
            assert(keys_of(r)[a] == keys_of(es)[a - 1]);
            assert(keys_of(r)[b] == keys_of(es)[b - 1]);
        }
    }
}

proof fn lemma_assigned(es: Seq<(Seq<char>, JsonView)>, k: Seq<char>, v: JsonView, k2: Seq<char>)
    requires
        ordered(es),
    ensures
        ordered(assigned(es, k, v)),
        forall|i: int| 0 <= i < assigned(es, k, v).len() ==> (#[trigger] assigned(es, k, v)[i]).0 == k
            || exists|m: int| 0 <= m < es.len() && es[m].0 == assigned(es, k, v)[i].0,
        found(assigned(es, k, v), k2) == if k2 == k { Some(v) } else { found(es, k2) },
    decreases es.len(),
{
    let r = assigned(es, k, v);
    assert(r.len() > 0);
    lemma_found_unfold(r, k2);
    if es.len() > 0 {
        lemma_found_unfold(es, k2);
    }
    if es.len() == 0 {
        assert(r.drop_first() =~= Seq::<(Seq<char>, JsonView)>::empty());
    } else if es[0].0 == k {
        lemma_ordered_tail(es);
        lemma_ordered_cons((k, v), es.drop_first());
        assert forall|i: int| 0 <= i < r.len() implies (#[trigger] r[i]).0 == k
            || exists|m: int| 0 <= m < es.len() && es[m].0 == r[i].0 by {
            if i > 0 {
                assert(r[i] == es[i]);
            }
        }
        assert(r.drop_first() =~= es.drop_first());
    } else if precedes(k, es[0].0) {
        lemma_ordered_tail(es);
        assert forall|i: int| 0 <= i < es.len() implies precedes(k, #[trigger] es[i].0) by {
            if i > 0 {
                lemma_precedes_transitive(k, es[0].0, es[i].0);
            }
        }
        lemma_ordered_cons((k, v), es);
        assert forall|i: int| 0 <= i < r.len() implies (#[trigger] r[i]).0 == k
            || exists|m: int| 0 <= m < es.len() && es[m].0 == r[i].0 by {
            if i > 0 {
                assert(r[i] == es[i - 1]);
            }
        }
        assert(r.drop_first() =~= es);
    } else {
        let tail = es.drop_first();
        lemma_ordered_tail(es);
        lemma_assigned(tail, k, v, k2);
        let rt = assigned(tail, k, v);
        lemma_precedes_total(k, es[0].0);
        assert forall|i: int| 0 <= i < rt.len() implies precedes(es[0].0, #[trigger] rt[i].0) by {
            if rt[i].0 != k {
                let m = choose|m: int| 0 <= m < tail.len() && tail[m].0 == rt[i].0;
                assert(tail[m] == es[m + 1]);
            }
        }
        lemma_ordered_cons(es[0], rt);
        assert(r =~= seq![es[0]] + rt);
        assert forall|i: int| 0 <= i < r.len() implies (#[trigger] r[i]).0 == k
            || exists|m: int| 0 <= m < es.len() && es[m].0 == r[i].0 by {
            if i == 0 {
                assert(es[0].0 == r[0].0);
            } else {
                assert(r[i] == rt[i - 1]);
                if rt[i - 1].0 != k {
                    let m = choose|m: int| 0 <= m < tail.len() && tail[m].0 == rt[i - 1].0;
                    assert(tail[m] == es[m + 1]);
                }
            }
        }
        assert(r.drop_first() =~= rt);
    }
}

proof fn lemma_removed(es: Seq<(Seq<char>, JsonView)>, k: Seq<char>, k2: Seq<char>)
    requires
        ordered(es),
    ensures
        ordered(removed(es, k)),
        forall|i: int| 0 <= i < removed(es, k).len() ==> exists|m: int|
            0 <= m < es.len() && es[m].0 == (#[trigger] removed(es, k)[i]).0,
        found(removed(es, k), k2) == if k2 == k { None } else { found(es, k2) },
    decreases es.len(),
{
    let r = removed(es, k);
    if es.len() == 0 {
    } else if es[0].0 == k {
        lemma_ordered_tail(es);
        assert forall|i: int| 0 <= i < r.len() implies exists|m: int|
            0 <= m < es.len() && es[m].0 == (#[trigger] r[i]).0 by {
            assert(r[i] == es[i + 1]);
        }
        if k2 == k {
            lemma_absent(es.drop_first(), k);
        }
    } else {
        let tail = es.drop_first();
        lemma_ordered_tail(es);
        lemma_removed(tail, k, k2);
        let rt = removed(tail, k);
        assert forall|i: int| 0 <= i < rt.len() implies precedes(es[0].0, #[trigger] rt[i].0) by {
            let m = choose|m: int| 0 <= m < tail.len() && tail[m].0 == rt[i].0;
            assert(tail[m] == es[m + 1]);
        }
        lemma_ordered_cons(es[0], rt);
        assert forall|i: int| 0 <= i < r.len() implies exists|m: int|
            0 <= m < es.len() && es[m].0 == (#[trigger] r[i]).0 by {
            if i == 0 {
                assert(es[0].0 == r[0].0);
            } else {
                assert(r[i] == rt[i - 1]);
                let m = choose|m: int| 0 <= m < tail.len() && tail[m].0 == rt[i - 1].0;
                assert(tail[m] == es[m + 1]);
            }
        }
        assert(r.drop_first() =~= rt);
    }
}

/// In ordered entries whose keys all come after `k`, nothing is under `k`.
proof fn lemma_absent(es: Seq<(Seq<char>, JsonView)>, k: Seq<char>)
    requires
        forall|i: int| 0 <= i < es.len() ==> precedes(k, #[trigger] es[i].0),
    ensures
        found(es, k) is None,
    decreases es.len(),
{
    if es.len() > 0 {
        lemma_precedes_irreflexive(k);
        assert forall|i: int| 0 <= i < es.drop_first().len() implies precedes(k, #[trigger] es.drop_first()[i].0) by {
            assert(es.drop_first()[i] == es[i + 1]);
        }
        lemma_absent(es.drop_first(), k);
    }
}

proof fn lemma_found_unfold(s: Seq<(Seq<char>, JsonView)>, k: Seq<char>)
    requires
        s.len() > 0,
    ensures
        found(s, k) == if s[0].0 == k { Some(s[0].1) } else { found(s.drop_first(), k) },
{
}

proof fn lemma_found_push(s: Seq<(Seq<char>, JsonView)>, e: (Seq<char>, JsonView), k: Seq<char>)
    ensures
        found(s.push(e), k) == match found(s, k) {
            Some(x) => Some(x),
            None => if e.0 == k { Some(e.1) } else { None },
        },
    decreases s.len(),
{
    if s.len() > 0 {
        assert(s.push(e).drop_first() =~= s.drop_first().push(e));
        assert(s.push(e)[0] == s[0]);
        lemma_found_push(s.drop_first(), e, k);
        lemma_found_unfold(s.push(e), k);
        lemma_found_unfold(s, k);
    } else {
        assert(s.push(e).drop_first() =~= Seq::<(Seq<char>, JsonView)>::empty());
        assert(s.push(e)[0] == e);
        lemma_found_unfold(s.push(e), k);
    }
}

proof fn lemma_found_none(s: Seq<(Seq<char>, JsonView)>, k: Seq<char>)
    requires
        forall|i: int| 0 <= i < s.len() ==> (#[trigger] s[i]).0 != k,
    ensures
        found(s, k) is None,
    decreases s.len(),
{
    if s.len() > 0 {
        assert forall|i: int| 0 <= i < s.drop_first().len() implies (#[trigger] s.drop_first()[i]).0 != k by {
            assert(s.drop_first()[i] == s[i + 1]);
        }
        lemma_found_none(s.drop_first(), k);
    }
}

/// What patching with distinct keys leaves under each key.
proof fn lemma_patched(base: Seq<(Seq<char>, JsonView)>, rw: Seq<(Seq<char>, JsonView)>, k: Seq<char>)
    requires
        ordered(base),
        distinct(rw),
    ensures
        ordered(patched(base, rw)),
        found(patched(base, rw), k) == match found(rw, k) {
            None => found(base, k),
            Some(v) => if v is Null { None } else { Some(shadowing(found_or_null(base, k), v)) },
        },
    decreases rw.len(),
{
    if rw.len() > 0 {
        let init = rw.drop_last();
        let k0 = rw.last().0;
        let v0 = rw.last().1;
        assert(distinct(init));
        lemma_patched(base, init, k);
        lemma_patched(base, init, k0);
        let prior = patched(base, init);
        assert(rw =~= init.push(rw.last()));
        lemma_found_push(init, rw.last(), k);
        assert forall|i: int| 0 <= i < init.len() implies (#[trigger] init[i]).0 != k0 by {
            assert(init[i] == rw[i]);
        }
        lemma_found_none(init, k0);
        if v0 is Null {
            lemma_removed(prior, k0, k);
        } else {
            lemma_assigned(prior, k0, shadowing(found_or_null(prior, k0), v0), k);
        }
    }
}

/// Shadowing by an object patch goes key by key. Where the patch sets a key
/// to `null`, the key is gone; where it sets a key to another value, the key
/// holds that value shadowing what was there (`null` where nothing was);
/// every other key keeps what it had. The entries stay in key order.
pub proof fn lemma_shadowing_by_key(t: JsonView, rw: Seq<(Seq<char>, JsonView)>, k: Seq<char>)
    requires
        ordered(fields(t)),
        distinct(rw),
    ensures
        ordered(fields(shadowing(t, JsonView::Object(rw)))),
        found(fields(shadowing(t, JsonView::Object(rw))), k) == match found(rw, k) {
            None => found(fields(t), k),
            Some(v) => if v is Null { None } else { Some(shadowing(found_or_null(fields(t), k), v)) },
        },
{
    lemma_patched(fields(t), rw, k);
}

/// A patch that is no object replaces what it patches.
pub proof fn lemma_shadowing_replaces(t: JsonView, p: JsonView)
    requires
        !(p is Object),
    ensures
        shadowing(t, p) == p,
{
}

/// Laying overrides with distinct keys over ordered defaults goes key by key:
/// a key without an override keeps its default, a key with one holds the
/// override shadowing its default, or the override itself where there is no
/// default. The entries stay in key order.
pub proof fn lemma_overlaid_by_key(defaults: Seq<(Seq<char>, JsonView)>, overrides: Seq<(Seq<char>, JsonView)>, k: Seq<char>)
    requires
        ordered(defaults),
        distinct(overrides),
    ensures
        ordered(overlaid(defaults, overrides)),
        found(overlaid(defaults, overrides), k) == match found(overrides, k) {
            None => found(defaults, k),
            Some(v) => match found(defaults, k) {
                Some(e) => Some(shadowing(e, v)),
                None => Some(v),
            },
        },
    decreases overrides.len(),
{
    if overrides.len() > 0 {
        let init = overrides.drop_last();
        let k0 = overrides.last().0;
        let v0 = overrides.last().1;
        assert(distinct(init));
        lemma_overlaid_by_key(defaults, init, k);
        lemma_overlaid_by_key(defaults, init, k0);
        let prior = overlaid(defaults, init);
        assert(overrides =~= init.push(overrides.last()));
        lemma_found_push(init, overrides.last(), k);
        assert forall|i: int| 0 <= i < init.len() implies (#[trigger] init[i]).0 != k0 by {
            assert(init[i] == overrides[i]);
        }
        lemma_found_none(init, k0);
        match found(prior, k0) {
            Some(e) => {
                lemma_assigned(prior, k0, shadowing(e, v0), k);
            },
            None => {
                lemma_assigned(prior, k0, v0, k);
            },
        }
    }
}

/// Whether every object reached through the values of objects keeps its
/// keys in strict order, as the maps of parsed JSON do.
pub open spec fn keyed(v: JsonView) -> bool
    decreases v,
{
    match v {
        JsonView::Object(es) => ordered(es) && forall|i: int| 0 <= i < es.len() ==> keyed(#[trigger] es[i].1),
        _ => true,
    }
}

proof fn lemma_ordered_distinct(es: Seq<(Seq<char>, JsonView)>)
    requires
        ordered(es),
    ensures
        distinct(es),
{
    assert forall|i: int, j: int| 0 <= i < j < es.len() implies es[i].0 != es[j].0 by {
        assert(keys_of(es)[i] == es[i].0);
        assert(keys_of(es)[j] == es[j].0);
        lemma_precedes_irreflexive(es[i].0);
    }
}

/// In ordered entries, each key finds its own entry.
proof fn lemma_found_entry(es: Seq<(Seq<char>, JsonView)>, i: int)
    requires
        ordered(es),
        0 <= i < es.len(),
    ensures
        found(es, es[i].0) == Some(es[i].1),
    decreases i,
{
    if i > 0 {
        lemma_ordered_tail(es);
        lemma_precedes_irreflexive(es[0].0);
        assert(es.drop_first()[i - 1] == es[i]);
        lemma_found_entry(es.drop_first(), i - 1);
    }
}

/// What a key finds is the value of one of the entries.
proof fn lemma_found_member(es: Seq<(Seq<char>, JsonView)>, k: Seq<char>)
    ensures
        found(es, k) matches Some(v) ==> exists|j: int| 0 <= j < es.len() && es[j].0 == k && #[trigger] es[j].1 == v,
    decreases es.len(),
{
    if es.len() > 0 && es[0].0 != k {
        lemma_found_member(es.drop_first(), k);
        if found(es, k) is Some {
            let j = choose|j: int| 0 <= j < es.drop_first().len() && es.drop_first()[j].0 == k && #[trigger] es.drop_first()[j].1 == found(es, k)->Some_0;
            assert(es[j + 1] == es.drop_first()[j]);
        }
    }
}

/// Ordered entries that find the same under every key are the same.
proof fn lemma_ordered_ext(a: Seq<(Seq<char>, JsonView)>, b: Seq<(Seq<char>, JsonView)>)
    requires
        ordered(a),
        ordered(b),
        forall|k: Seq<char>| found(a, k) == found(b, k),
    ensures
        a == b,
    decreases a.len() + b.len(),
{
    if a.len() == 0 {
        if b.len() > 0 {
            lemma_found_entry(b, 0);
            assert(found(a, b[0].0) is None);
        }
        assert(a =~= b);
    } else if b.len() == 0 {
        lemma_found_entry(a, 0);
        assert(found(b, a[0].0) is None);
    } else {
        lemma_found_entry(a, 0);
        lemma_found_entry(b, 0);
        lemma_found_member(b, a[0].0);
        lemma_found_member(a, b[0].0);
        lemma_ordered_tail(a);
        lemma_ordered_tail(b);
        let j = choose|j: int| 0 <= j < b.len() && b[j].0 == a[0].0 && #[trigger] b[j].1 == a[0].1;
        let i = choose|i: int| 0 <= i < a.len() && a[i].0 == b[0].0 && #[trigger] a[i].1 == b[0].1;
        if j > 0 && i > 0 {
            assert(precedes(b[0].0, b[j].0));
            assert(precedes(a[0].0, a[i].0));
            lemma_precedes_asymmetric(a[0].0, b[0].0);
        }
        assert(a[0] == b[0]);
        let ta = a.drop_first();
        let tb = b.drop_first();
        assert forall|k: Seq<char>| found(ta, k) == found(tb, k) by {
            if k == a[0].0 {
                lemma_absent(ta, k);
                assert forall|x: int| 0 <= x < tb.len() implies precedes(k, #[trigger] tb[x].0) by {
                    assert(tb[x] == b[x + 1]);
                }
                lemma_absent(tb, k);
            } else {
                lemma_found_unfold(a, k);
                lemma_found_unfold(b, k);
            }
        }
        lemma_ordered_ext(ta, tb);
        assert(a =~= seq![a[0]] + ta);
        assert(b =~= seq![b[0]] + tb);
    }
}

/// Shadowing keeps every object in key order.
pub proof fn lemma_shadowing_keyed(t: JsonView, p: JsonView)
    requires
        keyed(t),
        keyed(p),
    ensures
        keyed(shadowing(t, p)),
    decreases p,
{
    match p {
        JsonView::Object(rw) => {
            lemma_ordered_distinct(rw);
            let ft = fields(t);
            assert(ordered(ft));
            let r = patched(ft, rw);
            lemma_shadowing_by_key(t, rw, seq![]);
            assert forall|i: int| 0 <= i < r.len() implies keyed(#[trigger] r[i].1) by {
                let k = r[i].0;
                lemma_found_entry(r, i);
                lemma_shadowing_by_key(t, rw, k);
                lemma_found_member(rw, k);
                lemma_found_member(ft, k);
                match found(rw, k) {
                    None => {
                        let m = choose|m: int| 0 <= m < ft.len() && ft[m].0 == k && #[trigger] ft[m].1 == r[i].1;
                        assert(keyed(ft[m].1));
                    },
                    Some(v) => {
                        let j = choose|j: int| 0 <= j < rw.len() && rw[j].0 == k && #[trigger] rw[j].1 == v;
                        assert(keyed(rw[j].1));
                        let x = found_or_null(ft, k);
                        if found(ft, k) is Some {
                            let m = choose|m: int| 0 <= m < ft.len() && ft[m].0 == k && #[trigger] ft[m].1 == x;
                            assert(keyed(ft[m].1));
                        }
                        assert(keyed(x));
                        assert(decreases_to!(p => rw));
                        assert(decreases_to!(rw => rw[j]));
                        assert(decreases_to!(rw[j] => rw[j].1));
                        lemma_shadowing_keyed(x, rw[j].1);
                    },
                }
            }
        },
        _ => {},
    }
}

/// Applying the same override twice gives what applying it once gave.
pub proof fn lemma_shadowing_idempotent(t: JsonView, p: JsonView)
    requires
        keyed(t),
        keyed(p),
    ensures
        shadowing(shadowing(t, p), p) == shadowing(t, p),
    decreases p,
{
    match p {
        JsonView::Object(rw) => {
            lemma_ordered_distinct(rw);
            let ft = fields(t);
            let s = shadowing(t, p);
            lemma_shadowing_keyed(t, p);
            let r1 = fields(s);
            let r2 = patched(r1, rw);
            lemma_shadowing_by_key(s, rw, seq![]);
            assert forall|k: Seq<char>| found(r2, k) == found(r1, k) by {
                lemma_shadowing_by_key(t, rw, k);
                lemma_shadowing_by_key(s, rw, k);
                lemma_found_member(rw, k);
                lemma_found_member(ft, k);
                match found(rw, k) {
                    None => {},
                    Some(v) => {
                        if !(v is Null) {
                            let j = choose|j: int| 0 <= j < rw.len() && rw[j].0 == k && #[trigger] rw[j].1 == v;
                            assert(keyed(rw[j].1));
                            let x = found_or_null(ft, k);
                            if found(ft, k) is Some {
                                let m = choose|m: int| 0 <= m < ft.len() && ft[m].0 == k && #[trigger] ft[m].1 == x;
                                assert(keyed(ft[m].1));
                            }
                            assert(keyed(x));
                            assert(found_or_null(r1, k) == shadowing(x, v));
                            assert(decreases_to!(p => rw));
                            assert(decreases_to!(rw => rw[j]));
                            assert(decreases_to!(rw[j] => rw[j].1));
                            lemma_shadowing_idempotent(x, rw[j].1);
                        }
                    },
                }
            }
            lemma_ordered_ext(r2, r1);
        },
        _ => {},
    }
}

} // verus!
