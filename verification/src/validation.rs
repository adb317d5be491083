//! Checking a test case against the signature of the function it targets:
//! every parameter given, no parameter the function does not take, no return
//! value other than the result or a parameter, and at least one return check.

use vstd::prelude::*;
use crate::imports::{views, find_from};
use crate::starlark::same;
use crate::text::chars_of;
use crate::syntax::{FnArg, Pat, Signature};

verus! {

/// The key under which a case gives the expected result of a call.
pub open spec fn result_key() -> Seq<char> {
    seq!['(', ')']
}

/// The number of bytes that UTF-8 takes for `c`.
pub open spec fn utf8_width(c: char) -> nat {
    if (c as u32) < 0x80 {
        1
    } else if (c as u32) < 0x800 {
        2
    } else if (c as u32) < 0x10000 {
        3
    } else {
        4
    }
}

/// The number of bytes that UTF-8 takes for `s`.
pub open spec fn byte_len(s: Seq<char>) -> nat
    decreases s.len(),
{
    if s.len() == 0 {
        0
    } else {
        byte_len(s.drop_last()) + utf8_width(s.last())
    }
}

/// A name in double quotes, as it stands as a key in a case file.
pub open spec fn quoted(name: Seq<char>) -> Seq<char> {
    seq!['"'] + name + seq!['"']
}

/// Where `pattern` first stands in `content`, as a byte offset and a byte
/// length; `None` where it does not.
pub open spec fn located(content: Seq<char>, pattern: Seq<char>) -> Option<(nat, nat)> {
    match find_from(content, pattern, 0) {
        Some(i) => Some((byte_len(content.take(i)), byte_len(pattern))),
        None => None,
    }
}

/// A byte offset and length as numbers.
pub open spec fn span_of(position: Option<(usize, usize)>) -> Option<(nat, nat)> {
    match position {
        Some((offset, width)) => Some((offset as nat, width as nat)),
        None => None,
    }
}

/// The index of the first of `xs` that is not among `ys`; the length of `xs`
/// where there is none.
pub open spec fn first_outside(xs: Seq<Seq<char>>, ys: Seq<Seq<char>>) -> int
    decreases xs.len(),
{
    if xs.len() == 0 {
        0
    } else if !ys.contains(xs[0]) {
        0
    } else {
        1 + first_outside(xs.drop_first(), ys)
    }
}

/// Why a case does not fit the signature of its function.
#[derive(Debug, Clone, PartialEq)]
pub enum Violation {
    /// A parameter of the function that the case does not give.
    Missing { field: String },
    /// A parameter that the case gives and the function does not take, with
    /// where its quoted name first stands in the case file.
    Extraneous { name: String, position: Option<(usize, usize)> },
    /// A return value that is neither the result nor a parameter, with where
    /// its quoted name first stands in the case file.
    Unexpected { name: String, position: Option<(usize, usize)> },
    /// No return value to check.
    Unchecked,
}

proof fn lemma_first_outside(xs: Seq<Seq<char>>, ys: Seq<Seq<char>>)
    ensures
        0 <= first_outside(xs, ys) <= xs.len(),
        forall|i: int| 0 <= i < first_outside(xs, ys) ==> ys.contains(#[trigger] xs[i]),
        first_outside(xs, ys) < xs.len() ==> !ys.contains(xs[first_outside(xs, ys)]),
    decreases xs.len(),
{
    if xs.len() > 0 && ys.contains(xs[0]) {
        lemma_first_outside(xs.drop_first(), ys);
        assert forall|i: int| 0 <= i < first_outside(xs, ys) implies ys.contains(#[trigger] xs[i]) by {
            if i > 0 {
                assert(xs[i] == xs.drop_first()[i - 1]);
            }
        }
    }
}

proof fn lemma_first_outside_is(xs: Seq<Seq<char>>, ys: Seq<Seq<char>>, k: int)
    requires
        0 <= k <= xs.len(),
        forall|i: int| 0 <= i < k ==> ys.contains(#[trigger] xs[i]),
        k < xs.len() ==> !ys.contains(xs[k]),
    ensures
        first_outside(xs, ys) == k,
    decreases xs.len(),
{
    if xs.len() > 0 && k > 0 {
        assert(ys.contains(xs[0]));
        assert forall|i: int| 0 <= i < k - 1 implies ys.contains(#[trigger] xs.drop_first()[i]) by {
            assert(xs.drop_first()[i] == xs[i + 1]);
        }
        if k - 1 < xs.len() - 1 {
            assert(xs.drop_first()[k - 1] == xs[k]);
        }
        lemma_first_outside_is(xs.drop_first(), ys, k - 1);
    }
}

/// Whether `s` is among the strings of `v`.
fn contains_str(v: &Vec<String>, s: &str) -> (r: bool)
    ensures
        r == views(v@).contains(s@),
{
    let mut i: usize = 0;
    while i < v.len()
        invariant
            i <= v.len(),
            forall|j: int| 0 <= j < i ==> views(v@)[j] != s@,
        decreases v.len() - i,
    {
        if same(v[i].as_str(), s) {
            assert(views(v@)[i as int] == s@);
            return true;
        }
        i = i + 1;
    }
    false
}

/// The index of the first string of `xs` not among `ys`, or the length of
/// `xs`.
fn first_outside_of(xs: &Vec<String>, ys: &Vec<String>) -> (r: usize)
    ensures
        r as int == first_outside(views(xs@), views(ys@)),
{
    let mut i: usize = 0;
    while i < xs.len() && contains_str(ys, xs[i].as_str())
        invariant
            i <= xs.len(),
            forall|j: int| 0 <= j < i ==> views(ys@).contains(#[trigger] views(xs@)[j]),
        decreases xs.len() - i,
    {
        i = i + 1;
    }
    proof {
        lemma_first_outside_is(views(xs@), views(ys@), i as int);
    }
    i
}

/// The number of bytes UTF-8 takes for `c`.
fn width_of(c: char) -> (r: usize)
    ensures
        r == utf8_width(c),
{
    let u = c as u32;
    if u < 0x80 {
        1
    } else if u < 0x800 {
        2
    } else if u < 0x10000 {
        3
    } else {
        4
    }
}

/// The number of bytes UTF-8 takes for the first `n` characters of `s`.
fn bytes_before(s: &Vec<char>, n: usize) -> (r: usize)
    requires
        n <= s.len(),
        s.len() < usize::MAX / 4,
    ensures
        r == byte_len(s@.take(n as int)),
{
    let mut total: usize = 0;
    let mut i: usize = 0;
    assert(s@.take(0) =~= Seq::<char>::empty());
    while i < n
        invariant
            i <= n,
            n <= s.len(),
            s.len() < usize::MAX / 4,
            total == byte_len(s@.take(i as int)),
            total <= 4 * i,
        decreases n - i,
    {
        let w = width_of(s[i]);
        total = total + w;
        i = i + 1;
        assert(s@.take(i as int).drop_last() =~= s@.take(i - 1));
    }
    total
}

/// Where the quoted `name` first stands in `content`.
fn locate(content: &str, name: &str) -> (r: Option<(usize, usize)>)
    requires
        content@.len() < usize::MAX / 4,
    ensures
        span_of(r) == located(content@, quoted(name@)),
{
    let text = chars_of(content);
    let mut pattern: Vec<char> = Vec::new();
    pattern.push('"');
    crate::text::extend_str(&mut pattern, name);
    pattern.push('"');
    assert(pattern@ =~= quoted(name@));
    match find_chars(&text, &pattern) {
        Some(i) => {
            proof {
                crate::imports::lemma_find_from(text@, pattern@, 0);
            }
            assert(pattern.len() <= text.len());
            let offset = bytes_before(&text, i);
            let width = bytes_before(&pattern, pattern.len());
            assert(pattern@.take(pattern@.len() as int) =~= pattern@);
            Some((offset, width))
        },
        None => None,
    }
}

/// A violation by value: the names it reports and where they stand.
pub enum Fault {
    Missing(Seq<char>),
    Extraneous(Seq<char>, Option<(nat, nat)>),
    Unexpected(Seq<char>, Option<(nat, nat)>),
    Unchecked,
}

/// The value of a violation.
pub open spec fn fault_of(v: Violation) -> Fault {
    match v {
        Violation::Missing { field } => Fault::Missing(field@),
        Violation::Extraneous { name, position } => Fault::Extraneous(name@, span_of(position)),
        Violation::Unexpected { name, position } => Fault::Unexpected(name@, span_of(position)),
        Violation::Unchecked => Fault::Unchecked,
    }
}

/// What checking a case finds: the function's parameters `e`, the given
/// parameters `p` and the return values `rv` of a case in the file `content`.
pub open spec fn fault(e: Seq<Seq<char>>, p: Seq<Seq<char>>, rv: Seq<Seq<char>>, content: Seq<char>) -> Option<Fault> {
    let keys = seq![result_key()] + e;
    let m = first_outside(e, p);
    let x = first_outside(p, e);
    let u = first_outside(rv, keys);
    if m < e.len() {
        Some(Fault::Missing(e[m]))
    } else if x < p.len() {
        Some(Fault::Extraneous(p[x], located(content, quoted(p[x]))))
    } else if u < rv.len() {
        Some(Fault::Unexpected(rv[u], located(content, quoted(rv[u]))))
    } else if rv.len() == 0 {
        Some(Fault::Unchecked)
    } else {
        None
    }
}

/// Checks the names a case gives against the parameters of its function:
/// the first parameter the case leaves out; else the first given parameter
/// the function does not take; else the first return value that is neither
/// the result `()` nor a parameter; else a case with no return value at all.
pub fn validate(expected: &Vec<String>, parameters: &Vec<String>, outcomes: &Vec<String>, content: &str) -> (r: Result<(), Violation>)
    requires
        content@.len() < usize::MAX / 4,
    ensures
        ({
            let e = views(expected@);
            let p = views(parameters@);
            let keys = seq![result_key()] + e;
            let rv = views(outcomes@);
            let m = first_outside(e, p);
            let x = first_outside(p, e);
            let u = first_outside(rv, keys);
            if m < e.len() {
                r matches Err(Violation::Missing { field }) && field@ == e[m]
            } else if x < p.len() {
                r matches Err(Violation::Extraneous { name, position }) && name@ == p[x]
                    && span_of(position) == located(content@, quoted(p[x]))
            } else if u < rv.len() {
                r matches Err(Violation::Unexpected { name, position }) && name@ == rv[u]
                    && span_of(position) == located(content@, quoted(rv[u]))
            } else if rv.len() == 0 {
                r matches Err(Violation::Unchecked)
            } else {
                r is Ok
            }
        }),
        match r {
            Ok(()) => fault(views(expected@), views(parameters@), views(outcomes@), content@) is None,
            Err(v) => fault(views(expected@), views(parameters@), views(outcomes@), content@) == Some(fault_of(v)),
        },
{
    proof {
        lemma_first_outside(views(expected@), views(parameters@));
        lemma_first_outside(views(parameters@), views(expected@));
    }
    let m = first_outside_of(expected, parameters);
    if m < expected.len() {
        return Err(Violation::Missing { field: expected[m].clone() });
    }
    let x = first_outside_of(parameters, expected);
    if x < parameters.len() {
        let position = locate(content, parameters[x].as_str());
        return Err(Violation::Extraneous { name: parameters[x].clone(), position });
    }
    let mut keys: Vec<String> = Vec::new();
    keys.push(String::from_str("()"));
    let mut j: usize = 0;
    proof {
        reveal_strlit("()");
    }
    assert(keys@[0]@ =~= result_key());
    assert(views(keys@) =~= seq![result_key()] + views(expected@).take(0));
    while j < expected.len()
        invariant
            j <= expected.len(),
            views(keys@) == seq![result_key()] + views(expected@).take(j as int),
        decreases expected.len() - j,
    {
        let ghost before = keys@;
        keys.push(expected[j].clone());
        assert(views(keys@) =~= views(before).push(expected@[j as int]@));
        j = j + 1;
        assert(views(expected@).take(j as int) =~= views(expected@).take(j - 1).push(expected@[j - 1]@));
    }
    assert(views(expected@).take(j as int) =~= views(expected@));
    let u = first_outside_of(outcomes, &keys);
    if u < outcomes.len() {
        let position = locate(content, outcomes[u].as_str());
        return Err(Violation::Unexpected { name: outcomes[u].clone(), position });
    }
    if outcomes.len() == 0 {
        return Err(Violation::Unchecked);
    }
    Ok(())
}

/// Where `needle` first stands in `hay`, by character index.
pub fn find_chars(hay: &Vec<char>, needle: &Vec<char>) -> (r: Option<usize>)
    ensures
        match r {
            Some(i) => find_from(hay@, needle@, 0) == Some(i as int),
            None => find_from(hay@, needle@, 0) is None,
        },
{
    let ghost s = hay@;
    let ghost p = needle@;
    if needle.len() > hay.len() {
        return None;
    }
    let mut i: usize = 0;
    let last = hay.len() - needle.len();
    while i <= last
        invariant
            s == hay@,
            p == needle@,
            p.len() <= s.len(),
            last == s.len() - p.len(),
            find_from(s, p, 0) == find_from(s, p, i as int),
            i <= last + 1,
        decreases hay.len() - i,
    {
        let mut k: usize = 0;
        while k < needle.len() && hay[i + k] == needle[k]
            invariant
                k <= needle.len(),
                i + needle.len() <= hay.len(),
                s == hay@,
                p == needle@,
                forall|m: int| 0 <= m < k ==> s[i + m] == p[m],
            decreases needle.len() - k,
        {
            k = k + 1;
        }
        if k == needle.len() {
            assert(s.subrange(i as int, i + p.len()) =~= p);
            return Some(i);
        }
        assert(s.subrange(i as int, i + p.len()) != p) by {
            assert(s.subrange(i as int, i + p.len())[k as int] == s[i + k]);
        }
        i = i + 1;
    }
    None
}

/// The text a case file gives for the function of a group of cases.
pub open spec fn function_entry(name: Seq<char>) -> Seq<char> {
    "\"function\": \""@ + name + "\""@
}

/// Where a case file names the function `name`: within its first
/// `"function": "name"` entry where there is one, else at the first
/// occurrence of the name; a byte offset and a byte length.
pub open spec fn target_located(content: Seq<char>, name: Seq<char>) -> Option<(nat, nat)> {
    let entry = function_entry(name);
    match find_from(content, entry, 0) {
        Some(p) => {
            let q = match find_from(entry, name, 0) {
                Some(q) => q,
                None => 0,
            };
            Some((byte_len(content.take(p)) + byte_len(entry.take(q)), byte_len(name)))
        },
        None => match find_from(content, name, 0) {
            Some(p) => Some((byte_len(content.take(p)), byte_len(name))),
            None => None,
        },
    }
}

/// Where a case file names the function `name`, to point at it when the
/// template has no such function.
pub fn target_span(content: &str, name: &str) -> (r: Option<(usize, usize)>)
    requires
        content@.len() < usize::MAX / 8,
        name@.len() + 16 < usize::MAX / 8,
    ensures
        span_of(r) == target_located(content@, name@),
{
    let text = chars_of(content);
    let needle = chars_of(name);
    let mut entry: Vec<char> = Vec::new();
    crate::text::extend_str(&mut entry, "\"function\": \"");
    crate::text::extend_str(&mut entry, name);
    crate::text::extend_str(&mut entry, "\"");
    assert(entry@ =~= function_entry(name@));
    proof {
        reveal_strlit("\"function\": \"");
        reveal_strlit("\"");
    }
    assert(entry@.len() == name@.len() + 14);
    match find_chars(&text, &entry) {
        Some(p) => {
            proof {
                crate::imports::lemma_find_from(text@, entry@, 0);
            }
            let q = match find_chars(&entry, &needle) {
                Some(q) => {
                    proof {
                        crate::imports::lemma_find_from(entry@, needle@, 0);
                    }
                    q
                },
                None => 0,
            };
            let before = bytes_before(&text, p);
            let within = bytes_before(&entry, q);
            let width = bytes_before(&needle, needle.len());
            assert(needle@.take(needle@.len() as int) =~= needle@);
            proof {
                lemma_byte_len_bound(text@.take(p as int));
                lemma_byte_len_bound(entry@.take(q as int));
            }
            Some((before + within, width))
        },
        None => {
            match find_chars(&text, &needle) {
                Some(p) => {
                    proof {
                        crate::imports::lemma_find_from(text@, needle@, 0);
                    }
                    let before = bytes_before(&text, p);
                    let width = bytes_before(&needle, needle.len());
                    assert(needle@.take(needle@.len() as int) =~= needle@);
                    Some((before, width))
                },
                None => None,
            }
        },
    }
}

proof fn lemma_byte_len_bound(s: Seq<char>)
    ensures
        byte_len(s) <= 4 * s.len(),
    decreases s.len(),
{
    if s.len() > 0 {
        lemma_byte_len_bound(s.drop_last());
    }
}

/// The names of the parameters of a signature that bind a plain identifier,
/// in order.
pub open spec fn parameter_names_of(inputs: Seq<FnArg>) -> Seq<Seq<char>>
    decreases inputs.len(),
{
    if inputs.len() == 0 {
        seq![]
    } else {
        let prior = parameter_names_of(inputs.drop_last());
        match inputs.last() {
            FnArg::Typed { pat: Pat::Ident { ident, .. }, .. } => prior.push(ident@),
            _ => prior,
        }
    }
}

/// The parameters a case must give for a function with signature `sig`.
pub fn parameter_names(sig: &Signature) -> (r: Vec<String>)
    ensures
        views(r@) == parameter_names_of(sig.inputs@),
{
    let mut r: Vec<String> = Vec::new();
    let mut i: usize = 0;
    assert(sig.inputs@.take(0) =~= Seq::<FnArg>::empty());
    while i < sig.inputs.len()
        invariant
            i <= sig.inputs.len(),
            views(r@) == parameter_names_of(sig.inputs@.take(i as int)),
        decreases sig.inputs.len() - i,
    {
        assert(sig.inputs@.take(i + 1).drop_last() =~= sig.inputs@.take(i as int));
        assert(sig.inputs@.take(i + 1).last() == sig.inputs@[i as int]);
        match &sig.inputs[i] {
            FnArg::Typed { pat: Pat::Ident { ident, .. }, .. } => {
                let ghost before = r@;
                r.push(ident.clone());
                assert(views(r@) =~= views(before).push(ident@));
            },
            _ => {},
        }
        i = i + 1;
    }
    assert(sig.inputs@.take(i as int) =~= sig.inputs@);
    r
}

/// Every item of `xs` occurs in `ys` exactly when none is found outside.
pub proof fn lemma_none_outside(xs: Seq<Seq<char>>, ys: Seq<Seq<char>>)
    ensures
        first_outside(xs, ys) == xs.len() <==> forall|i: int| 0 <= i < xs.len() ==> ys.contains(#[trigger] xs[i]),
{
    lemma_first_outside(xs, ys);
}

/// A case passes the checks exactly when it names the function's parameters
/// and no others, each of its return values is the result `()` or a
/// parameter, and it checks at least one return value.
pub proof fn lemma_schema_match(expected: Seq<Seq<char>>, given: Seq<Seq<char>>, outcomes: Seq<Seq<char>>)
    ensures
        (first_outside(expected, given) == expected.len() && first_outside(given, expected) == given.len()
            && first_outside(outcomes, seq![result_key()] + expected) == outcomes.len() && outcomes.len() > 0)
            <==> (expected.to_set() == given.to_set() && outcomes.len() > 0 && forall|i: int|
            0 <= i < outcomes.len() ==> (#[trigger] outcomes[i] == result_key() || expected.contains(outcomes[i]))),
{
    let keys = seq![result_key()] + expected;
    lemma_none_outside(expected, given);
    lemma_none_outside(given, expected);
    lemma_none_outside(outcomes, keys);
    assert forall|x: Seq<char>| #[trigger] keys.contains(x) <==> (x == result_key() || expected.contains(x)) by {
        if keys.contains(x) {
            let j = choose|j: int| 0 <= j < keys.len() && keys[j] == x;
            if j > 0 {
                assert(expected[j - 1] == x);
            }
        }
        if expected.contains(x) {
            let j = choose|j: int| 0 <= j < expected.len() && expected[j] == x;
            assert(keys[j + 1] == x);
        }
        if x == result_key() {
            assert(keys[0] == x);
        }
    }
    let both = (forall|i: int| 0 <= i < expected.len() ==> given.contains(#[trigger] expected[i])) && (forall|i: int|
        0 <= i < given.len() ==> expected.contains(#[trigger] given[i]));
    if both {
        assert forall|x: Seq<char>| expected.to_set().contains(x) <==> given.to_set().contains(x) by {
            if expected.contains(x) {
                let j = choose|j: int| 0 <= j < expected.len() && expected[j] == x;
                assert(given.contains(expected[j]));
            }
            if given.contains(x) {
                let j = choose|j: int| 0 <= j < given.len() && given[j] == x;
                assert(expected.contains(given[j]));
            }
        }
        assert(expected.to_set() =~= given.to_set());
    }
    if expected.to_set() == given.to_set() {
        assert forall|i: int| 0 <= i < expected.len() implies given.contains(#[trigger] expected[i]) by {
            assert(expected.to_set().contains(expected[i]));
            assert(given.to_set().contains(expected[i]));
        }
        assert forall|i: int| 0 <= i < given.len() implies expected.contains(#[trigger] given[i]) by {
            assert(given.to_set().contains(given[i]));
            assert(expected.to_set().contains(given[i]));
        }
    }
}

} // verus!
