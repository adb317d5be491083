//! Names of generated tests: the function, then its tags, joined by `_`, and
//! a counter per such base so that no name is given twice.

use vstd::prelude::*;
use crate::imports::{views, split, split_path};
use crate::starlark::same;
use crate::text::{chars_of, extend_str, string_of};

verus! {

/// The digit character of `d`.
pub open spec fn digit(d: nat) -> char {
    if d == 0 {
        '0'
    } else if d == 1 {
        '1'
    } else if d == 2 {
        '2'
    } else if d == 3 {
        '3'
    } else if d == 4 {
        '4'
    } else if d == 5 {
        '5'
    } else if d == 6 {
        '6'
    } else if d == 7 {
        '7'
    } else if d == 8 {
        '8'
    } else {
        '9'
    }
}

/// The value of a digit character.
pub open spec fn digit_value(c: char) -> nat {
    if c == '1' {
        1
    } else if c == '2' {
        2
    } else if c == '3' {
        3
    } else if c == '4' {
        4
    } else if c == '5' {
        5
    } else if c == '6' {
        6
    } else if c == '7' {
        7
    } else if c == '8' {
        8
    } else if c == '9' {
        9
    } else {
        0
    }
}

/// Whether `c` is a decimal digit.
pub open spec fn is_digit(c: char) -> bool {
    '0' <= c && c <= '9'
}

/// The decimal text of `n`, as `Display` writes an unsigned integer.
pub open spec fn decimal(n: nat) -> Seq<char>
    decreases n,
{
    if n < 10 {
        seq![digit(n)]
    } else {
        decimal(n / 10).push(digit(n % 10))
    }
}

/// The number that the digits `s` write.
pub open spec fn value(s: Seq<char>) -> nat
    decreases s.len(),
{
    if s.len() == 0 {
        0
    } else {
        value(s.drop_last()) * 10 + digit_value(s.last())
    }
}

pub proof fn lemma_decimal(n: nat)
    ensures
        decimal(n).len() > 0,
        forall|i: int| 0 <= i < decimal(n).len() ==> is_digit(#[trigger] decimal(n)[i]),
        value(decimal(n)) == n,
    decreases n,
{
    if n < 10 {
        assert(seq![digit(n)].drop_last() =~= Seq::<char>::empty());
        assert(value(Seq::<char>::empty()) == 0);
        assert(digit_value(digit(n)) == n);
        assert(value(seq![digit(n)]) == value(seq![digit(n)].drop_last()) * 10 + digit_value(digit(n)));
    } else {
        lemma_decimal(n / 10);
        let d = decimal(n);
        assert(d.drop_last() =~= decimal(n / 10));
        assert(d.last() == digit(n % 10));
        assert(digit_value(digit(n % 10)) == n % 10);
        assert(n == (n / 10) * 10 + n % 10);
        assert(value(d) == value(d.drop_last()) * 10 + digit_value(d.last()));
        assert forall|i: int| 0 <= i < d.len() implies is_digit(#[trigger] d[i]) by {
            if i < d.len() - 1 {
                assert(d[i] == decimal(n / 10)[i]);
            }
        }
    }
}

/// The parts joined by `_`.
pub open spec fn underscored(parts: Seq<Seq<char>>) -> Seq<char>
    decreases parts.len(),
{
    if parts.len() == 0 {
        seq![]
    } else if parts.len() == 1 {
        parts[0]
    } else {
        underscored(parts.drop_last()) + seq!['_'] + parts.last()
    }
}

/// The base of a test's name: the function, then each tag, joined by `_`.
pub open spec fn base_name(test: Seq<char>, tags: Seq<Seq<char>>) -> Seq<char> {
    underscored(seq![test] + tags)
}

/// The name given to the test numbered `n` under `base`.
pub open spec fn name_of(base: Seq<char>, n: nat) -> Seq<char> {
    base + seq!['_'] + decimal(n)
}

/// A name tells its base and its number.
pub proof fn lemma_name_unique(b1: Seq<char>, n1: nat, b2: Seq<char>, n2: nat)
    requires
        name_of(b1, n1) == name_of(b2, n2),
    ensures
        b1 == b2,
        n1 == n2,
{
    let s = name_of(b1, n1);
    lemma_decimal(n1);
    lemma_decimal(n2);
    let h1 = b1 + seq!['_'];
    let h2 = b2 + seq!['_'];
    assert(s == h1 + decimal(n1));
    assert(s == h2 + decimal(n2));
    assert(h1[b1.len() as int] == '_');
    assert(h2[b2.len() as int] == '_');
    if b1.len() < b2.len() {
        assert(s[b2.len() as int] == h2[b2.len() as int]);
        assert(s[b2.len() as int] == decimal(n1)[b2.len() - h1.len()]);
        assert(is_digit(decimal(n1)[b2.len() - h1.len()]));
    } else if b2.len() < b1.len() {
        assert(s[b1.len() as int] == h1[b1.len() as int]);
        assert(s[b1.len() as int] == decimal(n2)[b1.len() - h2.len()]);
        assert(is_digit(decimal(n2)[b1.len() - h2.len()]));
    } else {
        assert(b1 =~= s.take(b1.len() as int));
        assert(b2 =~= s.take(b2.len() as int));
        assert(decimal(n1) =~= s.skip(b1.len() as int + 1));
        assert(decimal(n2) =~= s.skip(b2.len() as int + 1));
    }
}

/// The value under the first entry with key `k`; 0 where there is none.
pub open spec fn counts(es: Seq<(String, usize)>, k: Seq<char>) -> nat
    decreases es.len(),
{
    if es.len() == 0 {
        0
    } else if es[0].0@ == k {
        es[0].1 as nat
    } else {
        counts(es.drop_first(), k)
    }
}

/// How many tests have been named under each base.
pub struct Counters {
    entries: Vec<(String, usize)>,
}

impl Counters {
    /// How many tests have been named under `base`.
    pub closed spec fn count(self, base: Seq<char>) -> nat {
        counts(self.entries@, base)
    }

    /// Whether `name` has been given: it is the name of a test numbered
    /// below the count of its base.
    pub open spec fn issued(self, name: Seq<char>) -> bool {
        exists|b: Seq<char>, i: nat| i < self.count(b) && name == #[trigger] name_of(b, i)
    }

    /// No test named yet.
    pub fn new() -> (c: Counters)
        ensures
            forall|b: Seq<char>| c.count(b) == 0,
            forall|name: Seq<char>| !c.issued(name),
    {
        Counters { entries: Vec::new() }
    }
}

impl Default for Counters {
    /// No test named yet.
    fn default() -> (c: Counters)
        ensures
            forall|b: Seq<char>| c.count(b) == 0,
            forall|name: Seq<char>| !c.issued(name),
    {
        Counters::new()
    }
}

proof fn lemma_counts_unfold(es: Seq<(String, usize)>, k: Seq<char>)
    requires
        es.len() > 0,
    ensures
        counts(es, k) == if es[0].0@ == k { es[0].1 as nat } else { counts(es.drop_first(), k) },
{
}

proof fn lemma_counts_update(es: Seq<(String, usize)>, j: int, e: (String, usize), k: Seq<char>)
    requires
        0 <= j < es.len(),
    ensures
        es[j].0@ != k && e.0@ != k ==> counts(es.update(j, e), k) == counts(es, k),
        (forall|i: int| 0 <= i < j ==> (#[trigger] es[i]).0@ != k) && e.0@ == k ==> counts(es.update(j, e), k) == e.1,
    decreases j,
{
    lemma_counts_unfold(es, k);
    lemma_counts_unfold(es.update(j, e), k);
    if j > 0 {
        assert(es.update(j, e).drop_first() =~= es.drop_first().update(j - 1, e));
        assert forall|i: int| 0 <= i < j - 1 implies (#[trigger] es.drop_first()[i]).0@ == es[i + 1].0@ by {}
        lemma_counts_update(es.drop_first(), j - 1, e, k);
        if forall|i: int| 0 <= i < j ==> (#[trigger] es[i]).0@ != k {
            assert(es[0].0@ != k);
            assert forall|i: int| 0 <= i < j - 1 implies (#[trigger] es.drop_first()[i]).0@ != k by {
                assert(es.drop_first()[i] == es[i + 1]);
            }
        }
    } else {
        assert(es.update(0, e).drop_first() =~= es.drop_first());
    }
}

proof fn lemma_counts_push(es: Seq<(String, usize)>, e: (String, usize), k: Seq<char>)
    ensures
        e.0@ != k ==> counts(es.push(e), k) == counts(es, k),
        (forall|i: int| 0 <= i < es.len() ==> (#[trigger] es[i]).0@ != k) && e.0@ == k ==> counts(es.push(e), k) == e.1,
    decreases es.len(),
{
    lemma_counts_unfold(es.push(e), k);
    if es.len() > 0 {
        lemma_counts_unfold(es, k);
        assert(es.push(e)[0] == es[0]);
        assert(es.push(e).drop_first() =~= es.drop_first().push(e));
        lemma_counts_push(es.drop_first(), e, k);
        if forall|i: int| 0 <= i < es.len() ==> (#[trigger] es[i]).0@ != k {
            assert forall|i: int| 0 <= i < es.drop_first().len() implies (#[trigger] es.drop_first()[i]).0@ != k by {
                assert(es.drop_first()[i] == es[i + 1]);
            }
        }
    } else {
        assert(es.push(e).drop_first() =~= Seq::<(String, usize)>::empty());
        assert(es.push(e)[0] == e);
    }
}

/// Appends the decimal text of `n` to `out`.
fn push_decimal(out: &mut Vec<char>, n: usize)
    ensures
        final(out)@ == old(out)@ + decimal(n as nat),
    decreases n,
{
    if n >= 10 {
        push_decimal(out, n / 10);
    }
    let d = n % 10;
    let c = if d == 0 {
        '0'
    } else if d == 1 {
        '1'
    } else if d == 2 {
        '2'
    } else if d == 3 {
        '3'
    } else if d == 4 {
        '4'
    } else if d == 5 {
        '5'
    } else if d == 6 {
        '6'
    } else if d == 7 {
        '7'
    } else if d == 8 {
        '8'
    } else {
        '9'
    };
    out.push(c);
    proof {
        if n < 10 {
            assert(d == n);
        }
    }
}

/// The decimal text of `n`.
pub fn decimal_text(n: usize) -> (r: String)
    ensures
        r@ == decimal(n as nat),
{
    let mut out: Vec<char> = Vec::new();
    push_decimal(&mut out, n);
    assert(out@ =~= decimal(n as nat));
    string_of(&out)
}

/// Appends the base of a test's name to `out`.
fn push_base(out: &mut Vec<char>, test: &str, tags: &[String])
    ensures
        final(out)@ == old(out)@ + base_name(test@, views(tags@)),
{
    let ghost parts = seq![test@] + views(tags@);
    let ghost start = out@;
    extend_str(out, test);
    assert(parts.take(1) =~= seq![test@]);
    let mut k: usize = 0;
    while k < tags.len()
        invariant
            k <= tags.len(),
            parts == seq![test@] + views(tags@),
            out@ == start + underscored(parts.take(k + 1)),
        decreases tags.len() - k,
    {
        out.push('_');
        extend_str(out, tags[k].as_str());
        proof {
            let t = parts.take(k + 2);
            assert(t.drop_last() =~= parts.take(k + 1));
            assert(t.last() == tags@[k as int]@);
            assert(out@ =~= start + underscored(t));
        }
        k = k + 1;
    }
    assert(parts.take(k + 1) =~= parts);
}

/// Names the next test of `test` with `tags`: the base, `_`, and how many
/// tests were named under that base before; the count goes up by one. The
/// name is one not given before, and it is the only name added.
pub fn identify(test: &str, tags: &[String], counters: &mut Counters) -> (name: String)
    requires
        old(counters).count(base_name(test@, views(tags@))) < usize::MAX,
    ensures
        name@ == name_of(base_name(test@, views(tags@)), old(counters).count(base_name(test@, views(tags@)))),
        final(counters).count(base_name(test@, views(tags@))) == old(counters).count(base_name(test@, views(tags@))) + 1,
        forall|b: Seq<char>| b != base_name(test@, views(tags@)) ==> final(counters).count(b) == old(counters).count(b),
        !old(counters).issued(name@),
        forall|n: Seq<char>| #[trigger] final(counters).issued(n) <==> (old(counters).issued(n) || n == name@),
{
    let ghost base = base_name(test@, views(tags@));
    let ghost before = counters.entries@;
    let mut text: Vec<char> = Vec::new();
    push_base(&mut text, test, tags);
    assert(text@ =~= base);
    let key = string_of(&text);
    let mut j: usize = 0;
    assert(before.skip(0) =~= before);
    while j < counters.entries.len() && !same(counters.entries[j].0.as_str(), key.as_str())
        invariant
            j <= counters.entries.len(),
            counters.entries@ == before,
            key@ == base,
            forall|i: int| 0 <= i < j ==> (#[trigger] before[i]).0@ != base,
            counts(before, base) == counts(before.skip(j as int), base),
        decreases counters.entries.len() - j,
    {
        assert(before.skip(j as int).drop_first() =~= before.skip(j + 1));
        j = j + 1;
    }
    let current: usize;
    if j < counters.entries.len() {
        current = counters.entries[j].1;
        assert(before.skip(j as int)[0] == before[j as int]);
        let (k, _) = counters.entries.remove(j);
        counters.entries.insert(j, (k, current + 1));
        proof {
            assert(counters.entries@ =~= before.update(j as int, (k, (current + 1) as usize)));
            assert forall|b: Seq<char>| b != base implies counts(counters.entries@, b) == counts(before, b) by {
                lemma_counts_update(before, j as int, (k, (current + 1) as usize), b);
            }
            lemma_counts_update(before, j as int, (k, (current + 1) as usize), base);
        }
    } else {
        current = 0;
        assert(before.skip(j as int) =~= Seq::<(String, usize)>::empty());
        counters.entries.push((key, 1));
        proof {
            assert forall|b: Seq<char>| b != base implies counts(counters.entries@, b) == counts(before, b) by {
                lemma_counts_push(before, (key, 1usize), b);
            }
            lemma_counts_push(before, (key, 1usize), base);
        }
    }
    let mut out = text;
    out.push('_');
    push_decimal(&mut out, current);
    let name = string_of(&out);
    assert(name@ =~= name_of(base, current as nat));
    proof {
        let c0 = old(counters);
        let c1 = *counters;
        assert(c0.count(base) == current);
        assert(c1.count(base) == current + 1);
        assert forall|b: Seq<char>| b != base implies c1.count(b) == c0.count(b) by {}
        if c0.issued(name@) {
            let (b, i) = choose|b: Seq<char>, i: nat| i < c0.count(b) && name@ == #[trigger] name_of(b, i);
            lemma_name_unique(b, i, base, current as nat);
        }
        assert forall|n: Seq<char>| #[trigger] c1.issued(n) <==> (c0.issued(n) || n == name@) by {
            if c1.issued(n) {
                let (b, i) = choose|b: Seq<char>, i: nat| i < c1.count(b) && n == #[trigger] name_of(b, i);
                if b != base || i < current {
                    assert(c0.issued(n));
                }
            }
            if c0.issued(n) {
                let (b, i) = choose|b: Seq<char>, i: nat| i < c0.count(b) && n == #[trigger] name_of(b, i);
                assert(i < c1.count(b));
            }
            if n == name@ {
                assert(n == name_of(base, current as nat));
                assert((current as nat) < c1.count(base));
            }
        }
    }
    name
}

/// The parts joined by `sep`.
pub open spec fn joined_by(parts: Seq<Seq<char>>, sep: Seq<char>) -> Seq<char>
    decreases parts.len(),
{
    if parts.len() == 0 {
        seq![]
    } else if parts.len() == 1 {
        parts[0]
    } else {
        joined_by(parts.drop_last(), sep) + sep + parts.last()
    }
}

/// A `::`-separated path with each `::` turned into `.`, as `str::replace`
/// does: the name under which generated code registers a function.
pub fn dotted(qualified: &str) -> (r: String)
    ensures
        r@ == joined_by(split_path(qualified@), seq!['.']),
{
    let parts = split(qualified);
    let ghost pv = views(parts@);
    let mut out: Vec<char> = Vec::new();
    let mut i: usize = 0;
    assert(pv.take(0) =~= Seq::<Seq<char>>::empty());
    while i < parts.len()
        invariant
            i <= parts.len(),
            pv == views(parts@),
            out@ == joined_by(pv.take(i as int), seq!['.']),
        decreases parts.len() - i,
    {
        if i > 0 {
            out.push('.');
        }
        extend_str(&mut out, parts[i].as_str());
        proof {
            let t = pv.take(i + 1);
            assert(t.drop_last() =~= pv.take(i as int));
            assert(t.last() == parts@[i as int]@);
            if i == 0 {
                assert(t =~= seq![parts@[0]@]);
            }
        }
        assert(out@ =~= joined_by(pv.take(i + 1), seq!['.']));
        i = i + 1;
    }
    assert(pv.take(i as int) =~= pv);
    string_of(&out)
}

/// The name of a function inside the modules `module`: the module path and
/// the name joined by `::`, or the bare name at the top.
pub open spec fn qualified_name(module: Seq<Seq<char>>, name: Seq<char>) -> Seq<char> {
    if module.len() == 0 {
        name
    } else {
        joined_by(module, seq![':', ':']) + seq![':', ':'] + name
    }
}

/// The name of a function inside the modules `module`.
pub fn qualified(module: &Vec<String>, name: &str) -> (r: String)
    ensures
        r@ == qualified_name(views(module@), name@),
{
    let ghost mv = views(module@);
    let mut out: Vec<char> = Vec::new();
    let mut i: usize = 0;
    assert(mv.take(0) =~= Seq::<Seq<char>>::empty());
    while i < module.len()
        invariant
            i <= module.len(),
            mv == views(module@),
            out@ == joined_by(mv.take(i as int), seq![':', ':']),
        decreases module.len() - i,
    {
        if i > 0 {
            out.push(':');
            out.push(':');
        }
        extend_str(&mut out, module[i].as_str());
        proof {
            let t = mv.take(i + 1);
            assert(t.drop_last() =~= mv.take(i as int));
            assert(t.last() == module@[i as int]@);
            if i == 0 {
                assert(t =~= seq![module@[0]@]);
            }
        }
        assert(out@ =~= joined_by(mv.take(i + 1), seq![':', ':']));
        i = i + 1;
    }
    assert(mv.take(i as int) =~= mv);
    if module.len() > 0 {
        out.push(':');
        out.push(':');
    }
    extend_str(&mut out, name);
    string_of(&out)
}

/// Adds to `seen` each tag of `tags` not there yet, in order: the tags of a
/// measured function gathered over its cases.
pub fn gather_tags(seen: &mut Vec<String>, tags: &Vec<String>)
    ensures
        views(final(seen)@) == first_occurrences_after(views(old(seen)@), views(tags@)),
{
    let ghost start = views(seen@);
    let ghost tv = views(tags@);
    let mut i: usize = 0;
    assert(tv.take(0) =~= Seq::<Seq<char>>::empty());
    while i < tags.len()
        invariant
            i <= tags.len(),
            tv == views(tags@),
            views(seen@) == first_occurrences_after(start, tv.take(i as int)),
        decreases tags.len() - i,
    {
        let mut j: usize = 0;
        let mut present = false;
        while j < seen.len()
            invariant
                j <= seen.len(),
                i < tags.len(),
                present == exists|k: int| 0 <= k < j && views(seen@)[k] == tags@[i as int]@,
            decreases seen.len() - j,
        {
            assert(views(seen@)[j as int] == seen@[j as int]@);
            if same(seen[j].as_str(), tags[i].as_str()) {
                present = true;
            }
            j = j + 1;
        }
        let ghost before = seen@;
        assert(tv.take(i + 1).drop_last() =~= tv.take(i as int));
        assert(tv.take(i + 1).last() == tags@[i as int]@);
        if !present {
            seen.push(tags[i].clone());
            assert(views(seen@) =~= views(before).push(tags@[i as int]@));
        } else {
            proof {
                let k = choose|k: int| 0 <= k < j && views(seen@)[k] == tags@[i as int]@;
                assert(views(before)[k] == tags@[i as int]@);
            }
        }
        i = i + 1;
    }
    assert(tv.take(i as int) =~= tv);
}

/// The list `seen` extended by each of `tags` not in it yet, in order.
pub open spec fn first_occurrences_after(seen: Seq<Seq<char>>, tags: Seq<Seq<char>>) -> Seq<Seq<char>>
    decreases tags.len(),
{
    if tags.len() == 0 {
        seen
    } else {
        let prior = first_occurrences_after(seen, tags.drop_last());
        if prior.contains(tags.last()) {
            prior
        } else {
            prior.push(tags.last())
        }
    }
}

/// Gathering tags keeps them free of repeats and loses none: the result
/// holds exactly the tags seen before and the new ones, each once.
pub proof fn lemma_gathered(seen: Seq<Seq<char>>, tags: Seq<Seq<char>>)
    requires
        seen.no_duplicates(),
    ensures
        first_occurrences_after(seen, tags).no_duplicates(),
        forall|t: Seq<char>| #[trigger] first_occurrences_after(seen, tags).contains(t) <==> (seen.contains(t)
            || tags.contains(t)),
    decreases tags.len(),
{
    if tags.len() > 0 {
        let init = tags.drop_last();
        lemma_gathered(seen, init);
        let prior = first_occurrences_after(seen, init);
        let r = first_occurrences_after(seen, tags);
        assert forall|t: Seq<char>| #[trigger] r.contains(t) <==> (seen.contains(t) || tags.contains(t)) by {
            if tags.contains(t) && !init.contains(t) {
                let k = choose|k: int| 0 <= k < tags.len() && tags[k] == t;
                if k < tags.len() - 1 {
                    assert(init[k] == t);
                }
                assert(t == tags.last());
                if !prior.contains(t) {
                    assert(r[prior.len() as int] == t);
                }
            }
            if init.contains(t) {
                let k = choose|k: int| 0 <= k < init.len() && init[k] == t;
                assert(tags[k] == t);
            }
            if r.contains(t) && !prior.contains(t) {
                let k = choose|k: int| 0 <= k < r.len() && r[k] == t;
                assert(k == prior.len());
                assert(tags[tags.len() - 1] == t);
            }
            if prior.contains(t) && r != prior {
                let k = choose|k: int| 0 <= k < prior.len() && prior[k] == t;
                assert(r[k] == t);
            }
        }
    }
}

} // verus!
