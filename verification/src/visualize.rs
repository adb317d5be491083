//! Finding the source of a tested function in its template: which template
//! a case file refers to, and the tree-sitter query that picks the function
//! out of it, module by module.

use vstd::prelude::*;
use crate::text::{chars_of, extend_str, string_of};

verus! {

/// Where a run's cases came from: the template file and the cases file.
pub struct Source {
    pub file: String,
    pub cases: String,
}

/// A template: its path and its text.
pub struct Template {
    pub path: String,
    pub content: String,
}

/// The pieces of `s` between the occurrences of `c`, as `str::split` gives
/// them.
pub open spec fn pieces(s: Seq<char>, c: char) -> Seq<Seq<char>>
    decreases s.len(),
{
    if s.len() == 0 {
        seq![seq![]]
    } else {
        let p = pieces(s.drop_last(), c);
        if s.last() == c {
            p.push(seq![])
        } else {
            p.update(p.len() - 1, p.last().push(s.last()))
        }
    }
}

pub proof fn lemma_pieces_nonempty(s: Seq<char>, c: char)
    ensures
        pieces(s, c).len() >= 1,
    decreases s.len(),
{
    if s.len() > 0 {
        lemma_pieces_nonempty(s.drop_last(), c);
    }
}

/// The pattern that captures a function item named `name`.
pub open spec fn function_pattern(name: Seq<char>) -> Seq<char> {
    "(function_item name: (identifier) @name (#eq? @name \""@ + name + "\")) @capture"@
}

/// The opening of a pattern that descends into the module `m`.
pub open spec fn module_pattern(m: Seq<char>) -> Seq<char> {
    "(mod_item name: (identifier) @_"@ + m + " (#eq? @_"@ + m + " \""@ + m + "\") body: (declaration_list "@
}

/// The openings for the modules `ms`, in order.
pub open spec fn module_patterns(ms: Seq<Seq<char>>) -> Seq<char>
    decreases ms.len(),
{
    if ms.len() == 0 {
        seq![]
    } else {
        module_patterns(ms.drop_last()) + module_pattern(ms.last())
    }
}

/// `n` closings of two parentheses.
pub open spec fn closings(n: nat) -> Seq<char>
    decreases n,
{
    if n == 0 {
        seq![]
    } else {
        closings((n - 1) as nat) + "))"@
    }
}

/// The query for a function named by a dotted path such as `outer.inner.run`:
/// each module but the last piece descends one level, the last piece names
/// the function.
pub open spec fn query_text(function: Seq<char>) -> Seq<char> {
    let segments = pieces(function, '.');
    if segments.len() <= 1 {
        function_pattern(segments.last())
    } else {
        let modules = segments.drop_last();
        module_patterns(modules) + function_pattern(segments.last()) + closings(modules.len())
    }
}

/// Splits `s` at each `c`.
pub fn split_at_char(s: &str, c: char) -> (r: Vec<Vec<char>>)
    ensures
        r@.map_values(|p: Vec<char>| p@) == pieces(s@, c),
        r@.len() >= 1,
{
    let chars = chars_of(s);
    let mut r: Vec<Vec<char>> = Vec::new();
    let mut current: Vec<char> = Vec::new();
    let mut i: usize = 0;
    assert(chars@.take(0) =~= Seq::<char>::empty());
    while i < chars.len()
        invariant
            i <= chars.len(),
            chars@ == s@,
            r@.map_values(|p: Vec<char>| p@).push(current@) == pieces(chars@.take(i as int), c),
        decreases chars.len() - i,
    {
        let ghost prior = r@.map_values(|p: Vec<char>| p@).push(current@);
        assert(chars@.take(i + 1).drop_last() =~= chars@.take(i as int));
        assert(chars@.take(i + 1).last() == chars@[i as int]);
        if chars[i] == c {
            let done = current;
            r.push(done);
            current = Vec::new();
            assert(r@.map_values(|p: Vec<char>| p@).push(current@) =~= prior.push(seq![]));
        } else {
            let ghost before = r@;
            current.push(chars[i]);
            assert(r@.map_values(|p: Vec<char>| p@).push(current@) =~= prior.update(
                prior.len() - 1,
                prior.last().push(chars@[i as int]),
            ));
        }
        i = i + 1;
    }
    assert(chars@.take(i as int) =~= chars@);
    r.push(current);
    r
}

/// The tree-sitter query that captures the function named by the dotted
/// path `function`.
pub fn query(function: &str) -> (r: String)
    ensures
        r@ == query_text(function@),
{
    let segments = split_at_char(function, '.');
    let ghost segs = segments@.map_values(|p: Vec<char>| p@);
    let last = segments.len() - 1;
    let mut out: Vec<char> = Vec::new();
    let mut k: usize = 0;
    assert(segs.take(0) =~= Seq::<Seq<char>>::empty());
    while k < last
        invariant
            k <= last,
            last == segments.len() - 1,
            segs == segments@.map_values(|p: Vec<char>| p@),
            segs == pieces(function@, '.'),
            out@ == module_patterns(segs.take(k as int)),
        decreases last - k,
    {
        let m = string_of(&segments[k]);
        extend_str(&mut out, "(mod_item name: (identifier) @_");
        extend_str(&mut out, m.as_str());
        extend_str(&mut out, " (#eq? @_");
        extend_str(&mut out, m.as_str());
        extend_str(&mut out, " \"");
        extend_str(&mut out, m.as_str());
        extend_str(&mut out, "\") body: (declaration_list ");
        assert(segs.take(k + 1).drop_last() =~= segs.take(k as int));
        assert(segs.take(k + 1).last() == segs[k as int]);
        assert(out@ =~= module_patterns(segs.take(k + 1)));
        k = k + 1;
    }
    let name = string_of(&segments[last]);
    extend_str(&mut out, "(function_item name: (identifier) @name (#eq? @name \"");
    extend_str(&mut out, name.as_str());
    extend_str(&mut out, "\")) @capture");
    let ghost head = out@;
    let mut n: usize = 0;
    assert(head =~= head + closings(0));
    while n < last
        invariant
            n <= last,
            out@ == head + closings(n as nat),
        decreases last - n,
    {
        extend_str(&mut out, "))");
        n = n + 1;
        assert(out@ =~= head + closings(n as nat));
    }
    proof {
        assert(segs.last() == segs[last as int]);
        if segs.len() > 1 {
            assert(segs.take(last as int) =~= segs.drop_last());
        } else {
            assert(segs.take(0) =~= Seq::<Seq<char>>::empty());
        }
    }
    string_of(&out)
}

/// Whether `s` ends with `suffix`.
pub open spec fn ends_with(s: Seq<char>, suffix: Seq<char>) -> bool {
    suffix.len() <= s.len() && s.subrange(s.len() - suffix.len(), s.len() as int) == suffix
}

/// Whether the text `s` ends with `suffix`.
pub fn text_ends_with(s: &str, suffix: &str) -> (r: bool)
    ensures
        r == ends_with(s@, suffix@),
{
    let a = chars_of(s);
    let b = chars_of(suffix);
    if b.len() > a.len() {
        return false;
    }
    let offset = a.len() - b.len();
    let mut i: usize = 0;
    while i < b.len()
        invariant
            i <= b.len(),
            offset + b.len() == a.len(),
            a@ == s@,
            b@ == suffix@,
            forall|j: int| 0 <= j < i ==> a@[offset + j] == b@[j],
        decreases b.len() - i,
    {
        if a[offset + i] != b[i] {
            assert(a@.subrange(offset as int, a@.len() as int)[i as int] == a@[offset + i]);
            return false;
        }
        i = i + 1;
    }
    assert(a@.subrange(offset as int, a@.len() as int) =~= b@);
    true
}

/// The first template whose path ends with `path`.
pub fn find_template(templates: &[Template], path: &str) -> (r: Option<usize>)
    ensures
        match r {
            Some(i) => i < templates@.len() && ends_with(templates@[i as int].path@, path@) && forall|j: int|
                0 <= j < i ==> !ends_with(#[trigger] templates@[j].path@, path@),
            None => forall|j: int| 0 <= j < templates@.len() ==> !ends_with(#[trigger] templates@[j].path@, path@),
        },
{
    let mut i: usize = 0;
    while i < templates.len()
        invariant
            i <= templates@.len(),
            forall|j: int| 0 <= j < i ==> !ends_with(#[trigger] templates@[j].path@, path@),
        decreases templates.len() - i,
    {
        if text_ends_with(templates[i].path.as_str(), path) {
            return Some(i);
        }
        i = i + 1;
    }
    None
}

/// Whether a group of cases, each given as whether it passed, has a failing
/// case.
pub open spec fn fails(cases: Seq<bool>) -> bool {
    cases.contains(false)
}

/// The positions, in order, of the groups that fail (`want` true) or pass.
pub open spec fn groups_where(groups: Seq<Vec<bool>>, want: bool) -> Seq<usize>
    decreases groups.len(),
{
    if groups.len() == 0 {
        seq![]
    } else {
        let rest = groups_where(groups.drop_last(), want);
        if fails(groups.last()@) == want {
            rest.push((groups.len() - 1) as usize)
        } else {
            rest
        }
    }
}

/// How many cases of a group passed (`outcome` true) or failed.
pub open spec fn count_outcome(cases: Seq<bool>, outcome: bool) -> nat
    decreases cases.len(),
{
    if cases.len() == 0 {
        0
    } else {
        count_outcome(cases.drop_last(), outcome) + if cases.last() == outcome { 1nat } else { 0nat }
    }
}

/// How many cases of all groups passed (`outcome` true) or failed.
pub open spec fn total_outcome(groups: Seq<Vec<bool>>, outcome: bool) -> nat
    decreases groups.len(),
{
    if groups.len() == 0 {
        0
    } else {
        total_outcome(groups.drop_last(), outcome) + count_outcome(groups.last()@, outcome)
    }
}

/// The arrangement of a results page: the order in which groups are shown,
/// failing groups first and each part in its given order; how many groups
/// fail; and how many cases passed and failed.
pub struct Arrangement {
    pub order: Vec<usize>,
    pub failures: usize,
    pub passed: usize,
    pub failed: usize,
}

fn outcomes(cases: &Vec<bool>) -> (r: (usize, usize, bool))
    requires
        count_outcome(cases@, true) + count_outcome(cases@, false) <= usize::MAX,
    ensures
        r.0 == count_outcome(cases@, true),
        r.1 == count_outcome(cases@, false),
        r.2 == fails(cases@),
{
    let mut passed: usize = 0;
    let mut failed: usize = 0;
    let mut i: usize = 0;
    while i < cases.len()
        invariant
            i <= cases.len(),
            passed == count_outcome(cases@.take(i as int), true),
            failed == count_outcome(cases@.take(i as int), false),
            passed + failed == i,
            i <= count_outcome(cases@, true) + count_outcome(cases@, false),
            count_outcome(cases@, true) + count_outcome(cases@, false) <= usize::MAX,
            failed == 0 <==> !cases@.take(i as int).contains(false),
        decreases cases.len() - i,
    {
        let ghost t = cases@.take(i + 1);
        assert(t.drop_last() =~= cases@.take(i as int));
        assert(t.last() == cases@[i as int]);
        proof {
            if !cases@[i as int] {
                assert(t[i as int] == false);
            } else if t.contains(false) {
                let j = choose|j: int| 0 <= j < t.len() && t[j] == false;
                assert(cases@.take(i as int)[j] == false);
            }
            if failed > 0 {
                let j = choose|j: int| 0 <= j < i && cases@.take(i as int)[j] == false;
                assert(t[j] == false);
            }
        }
        if cases[i] {
            passed = passed + 1;
        } else {
            failed = failed + 1;
        }
        i = i + 1;
        proof {
            lemma_outcomes_sum(cases@, i as int);
        }
    }
    assert(cases@.take(i as int) =~= cases@);
    (passed, failed, failed > 0)
}

proof fn lemma_outcomes_sum(cases: Seq<bool>, i: int)
    requires
        0 <= i <= cases.len(),
    ensures
        count_outcome(cases.take(i), true) + count_outcome(cases.take(i), false) == i,
        i <= count_outcome(cases, true) + count_outcome(cases, false),
    decreases cases.len(),
{
    lemma_count_total(cases.take(i));
    lemma_count_total(cases);
}

proof fn lemma_count_total(cases: Seq<bool>)
    ensures
        count_outcome(cases, true) + count_outcome(cases, false) == cases.len(),
    decreases cases.len(),
{
    if cases.len() > 0 {
        lemma_count_total(cases.drop_last());
    }
}

proof fn lemma_total_prefix(groups: Seq<Vec<bool>>, i: int)
    requires
        0 <= i <= groups.len(),
    ensures
        total_outcome(groups.take(i), true) + total_outcome(groups.take(i), false) <= total_outcome(groups, true)
            + total_outcome(groups, false),
    decreases groups.len() - i,
{
    if i < groups.len() {
        lemma_total_prefix(groups, i + 1);
        assert(groups.take(i + 1).drop_last() =~= groups.take(i));
    } else {
        assert(groups.take(i) =~= groups);
    }
}

/// The arrangement of the groups of a results page, each group given as
/// whether each of its cases passed.
pub fn arrange(groups: &Vec<Vec<bool>>) -> (r: Arrangement)
    requires
        total_outcome(groups@, true) + total_outcome(groups@, false) <= usize::MAX,
    ensures
        r.order@ == groups_where(groups@, true) + groups_where(groups@, false),
        r.failures == groups_where(groups@, true).len(),
        r.passed == total_outcome(groups@, true),
        r.failed == total_outcome(groups@, false),
{
    let mut failing: Vec<usize> = Vec::new();
    let mut passing: Vec<usize> = Vec::new();
    let mut passed: usize = 0;
    let mut failed: usize = 0;
    let mut i: usize = 0;
    while i < groups.len()
        invariant
            i <= groups.len(),
            failing@ == groups_where(groups@.take(i as int), true),
            passing@ == groups_where(groups@.take(i as int), false),
            failing.len() <= i,
            passed == total_outcome(groups@.take(i as int), true),
            failed == total_outcome(groups@.take(i as int), false),
            total_outcome(groups@, true) + total_outcome(groups@, false) <= usize::MAX,
        decreases groups.len() - i,
    {
        let ghost t = groups@.take(i + 1);
        assert(t.drop_last() =~= groups@.take(i as int));
        assert(t.last() == groups@[i as int]);
        proof {
            lemma_total_prefix(groups@, i + 1);
            lemma_count_total(groups@[i as int]@);
        }
        let (p, f, bad) = outcomes(&groups[i]);
        passed = passed + p;
        failed = failed + f;
        if bad {
            failing.push(i);
        } else {
            passing.push(i);
        }
        i = i + 1;
    }
    assert(groups@.take(i as int) =~= groups@);
    let failures = failing.len();
    let mut order = failing;
    let mut rest = passing;
    order.append(&mut rest);
    Arrangement { order, failures, passed, failed }
}

/// A data file the card generator needs and was not given.
#[derive(Debug, Clone, Copy, PartialEq, Eq, Structural)]
pub enum Missing {
    /// No execution report (`.json`).
    Execution,
    /// No template (`.rs`).
    Template,
}

impl Missing {
    /// The message of the error.
    pub fn message(&self) -> (m: String)
        ensures
            m@ == match self {
                Missing::Execution => "no execution json found in data paths"@,
                Missing::Template => "no template rs found in data paths"@,
            },
    {
        match self {
            Missing::Execution => String::from_str("no execution json found in data paths"),
            Missing::Template => String::from_str("no template rs found in data paths"),
        }
    }

    /// The help shown with the error.
    pub fn help(&self) -> (m: String)
        ensures
            m@ == match self {
                Missing::Execution => "provide a .json file via --data"@,
                Missing::Template => "provide a .rs file via --data"@,
            },
    {
        match self {
            Missing::Execution => String::from_str("provide a .json file via --data"),
            Missing::Template => String::from_str("provide a .rs file via --data"),
        }
    }
}

/// The position of the last data path whose extension is `name`.
pub open spec fn last_with(extensions: Seq<Option<String>>, name: Seq<char>) -> Option<int>
    decreases extensions.len(),
{
    if extensions.len() == 0 {
        None
    } else if match extensions.last() {
        Some(e) => e@ == name,
        None => false,
    } {
        Some(extensions.len() - 1)
    } else {
        last_with(extensions.drop_last(), name)
    }
}

proof fn lemma_last_with(extensions: Seq<Option<String>>, name: Seq<char>)
    ensures
        match last_with(extensions, name) {
            Some(i) => 0 <= i < extensions.len(),
            None => true,
        },
    decreases extensions.len(),
{
    if extensions.len() > 0 {
        lemma_last_with(extensions.drop_last(), name);
    }
}

/// Picks the execution report and the template among the data paths, given
/// by their extensions: the last `.json` and the last `.rs`.
pub fn partition(extensions: &Vec<Option<String>>) -> (r: Result<(usize, usize), Missing>)
    ensures
        match r {
            Ok((e, t)) => last_with(extensions@, "json"@) == Some(e as int) && last_with(extensions@, "rs"@) == Some(
                t as int,
            ),
            Err(Missing::Execution) => last_with(extensions@, "json"@) is None,
            Err(Missing::Template) => last_with(extensions@, "json"@) is Some && last_with(extensions@, "rs"@) is None,
        },
{
    let mut execution: Option<usize> = None;
    let mut template: Option<usize> = None;
    let mut i: usize = 0;
    while i < extensions.len()
        invariant
            i <= extensions.len(),
            execution == match last_with(extensions@.take(i as int), "json"@) {
                Some(k) => Some(k as usize),
                None => None::<usize>,
            },
            template == match last_with(extensions@.take(i as int), "rs"@) {
                Some(k) => Some(k as usize),
                None => None::<usize>,
            },
            forall|k: int| #![auto] last_with(extensions@.take(i as int), "json"@) == Some(k) ==> 0 <= k < i,
            forall|k: int| #![auto] last_with(extensions@.take(i as int), "rs"@) == Some(k) ==> 0 <= k < i,
        decreases extensions.len() - i,
    {
        let ghost t = extensions@.take(i + 1);
        assert(t.drop_last() =~= extensions@.take(i as int));
        assert(t.last() == extensions@[i as int]);
        match &extensions[i] {
            Some(e) => {
                if crate::starlark::same(e.as_str(), "json") {
                    execution = Some(i);
                } else if crate::starlark::same(e.as_str(), "rs") {
                    template = Some(i);
                }
                proof {
                    reveal_strlit("json");
                    reveal_strlit("rs");
                    assert("json"@.len() == 4 && "rs"@.len() == 2);
                    assert("json"@ != "rs"@);
                }
            },
            None => {},
        }
        i = i + 1;
    }
    assert(extensions@.take(i as int) =~= extensions@);
    proof {
        lemma_last_with(extensions@, "json"@);
        lemma_last_with(extensions@, "rs"@);
    }
    match execution {
        None => Err(Missing::Execution),
        Some(e) => match template {
            None => Err(Missing::Template),
            Some(t) => Ok((e, t)),
        },
    }
}

} // verus!
