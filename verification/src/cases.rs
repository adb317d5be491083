//! Checking a case file against the functions of a template: for every case
//! of every function in turn, its parameters and return values after the
//! function's defaults, its tags after the function's, and the checks of
//! `validation`. The first function the template lacks, or the first case
//! that fails a check, is refused.

use vstd::prelude::*;
use crate::context::{found_of, template_fns, Context, Declared, Found};
use crate::imports::views;
use crate::json::{
    copy_entries, entries_view, find_entry, found, keys_of, lemma_array_view, lemma_entries_view, merge, overlaid,
    shadowed, Json, JsonView,
};
use crate::validation::{fault, fault_of, validate, Fault, Violation};

verus! {

/// What an object holds under `key`; nothing for any other value.
pub open spec fn member(v: JsonView, key: Seq<char>) -> Option<JsonView> {
    match v {
        JsonView::Object(es) => found(es, key),
        _ => None,
    }
}

/// The value of an optional reference.
pub open spec fn opt(v: Option<&Json>) -> Option<JsonView> {
    match v {
        Some(x) => Some(x@),
        None => None,
    }
}

/// The entries of an object; none for anything else.
pub open spec fn entries_in(v: Option<JsonView>) -> Seq<(Seq<char>, JsonView)> {
    match v {
        Some(JsonView::Object(es)) => es,
        _ => seq![],
    }
}

/// The items of an array; none for anything else.
pub open spec fn items_in(v: Option<JsonView>) -> Seq<JsonView> {
    match v {
        Some(JsonView::Array(items)) => items,
        _ => seq![],
    }
}

/// The text of a string; empty for anything else.
pub open spec fn text_in(v: Option<JsonView>) -> Seq<char> {
    match v {
        Some(JsonView::String(s)) => s,
        _ => seq![],
    }
}

/// The strings among items, in order.
pub open spec fn texts(items: Seq<JsonView>) -> Seq<Seq<char>>
    decreases items.len(),
{
    if items.len() == 0 {
        seq![]
    } else {
        let prior = texts(items.drop_last());
        match items.last() {
            JsonView::String(s) => prior.push(s),
            _ => prior,
        }
    }
}

/// The strings of an array; none for anything else.
pub open spec fn strings_in(v: Option<JsonView>) -> Seq<Seq<char>> {
    match v {
        Some(JsonView::Array(items)) => texts(items),
        _ => seq![],
    }
}

/// Where the last function named `name` stands.
pub open spec fn last_index(fs: Seq<Found>, name: Seq<char>) -> Option<int>
    decreases fs.len(),
{
    if fs.len() == 0 {
        None
    } else if fs.last().0 == name {
        Some(fs.len() - 1)
    } else {
        last_index(fs.drop_last(), name)
    }
}

/// A checked case by value: the function's qualified name, where it stands
/// in the context, the parameters and the return values after the
/// function's defaults, and the tags.
pub type Plan = (Seq<char>, int, Seq<(Seq<char>, JsonView)>, Seq<(Seq<char>, JsonView)>, Seq<Seq<char>>);

/// A refusal by value.
pub enum Refused {
    Untargetable(Seq<char>),
    Invalid(Seq<char>, Fault),
}

/// One case `c` of the function `function`, standing at `index` with the
/// parameters `expected`, with the function's default parameters, return
/// values and tags.
pub open spec fn case_plan(
    c: JsonView,
    function: Seq<char>,
    index: int,
    expected: Seq<Seq<char>>,
    parameters: Seq<(Seq<char>, JsonView)>,
    outcomes: Seq<(Seq<char>, JsonView)>,
    tags: Seq<Seq<char>>,
    content: Seq<char>,
) -> Result<Plan, Refused> {
    let given = overlaid(parameters, entries_in(member(c, "parameters"@)));
    let checked = overlaid(outcomes, entries_in(member(c, "returns"@)));
    match fault(expected, keys_of(given), keys_of(checked), content) {
        Some(f) => Err(Refused::Invalid(function, f)),
        None => Ok((function, index, given, checked, tags + strings_in(member(c, "tags"@)))),
    }
}

/// The cases `cs` in turn, up to the first refused.
pub open spec fn cases_plan(
    cs: Seq<JsonView>,
    function: Seq<char>,
    index: int,
    expected: Seq<Seq<char>>,
    parameters: Seq<(Seq<char>, JsonView)>,
    outcomes: Seq<(Seq<char>, JsonView)>,
    tags: Seq<Seq<char>>,
    content: Seq<char>,
) -> Result<Seq<Plan>, Refused>
    decreases cs.len(),
{
    if cs.len() == 0 {
        Ok(seq![])
    } else {
        match cases_plan(cs.drop_last(), function, index, expected, parameters, outcomes, tags, content) {
            Err(e) => Err(e),
            Ok(prior) => match case_plan(cs.last(), function, index, expected, parameters, outcomes, tags, content) {
                Err(e) => Err(e),
                Ok(p) => Ok(prior.push(p)),
            },
        }
    }
}

/// The cases of the function group `g`: refused where the template has no
/// function of its name.
pub open spec fn group_plan(g: JsonView, fs: Seq<Found>, content: Seq<char>) -> Result<Seq<Plan>, Refused> {
    let q = text_in(member(g, "function"@));
    match last_index(fs, q) {
        None => Err(Refused::Untargetable(q)),
        Some(i) => cases_plan(
            items_in(member(g, "cases"@)),
            q,
            i,
            fs[i].1,
            entries_in(member(g, "parameters"@)),
            entries_in(member(g, "returns"@)),
            strings_in(member(g, "tags"@)),
            content,
        ),
    }
}

/// The function groups `gs` in turn, up to the first refused.
pub open spec fn groups_plan(gs: Seq<JsonView>, fs: Seq<Found>, content: Seq<char>) -> Result<Seq<Plan>, Refused>
    decreases gs.len(),
{
    if gs.len() == 0 {
        Ok(seq![])
    } else {
        match groups_plan(gs.drop_last(), fs, content) {
            Err(e) => Err(e),
            Ok(prior) => match group_plan(gs.last(), fs, content) {
                Err(e) => Err(e),
                Ok(ps) => Ok(prior + ps),
            },
        }
    }
}

/// The checked cases of the case file `data`, read from `content`, against
/// the functions `fs` of a template.
pub open spec fn planned(data: JsonView, fs: Seq<Found>, content: Seq<char>) -> Result<Seq<Plan>, Refused> {
    groups_plan(items_in(member(data, "functions"@)), fs, content)
}

/// A checked case.
pub struct Planned {
    pub function: String,
    pub index: usize,
    pub parameters: Vec<(String, Json)>,
    pub outcomes: Vec<(String, Json)>,
    pub tags: Vec<String>,
}

/// Why a case file is refused.
pub enum Refusal {
    /// The template has no function of this name.
    Untargetable { name: String },
    /// A case of this function fails a check.
    Invalid { function: String, violation: Violation },
}

/// A checked case by value.
pub open spec fn plan_of(p: Planned) -> Plan {
    (p.function@, p.index as int, entries_view(p.parameters@), entries_view(p.outcomes@), views(p.tags@))
}

/// Checked cases by value.
pub open spec fn plans_of(ps: Seq<Planned>) -> Seq<Plan> {
    ps.map_values(|p: Planned| plan_of(p))
}

/// A refusal by value.
pub open spec fn refused_of(r: Refusal) -> Refused {
    match r {
        Refusal::Untargetable { name } => Refused::Untargetable(name@),
        Refusal::Invalid { function, violation } => Refused::Invalid(function@, fault_of(violation)),
    }
}

/// What `v` holds under `key`, where it is an object.
pub fn member_of<'a>(v: &'a Json, key: &str) -> (r: Option<&'a Json>)
    ensures
        opt(r) == member(v@, key@),
{
    match v {
        Json::Object(es) => {
            proof {
                lemma_entries_view(es@);
            }
            match find_entry(es, key) {
                Some(j) => Some(&es[j].1),
                None => None,
            }
        },
        _ => None,
    }
}

fn entries_from(v: Option<&Json>) -> (r: Vec<(String, Json)>)
    ensures
        entries_view(r@) == entries_in(opt(v)),
{
    match v {
        Some(Json::Object(es)) => copy_entries(es),
        _ => {
            let r: Vec<(String, Json)> = Vec::new();
            assert(entries_view(r@) =~= Seq::<(Seq<char>, JsonView)>::empty());
            r
        },
    }
}

fn text_from(v: Option<&Json>) -> (r: String)
    ensures
        r@ == text_in(opt(v)),
{
    match v {
        Some(Json::String(s)) => s.clone(),
        _ => String::new(),
    }
}

fn strings_from(v: Option<&Json>) -> (r: Vec<String>)
    ensures
        views(r@) == strings_in(opt(v)),
{
    let mut out: Vec<String> = Vec::new();
    match v {
        Some(Json::Array(items)) => {
            let ghost av = crate::json::array_view(items@);
            proof {
                lemma_array_view(items@);
            }
            let mut i: usize = 0;
            assert(av.take(0) =~= Seq::<JsonView>::empty());
            while i < items.len()
                invariant
                    i <= items.len(),
                    av == crate::json::array_view(items@),
                    av.len() == items.len(),
                    forall|j: int| 0 <= j < items.len() ==> #[trigger] av[j] == items@[j]@,
                    views(out@) == texts(av.take(i as int)),
                decreases items.len() - i,
            {
                assert(av.take(i + 1).drop_last() =~= av.take(i as int));
                assert(av.take(i + 1).last() == items@[i as int]@);
                match &items[i] {
                    Json::String(s) => {
                        let ghost before = out@;
                        out.push(s.clone());
                        assert(views(out@) =~= views(before).push(s@));
                    },
                    _ => {},
                }
                i = i + 1;
            }
            assert(av.take(i as int) =~= av);
        },
        _ => {
            assert(views(out@) =~= Seq::<Seq<char>>::empty());
        },
    }
    out
}

fn entry_keys(es: &Vec<(String, Json)>) -> (r: Vec<String>)
    ensures
        views(r@) == keys_of(entries_view(es@)),
{
    proof {
        lemma_entries_view(es@);
    }
    let mut out: Vec<String> = Vec::new();
    let mut i: usize = 0;
    while i < es.len()
        invariant
            i <= es.len(),
            entries_view(es@).len() == es.len(),
            forall|j: int| 0 <= j < es.len() ==> #[trigger] entries_view(es@)[j] == (es@[j].0@, es@[j].1@),
            views(out@) == keys_of(entries_view(es@)).take(i as int),
        decreases es.len() - i,
    {
        let ghost before = out@;
        assert(keys_of(entries_view(es@))[i as int] == es@[i as int].0@);
        out.push(es[i].0.clone());
        assert(views(out@) =~= views(before).push(es@[i as int].0@));
        assert(views(out@) =~= keys_of(entries_view(es@)).take(i + 1));
        i = i + 1;
    }
    assert(keys_of(entries_view(es@)).take(i as int) =~= keys_of(entries_view(es@)));
    out
}

/// Checks one case of the function `function`.
fn plan_case(
    c: &Json,
    function: &String,
    index: usize,
    expected: &Vec<String>,
    parameters: &Vec<(String, Json)>,
    outcomes: &Vec<(String, Json)>,
    tags: &Vec<String>,
    content: &str,
) -> (r: Result<Planned, Refusal>)
    requires
        content@.len() < usize::MAX / 4,
    ensures
        match r {
            Ok(p) => case_plan(
                c@,
                function@,
                index as int,
                views(expected@),
                entries_view(parameters@),
                entries_view(outcomes@),
                views(tags@),
                content@,
            ) == Ok::<Plan, Refused>(plan_of(p)),
            Err(e) => case_plan(
                c@,
                function@,
                index as int,
                views(expected@),
                entries_view(parameters@),
                entries_view(outcomes@),
                views(tags@),
                content@,
            ) == Err::<Plan, Refused>(refused_of(e)),
        },
{
    let given = shadowed(parameters, &entries_from(member_of(c, "parameters")));
    let checked = shadowed(outcomes, &entries_from(member_of(c, "returns")));
    let merged = merge(tags.as_slice(), strings_from(member_of(c, "tags")).as_slice());
    match validate(expected, &entry_keys(&given), &entry_keys(&checked), content) {
        Ok(()) => Ok(Planned { function: function.clone(), index, parameters: given, outcomes: checked, tags: merged }),
        Err(violation) => Err(Refusal::Invalid { function: function.clone(), violation }),
    }
}

proof fn lemma_cases_err_stays(
    cs: Seq<JsonView>,
    n: int,
    function: Seq<char>,
    index: int,
    expected: Seq<Seq<char>>,
    parameters: Seq<(Seq<char>, JsonView)>,
    outcomes: Seq<(Seq<char>, JsonView)>,
    tags: Seq<Seq<char>>,
    content: Seq<char>,
    e: Refused,
)
    requires
        0 <= n <= cs.len(),
        cases_plan(cs.take(n), function, index, expected, parameters, outcomes, tags, content) == Err::<Seq<Plan>, Refused>(e),
    ensures
        cases_plan(cs, function, index, expected, parameters, outcomes, tags, content) == Err::<Seq<Plan>, Refused>(e),
    decreases cs.len() - n,
{
    if n < cs.len() {
        assert(cs.take(n + 1).drop_last() =~= cs.take(n));
        lemma_cases_err_stays(cs, n + 1, function, index, expected, parameters, outcomes, tags, content, e);
    } else {
        assert(cs.take(n) =~= cs);
    }
}

proof fn lemma_groups_err_stays(gs: Seq<JsonView>, n: int, fs: Seq<Found>, content: Seq<char>, e: Refused)
    requires
        0 <= n <= gs.len(),
        groups_plan(gs.take(n), fs, content) == Err::<Seq<Plan>, Refused>(e),
    ensures
        groups_plan(gs, fs, content) == Err::<Seq<Plan>, Refused>(e),
    decreases gs.len() - n,
{
    if n < gs.len() {
        assert(gs.take(n + 1).drop_last() =~= gs.take(n));
        lemma_groups_err_stays(gs, n + 1, fs, content, e);
    } else {
        assert(gs.take(n) =~= gs);
    }
}

proof fn lemma_last_index(fs: Seq<Found>, name: Seq<char>, i: int)
    requires
        0 <= i < fs.len(),
        fs[i].0 == name,
        forall|j: int| i < j < fs.len() ==> #[trigger] fs[j].0 != name,
    ensures
        last_index(fs, name) == Some(i),
    decreases fs.len(),
{
    if i < fs.len() - 1 {
        assert forall|j: int| i < j < fs.drop_last().len() implies #[trigger] fs.drop_last()[j].0 != name by {
            assert(fs.drop_last()[j] == fs[j]);
        }
        lemma_last_index(fs.drop_last(), name, i);
    }
}

proof fn lemma_no_index(fs: Seq<Found>, name: Seq<char>)
    requires
        forall|j: int| 0 <= j < fs.len() ==> #[trigger] fs[j].0 != name,
    ensures
        last_index(fs, name) is None,
    decreases fs.len(),
{
    if fs.len() > 0 {
        assert forall|j: int| 0 <= j < fs.drop_last().len() implies #[trigger] fs.drop_last()[j].0 != name by {
            assert(fs.drop_last()[j] == fs[j]);
        }
        lemma_no_index(fs.drop_last(), name);
    }
}

/// Checks the cases of one function group, appending them to `out`.
fn plan_group(g: &Json, context: &Context, content: &str, out: &mut Vec<Planned>) -> (r: Result<(), Refusal>)
    requires
        content@.len() < usize::MAX / 4,
    ensures
        match r {
            Ok(()) => group_plan(g@, found_of(context.functions@), content@) matches Ok(ps) && plans_of(final(out)@)
                == plans_of(old(out)@) + ps,
            Err(e) => group_plan(g@, found_of(context.functions@), content@) == Err::<Seq<Plan>, Refused>(
                refused_of(e),
            ),
        },
{
    let ghost fs = found_of(context.functions@);
    let function = text_from(member_of(g, "function"));
    let index = match context.find(function.as_str()) {
        Some(i) => i,
        None => {
            proof {
                assert forall|j: int| 0 <= j < fs.len() implies #[trigger] fs[j].0 != function@ by {
                    assert(fs[j].0 == context.functions@[j].0@);
                }
                lemma_no_index(fs, function@);
            }
            return Err(Refusal::Untargetable { name: function });
        },
    };
    proof {
        assert forall|j: int| index < j < fs.len() implies #[trigger] fs[j].0 != function@ by {
            assert(fs[j].0 == context.functions@[j].0@);
        }
        lemma_last_index(fs, function@, index as int);
    }
    let expected = &context.functions[index].1;
    assert(views(expected@) == fs[index as int].1);
    let parameters = entries_from(member_of(g, "parameters"));
    let outcomes = entries_from(member_of(g, "returns"));
    let tags = strings_from(member_of(g, "tags"));
    let ghost start = old(out)@;
    let listed = member_of(g, "cases");
    let ghost cs = items_in(opt(listed));
    match listed {
        Some(Json::Array(items)) => {
            let ghost av = crate::json::array_view(items@);
            proof {
                lemma_array_view(items@);
            }
            assert(cs == av);
            assert(group_plan(g@, fs, content@) == cases_plan(
                av,
                function@,
                index as int,
                views(expected@),
                entries_view(parameters@),
                entries_view(outcomes@),
                views(tags@),
                content@,
            ));
            let mut i: usize = 0;
            assert(av.take(0) =~= Seq::<JsonView>::empty());
            assert(plans_of(out@) =~= plans_of(start) + Seq::<Plan>::empty());
            while i < items.len()
                invariant
                    group_plan(g@, fs, content@) == cases_plan(
                        av,
                        function@,
                        index as int,
                        views(expected@),
                        entries_view(parameters@),
                        entries_view(outcomes@),
                        views(tags@),
                        content@,
                    ),
                    fs == found_of(context.functions@),
                    i <= items.len(),
                    av == crate::json::array_view(items@),
                    av.len() == items.len(),
                    forall|j: int| 0 <= j < items.len() ==> #[trigger] av[j] == items@[j]@,
                    content@.len() < usize::MAX / 4,
                    cases_plan(
                        av.take(i as int),
                        function@,
                        index as int,
                        views(expected@),
                        entries_view(parameters@),
                        entries_view(outcomes@),
                        views(tags@),
                        content@,
                    ) matches Ok(ps) && plans_of(out@) == plans_of(start) + ps,
                decreases items.len() - i,
            {
                assert(av.take(i + 1).drop_last() =~= av.take(i as int));
                assert(av.take(i + 1).last() == items@[i as int]@);
                let ghost prior = cases_plan(
                    av.take(i as int),
                    function@,
                    index as int,
                    views(expected@),
                    entries_view(parameters@),
                    entries_view(outcomes@),
                    views(tags@),
                    content@,
                )->Ok_0;
                match plan_case(&items[i], &function, index, expected, &parameters, &outcomes, &tags, content) {
                    Ok(p) => {
                        let ghost before = out@;
                        out.push(p);
                        assert(plans_of(out@) =~= plans_of(before).push(plan_of(p)));
                        assert(plans_of(start) + prior.push(plan_of(p)) =~= (plans_of(start) + prior).push(plan_of(p)));
                    },
                    Err(e) => {
                        proof {
                            lemma_cases_err_stays(
                                av,
                                i + 1,
                                function@,
                                index as int,
                                views(expected@),
                                entries_view(parameters@),
                                entries_view(outcomes@),
                                views(tags@),
                                content@,
                                refused_of(e),
                            );
                        }
                        return Err(e);
                    },
                }
                i = i + 1;
            }
            assert(av.take(i as int) =~= av);
        },
        _ => {
            assert(cs =~= Seq::<JsonView>::empty());
            assert(plans_of(out@) =~= plans_of(start) + Seq::<Plan>::empty());
        },
    }
    Ok(())
}

/// Checks every case of the case file `data`, read from `content`, against
/// the functions of a template: the checked cases in order, or the first
/// function the template lacks or the first case that fails a check.
pub fn process(data: &Json, context: &Context, content: &str) -> (r: Result<Vec<Planned>, Refusal>)
    requires
        content@.len() < usize::MAX / 4,
    ensures
        match r {
            Ok(ps) => planned(data@, found_of(context.functions@), content@) == Ok::<Seq<Plan>, Refused>(plans_of(ps@)),
            Err(e) => planned(data@, found_of(context.functions@), content@) == Err::<Seq<Plan>, Refused>(
                refused_of(e),
            ),
        },
{
    let ghost fs = found_of(context.functions@);
    let mut out: Vec<Planned> = Vec::new();
    let listed = member_of(data, "functions");
    let ghost gs = items_in(opt(listed));
    assert(plans_of(out@) =~= Seq::<Plan>::empty());
    match listed {
        Some(Json::Array(groups)) => {
            let ghost av = crate::json::array_view(groups@);
            proof {
                lemma_array_view(groups@);
            }
            assert(gs == av);
            assert(planned(data@, fs, content@) == groups_plan(av, fs, content@));
            let mut i: usize = 0;
            assert(av.take(0) =~= Seq::<JsonView>::empty());
            while i < groups.len()
                invariant
                    planned(data@, fs, content@) == groups_plan(av, fs, content@),
                    i <= groups.len(),
                    av == crate::json::array_view(groups@),
                    av.len() == groups.len(),
                    forall|j: int| 0 <= j < groups.len() ==> #[trigger] av[j] == groups@[j]@,
                    content@.len() < usize::MAX / 4,
                    fs == found_of(context.functions@),
                    groups_plan(av.take(i as int), fs, content@) matches Ok(ps) && plans_of(out@) == ps,
                decreases groups.len() - i,
            {
                assert(av.take(i + 1).drop_last() =~= av.take(i as int));
                assert(av.take(i + 1).last() == groups@[i as int]@);
                match plan_group(&groups[i], context, content, &mut out) {
                    Ok(()) => {},
                    Err(e) => {
                        proof {
                            lemma_groups_err_stays(av, i + 1, fs, content@, refused_of(e));
                        }
                        return Err(e);
                    },
                }
                i = i + 1;
            }
            assert(av.take(i as int) =~= av);
        },
        _ => {
            assert(gs =~= Seq::<JsonView>::empty());
        },
    }
    Ok(out)
}

/// The number of cases the function entries list, over all entries.
pub open spec fn case_count(gs: Seq<JsonView>) -> nat
    decreases gs.len(),
{
    if gs.len() == 0 {
        0
    } else {
        case_count(gs.drop_last()) + items_in(member(gs.last(), "cases"@)).len()
    }
}

/// Checking function entries one after another: the checked cases of two
/// runs of entries are those of the first run followed by those of the
/// second, and the first refusal stops everything.
pub proof fn lemma_groups_concat(a: Seq<JsonView>, b: Seq<JsonView>, fs: Seq<Found>, content: Seq<char>)
    ensures
        groups_plan(a + b, fs, content) == match groups_plan(a, fs, content) {
            Err(e) => Err(e),
            Ok(x) => match groups_plan(b, fs, content) {
                Err(e) => Err(e),
                Ok(y) => Ok::<Seq<Plan>, Refused>(x + y),
            },
        },
    decreases b.len(),
{
    if b.len() == 0 {
        assert(a + b =~= a);
        match groups_plan(a, fs, content) {
            Ok(x) => {
                assert(x + Seq::<Plan>::empty() =~= x);
            },
            Err(_) => {},
        }
    } else {
        assert((a + b).drop_last() =~= a + b.drop_last());
        assert((a + b).last() == b.last());
        lemma_groups_concat(a, b.drop_last(), fs, content);
        match groups_plan(a, fs, content) {
            Ok(x) => match groups_plan(b.drop_last(), fs, content) {
                Ok(y) => match group_plan(b.last(), fs, content) {
                    Ok(ps) => {
                        assert(x + y + ps =~= x + (y + ps));
                    },
                    Err(_) => {},
                },
                Err(_) => {},
            },
            Err(_) => {},
        }
    }
}

/// Every case of a function entry is checked: where they all pass, there is
/// one checked case per listed case, each of that entry's function.
pub proof fn lemma_cases_count(
    cs: Seq<JsonView>,
    function: Seq<char>,
    index: int,
    expected: Seq<Seq<char>>,
    parameters: Seq<(Seq<char>, JsonView)>,
    outcomes: Seq<(Seq<char>, JsonView)>,
    tags: Seq<Seq<char>>,
    content: Seq<char>,
)
    ensures
        cases_plan(cs, function, index, expected, parameters, outcomes, tags, content) matches Ok(ps) ==> {
            &&& ps.len() == cs.len()
            &&& forall|i: int| 0 <= i < ps.len() ==> (#[trigger] ps[i]).0 == function && ps[i].1 == index
        },
    decreases cs.len(),
{
    if cs.len() > 0 {
        lemma_cases_count(cs.drop_last(), function, index, expected, parameters, outcomes, tags, content);
    }
}

/// Where checking succeeds, every case of every function entry is among the
/// checked cases: their number is the number of cases the entries list.
pub proof fn lemma_groups_count(gs: Seq<JsonView>, fs: Seq<Found>, content: Seq<char>)
    ensures
        groups_plan(gs, fs, content) matches Ok(ps) ==> ps.len() == case_count(gs),
    decreases gs.len(),
{
    if gs.len() > 0 {
        lemma_groups_count(gs.drop_last(), fs, content);
        let g = gs.last();
        let q = text_in(member(g, "function"@));
        match last_index(fs, q) {
            Some(i) => {
                lemma_cases_count(
                    items_in(member(g, "cases"@)),
                    q,
                    i,
                    fs[i].1,
                    entries_in(member(g, "parameters"@)),
                    entries_in(member(g, "returns"@)),
                    strings_in(member(g, "tags"@)),
                    content,
                );
            },
            None => {},
        }
    }
}

/// Where a case file is accepted, it yields one checked case for each case
/// of each of its function entries.
pub proof fn lemma_planned_count(data: JsonView, fs: Seq<Found>, content: Seq<char>)
    ensures
        planned(data, fs, content) matches Ok(ps) ==> ps.len() == case_count(items_in(member(data, "functions"@))),
{
    lemma_groups_count(items_in(member(data, "functions"@)), fs, content);
}

/// Whether the text is a Rust source file as `syn` parses one.
pub uninterp spec fn parses_as_file(text: Seq<char>) -> bool;

/// Whether the text parses as a Rust source file.
///
/// Trusted: wraps `syn::parse_file`; the claim is that it succeeds exactly on
/// the texts named by `parses_as_file`, a function of the text alone.
#[verifier::external_body]
fn parses_file(text: &str) -> (r: bool)
    ensures
        r == parses_as_file(text@),
{
    syn::parse_file(text).is_ok()
}

/// Why a template and its case file are refused.
pub enum TemplateRefusal {
    /// The template is no Rust source file.
    Unparsable,
    /// The case file is refused against the template's functions.
    Refused(Refusal),
}

/// Checks the case file `data`, read from `content`, against the template
/// `template` whose function and module items are `items`: refused where
/// the template does not parse, else as `process` finds against the
/// template's functions.
pub fn plan_template(template: &str, items: &Vec<Declared>, data: &Json, content: &str) -> (r: Result<
    Vec<Planned>,
    TemplateRefusal,
>)
    requires
        content@.len() < usize::MAX / 4,
    ensures
        !parses_as_file(template@) ==> r is Err && r->Err_0 is Unparsable,
        parses_as_file(template@) ==> match r {
            Ok(ps) => planned(data@, template_fns(items@), content@) == Ok::<Seq<Plan>, Refused>(plans_of(ps@)),
            Err(TemplateRefusal::Refused(e)) => planned(data@, template_fns(items@), content@) == Err::<
                Seq<Plan>,
                Refused,
            >(refused_of(e)),
            Err(TemplateRefusal::Unparsable) => false,
        },
{
    if !parses_file(template) {
        return Err(TemplateRefusal::Unparsable);
    }
    let context = Context::from(items);
    match process(data, &context, content) {
        Ok(ps) => Ok(ps),
        Err(e) => Err(TemplateRefusal::Refused(e)),
    }
}

} // verus!
