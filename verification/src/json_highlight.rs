//! Highlighting of JSON values as an element tree: scalars as classed
//! tokens, arrays and objects as classed groups laid out one item per line,
//! or on one line where their compact text fits the width.

use vstd::prelude::*;
use crate::element::{class_view, element_view, elements_view, lemma_elements_view, lemma_elements_view_append,
    Element, ElementView, Reference};
use crate::json::{array_view, entries_view, json_view, lemma_array_view, lemma_entries_view, Json, JsonView};
use crate::text::{extend_str, string_of};
use crate::validation::utf8_width;

verus! {

/// The classes the highlighter gives: of scalar tokens, keys and
/// punctuation, and of the groups around values, arrays, objects and
/// object properties.
pub struct Classes {
    pub constant: Reference,
    pub string: Reference,
    pub entity: Reference,
    pub punctuation: Reference,
    pub array: Reference,
    pub object: Reference,
    pub value: Reference,
    pub property: Reference,
}

/// Where a value stands: at the top, or as an item of an array (no key) or
/// of an object (its key), with its index among `count` siblings, in a
/// parent laid out on one line or not.
pub enum Place {
    Top,
    Item { key: Option<Seq<char>>, index: nat, count: nat, dense: bool },
}

/// The number of bytes a character takes in compact JSON string text.
pub open spec fn escaped_width(c: char) -> nat {
    if c == '"' || c == '\\' {
        2
    } else if c == '\u{8}' || c == '\t' || c == '\n' || c == '\u{c}' || c == '\r' {
        2
    } else if (c as u32) < 0x20 {
        6
    } else {
        utf8_width(c)
    }
}

/// The number of bytes of a string in compact JSON text, quotes included.
pub open spec fn string_len(s: Seq<char>) -> nat
    decreases s.len(),
{
    if s.len() == 0 {
        2
    } else {
        string_len(s.drop_last()) + escaped_width(s.last())
    }
}

/// The number of bytes of a value in compact JSON text, as `serde_json`
/// writes it.
pub open spec fn serialized_len(v: JsonView) -> nat
    decreases v,
{
    match v {
        JsonView::Null => 4,
        JsonView::Bool(b) => if b { 4 } else { 5 },
        JsonView::Number(n) => n.len(),
        JsonView::String(s) => string_len(s),
        JsonView::Array(items) => 2 + items_len(items),
        JsonView::Object(es) => 2 + fields_len(es),
    }
}

/// The bytes of items joined by commas.
pub open spec fn items_len(items: Seq<JsonView>) -> nat
    decreases items,
{
    if items.len() == 0 {
        0
    } else {
        items_len(items.drop_last()) + serialized_len(items.last()) + if items.len() > 1 { 1nat } else { 0nat }
    }
}

/// The bytes of `"key":value` entries joined by commas.
pub open spec fn fields_len(es: Seq<(Seq<char>, JsonView)>) -> nat
    decreases es,
{
    if es.len() == 0 {
        0
    } else {
        fields_len(es.drop_last()) + string_len(es.last().0) + 1 + serialized_len(es.last().1) + if es.len() > 1 {
            1nat
        } else {
            0nat
        }
    }
}

/// Whether a value is an array or object with at least one item.
pub open spec fn nonempty(v: JsonView) -> bool {
    match v {
        JsonView::Array(items) => items.len() > 0,
        JsonView::Object(es) => es.len() > 0,
        _ => false,
    }
}

/// Whether a value is laid out on one line: a nonempty array or object whose
/// compact text fits the width.
pub open spec fn dense(v: JsonView, width: nat) -> bool {
    nonempty(v) && serialized_len(v) <= width
}

/// Four spaces per level.
pub open spec fn indent(level: nat) -> Seq<char>
    decreases level,
{
    if level == 0 {
        seq![]
    } else {
        indent((level - 1) as nat) + "    "@
    }
}

/// A token of class `class`.
pub open spec fn token(class: Reference, text: Seq<char>) -> ElementView {
    ElementView::Token(class_view(class), text)
}

/// The class of the group around a value.
pub open spec fn group_class(c: Classes, v: JsonView) -> Reference {
    match v {
        JsonView::Array(_) => c.array,
        JsonView::Object(_) => c.object,
        _ => c.value,
    }
}

/// What stands before a value: the separator from its previous sibling or
/// its indentation, and for a property its key, a colon and a space.
pub open spec fn leading(c: Classes, depth: nat, place: Place) -> Seq<ElementView> {
    match place {
        Place::Top => seq![],
        Place::Item { key, index, dense, .. } => {
            let gap = if dense && index > 0 {
                seq![ElementView::Text(", "@)]
            } else if !dense {
                seq![ElementView::Text(indent(depth))]
            } else {
                seq![]
            };
            match key {
                Some(k) => gap + seq![token(c.entity, "\""@ + k + "\""@), token(c.punctuation, ":"@), ElementView::Text(" "@)],
                None => gap,
            }
        },
    }
}

/// What stands after a value: the closing bracket of a nonempty array or
/// object, indented where it spans lines; then, in a parent that spans lines,
/// a comma before the next sibling and the end of the line.
pub open spec fn trailing(c: Classes, v: JsonView, width: nat, depth: nat, place: Place) -> Seq<ElementView> {
    let close = if nonempty(v) {
        let bracket = if v is Array { "]"@ } else { "}"@ };
        if dense(v, width) {
            seq![token(c.punctuation, bracket)]
        } else {
            seq![ElementView::Text(indent(depth)), token(c.punctuation, bracket)]
        }
    } else {
        seq![]
    };
    let after = match place {
        Place::Top => seq![],
        Place::Item { index, count, dense, .. } => if dense {
            seq![]
        } else if index + 1 < count {
            seq![token(c.punctuation, ","@), ElementView::Text("\n"@)]
        } else {
            seq![ElementView::Text("\n"@)]
        },
    };
    close + after
}

/// The elements for a value and everything around it in its parent.
pub open spec fn node_view(c: Classes, v: JsonView, width: nat, depth: nat, place: Place) -> Seq<ElementView>
    decreases v, 2int,
{
    let own = ElementView::Labeled(class_view(group_class(c, v)), body_view(c, v, width, depth));
    let all = leading(c, depth, place) + seq![own] + trailing(c, v, width, depth, place);
    match place {
        Place::Item { key: Some(_), .. } => seq![ElementView::Labeled(class_view(c.property), all)],
        _ => all,
    }
}

/// The contents of the group around a value: a scalar's token, or the
/// opening bracket and the items of an array or object.
pub open spec fn body_view(c: Classes, v: JsonView, width: nat, depth: nat) -> Seq<ElementView>
    decreases v, 1int,
{
    match v {
        JsonView::Null => seq![token(c.constant, "null"@)],
        JsonView::Bool(b) => seq![token(c.constant, if b { "true"@ } else { "false"@ })],
        JsonView::Number(n) => seq![token(c.constant, n)],
        JsonView::String(s) => seq![token(c.string, "\""@ + s + "\""@)],
        JsonView::Array(items) => if items.len() == 0 {
            seq![token(c.punctuation, "[]"@)]
        } else {
            let d = dense(v, width);
            seq![token(c.punctuation, "["@)] + (if d { seq![] } else { seq![ElementView::Text("\n"@)] })
                + items_view(c, items, width, depth + 1, d, items.len())
        },
        JsonView::Object(es) => if es.len() == 0 {
            seq![token(c.punctuation, "{}"@)]
        } else {
            let d = dense(v, width);
            seq![token(c.punctuation, "{"@)] + (if d { seq![] } else { seq![ElementView::Text("\n"@)] })
                + fields_view(c, es, width, depth + 1, d, es.len())
        },
    }
}

/// The elements of the items of an array, in order.
pub open spec fn items_view(c: Classes, items: Seq<JsonView>, width: nat, depth: nat, d: bool, count: nat) -> Seq<ElementView>
    decreases items, 0int,
{
    if items.len() == 0 {
        seq![]
    } else {
        items_view(c, items.drop_last(), width, depth, d, count) + node_view(
            c,
            items.last(),
            width,
            depth,
            Place::Item { key: None, index: (items.len() - 1) as nat, count, dense: d },
        )
    }
}

/// The elements of the properties of an object, in order.
pub open spec fn fields_view(c: Classes, es: Seq<(Seq<char>, JsonView)>, width: nat, depth: nat, d: bool, count: nat) -> Seq<ElementView>
    decreases es, 0int,
{
    if es.len() == 0 {
        seq![]
    } else {
        fields_view(c, es.drop_last(), width, depth, d, count) + node_view(
            c,
            es.last().1,
            width,
            depth,
            Place::Item { key: Some(es.last().0), index: (es.len() - 1) as nat, count, dense: d },
        )
    }
}

/// How deep a value nests.
pub open spec fn height(v: JsonView) -> nat
    decreases v,
{
    match v {
        JsonView::Array(items) => 1 + items_height(items),
        JsonView::Object(es) => 1 + fields_height(es),
        _ => 0,
    }
}

pub open spec fn items_height(items: Seq<JsonView>) -> nat
    decreases items,
{
    if items.len() == 0 {
        0
    } else {
        let a = items_height(items.drop_last());
        let b = height(items.last());
        if a < b { b } else { a }
    }
}

pub open spec fn fields_height(es: Seq<(Seq<char>, JsonView)>) -> nat
    decreases es,
{
    if es.len() == 0 {
        0
    } else {
        let a = fields_height(es.drop_last());
        let b = height(es.last().1);
        if a < b { b } else { a }
    }
}

proof fn lemma_items_height(items: Seq<JsonView>, i: int)
    requires
        0 <= i < items.len(),
    ensures
        height(items[i]) <= items_height(items),
    decreases items.len(),
{
    if i < items.len() - 1 {
        assert(items.drop_last()[i] == items[i]);
        lemma_items_height(items.drop_last(), i);
    }
}

proof fn lemma_fields_height(es: Seq<(Seq<char>, JsonView)>, i: int)
    requires
        0 <= i < es.len(),
    ensures
        height(es[i].1) <= fields_height(es),
    decreases es.len(),
{
    if i < es.len() - 1 {
        assert(es.drop_last()[i] == es[i]);
        lemma_fields_height(es.drop_last(), i);
    }
}

/// The place of a value given as plain values.
pub open spec fn place_of(top: bool, key: Option<Seq<char>>, index: nat, count: nat, dense: bool) -> Place {
    if top {
        Place::Top
    } else {
        Place::Item { key, index, count, dense }
    }
}

/// The key of an optional text.
pub open spec fn key_view(key: Option<&str>) -> Option<Seq<char>> {
    match key {
        Some(k) => Some(k@),
        None => None,
    }
}

fn text_element(t: &Vec<char>) -> (e: Element)
    ensures
        element_view(e) == ElementView::Text(t@),
{
    Element::Text { content: string_of(t) }
}

fn token_element(class: &Reference, t: &Vec<char>) -> (e: Element)
    ensures
        element_view(e) == token(*class, t@),
{
    Element::Token { class: class.duplicate(), content: string_of(t) }
}

fn literal(s: &str) -> (t: Vec<char>)
    ensures
        t@ == s@,
{
    let mut t: Vec<char> = Vec::new();
    extend_str(&mut t, s);
    t
}

fn quoted(s: &str) -> (t: Vec<char>)
    ensures
        t@ == "\""@ + s@ + "\""@,
{
    let mut t: Vec<char> = Vec::new();
    extend_str(&mut t, "\"");
    extend_str(&mut t, s);
    extend_str(&mut t, "\"");
    t
}

fn indentation(level: usize) -> (t: Vec<char>)
    ensures
        t@ == indent(level as nat),
{
    let mut t: Vec<char> = Vec::new();
    let mut k: usize = 0;
    while k < level
        invariant
            k <= level,
            t@ == indent(k as nat),
        decreases level - k,
    {
        extend_str(&mut t, "    ");
        k = k + 1;
    }
    t
}

fn push_element(out: &mut Vec<Element>, e: Element)
    ensures
        elements_view(final(out)@) == elements_view(old(out)@).push(element_view(e)),
{
    let ghost before = out@;
    let ghost ev = element_view(e);
    out.push(e);
    assert(out@.drop_last() =~= before);
}

fn append_elements(out: &mut Vec<Element>, more: Vec<Element>)
    ensures
        elements_view(final(out)@) == elements_view(old(out)@) + elements_view(more@),
{
    let ghost a = out@;
    let ghost b = more@;
    let mut rest = more;
    out.append(&mut rest);
    proof {
        lemma_elements_view_append(a, b);
    }
}

/// Whether the compact text of a string fits `budget` bytes, and what is
/// left of it.
fn string_fits(s: &str, budget: usize) -> (r: Option<usize>)
    ensures
        match r {
            Some(rest) => string_len(s@) <= budget && rest == budget - string_len(s@),
            None => string_len(s@) > budget,
        },
{
    if budget < 2 {
        proof {
            lemma_string_len_min(s@);
        }
        return None;
    }
    let chars = crate::text::chars_of(s);
    let mut rest: usize = budget - 2;
    let mut i: usize = 0;
    assert(chars@.take(0) =~= Seq::<char>::empty());
    while i < chars.len()
        invariant
            i <= chars.len(),
            chars@ == s@,
            rest + string_len(chars@.take(i as int)) == budget,
        decreases chars.len() - i,
    {
        let c = chars[i];
        let u = c as u32;
        let w: usize = if c == '"' || c == '\\' {
            2
        } else if c == '\u{8}' || c == '\t' || c == '\n' || c == '\u{c}' || c == '\r' {
            2
        } else if u < 0x20 {
            6
        } else if u < 0x80 {
            1
        } else if u < 0x800 {
            2
        } else if u < 0x10000 {
            3
        } else {
            4
        };
        assert(w == escaped_width(c));
        assert(chars@.take(i + 1).drop_last() =~= chars@.take(i as int));
        assert(chars@.take(i + 1).last() == c);
        if w > rest {
            proof {
                lemma_string_len_prefix(chars@, i + 1);
            }
            return None;
        }
        rest = rest - w;
        i = i + 1;
    }
    assert(chars@.take(i as int) =~= chars@);
    Some(rest)
}

proof fn lemma_string_len_min(s: Seq<char>)
    ensures
        string_len(s) >= 2,
    decreases s.len(),
{
    if s.len() > 0 {
        lemma_string_len_min(s.drop_last());
    }
}

proof fn lemma_string_len_prefix(s: Seq<char>, n: int)
    requires
        0 <= n <= s.len(),
    ensures
        string_len(s.take(n)) <= string_len(s),
    decreases s.len(),
{
    if n < s.len() {
        assert(s.drop_last().take(n) =~= s.take(n));
        lemma_string_len_prefix(s.drop_last(), n);
    } else {
        assert(s.take(n) =~= s);
    }
}

proof fn lemma_items_len_prefix(items: Seq<JsonView>, n: int)
    requires
        0 <= n <= items.len(),
    ensures
        items_len(items.take(n)) <= items_len(items),
    decreases items.len(),
{
    if n < items.len() {
        assert(items.drop_last().take(n) =~= items.take(n));
        lemma_items_len_prefix(items.drop_last(), n);
    } else {
        assert(items.take(n) =~= items);
    }
}

proof fn lemma_fields_len_prefix(es: Seq<(Seq<char>, JsonView)>, n: int)
    requires
        0 <= n <= es.len(),
    ensures
        fields_len(es.take(n)) <= fields_len(es),
    decreases es.len(),
{
    if n < es.len() {
        assert(es.drop_last().take(n) =~= es.take(n));
        lemma_fields_len_prefix(es.drop_last(), n);
    } else {
        assert(es.take(n) =~= es);
    }
}

/// Whether the compact text of `v` fits `budget` bytes, and what is left of
/// it.
fn fits(v: &Json, budget: usize) -> (r: Option<usize>)
    ensures
        match r {
            Some(rest) => serialized_len(v@) <= budget && rest == budget - serialized_len(v@),
            None => serialized_len(v@) > budget,
        },
    decreases v,
{
    match v {
        Json::Null => if budget >= 4 { Some(budget - 4) } else { None },
        Json::Bool(b) => {
            let n: usize = if *b { 4 } else { 5 };
            if budget >= n { Some(budget - n) } else { None }
        },
        Json::Number(n) => {
            let t = crate::text::chars_of(n.as_str());
            if budget >= t.len() { Some(budget - t.len()) } else { None }
        },
        Json::String(s) => string_fits(s.as_str(), budget),
        Json::Array(items) => {
            let ghost av = array_view(items@);
            proof {
                lemma_array_view(items@);
            }
            if budget < 2 {
                return None;
            }
            let mut rest: usize = budget - 2;
            let mut i: usize = 0;
            assert(av.take(0) =~= Seq::<JsonView>::empty());
            while i < items.len()
                invariant
                    i <= items.len(),
                    *v == Json::Array(*items),
                    av == array_view(items@),
                    av.len() == items.len(),
                    forall|j: int| 0 <= j < items.len() ==> #[trigger] av[j] == json_view(items@[j]),
                    rest + 2 + items_len(av.take(i as int)) == budget,
                decreases items.len() - i,
            {
                assert(av.take(i + 1).drop_last() =~= av.take(i as int));
                assert(av.take(i + 1).last() == av[i as int]);
                if i > 0 {
                    if rest == 0 {
                        proof {
                            lemma_items_len_prefix(av, i + 1);
                        }
                        return None;
                    }
                    rest = rest - 1;
                }
                proof {
                    assert((*v)->Array_0 == *items);
                    assert(decreases_to!(*v => (*v)->Array_0));
                    assert(decreases_to!(*items => items@));
                    assert(decreases_to!(items@ => items@[i as int]));
                }
                match fits(&items[i], rest) {
                    Some(left) => {
                        rest = left;
                    },
                    None => {
                        proof {
                            lemma_items_len_prefix(av, i + 1);
                        }
                        return None;
                    },
                }
                i = i + 1;
            }
            assert(av.take(i as int) =~= av);
            Some(rest)
        },
        Json::Object(es) => {
            let ghost ev = entries_view(es@);
            proof {
                lemma_entries_view(es@);
            }
            if budget < 2 {
                return None;
            }
            let mut rest: usize = budget - 2;
            let mut i: usize = 0;
            assert(ev.take(0) =~= Seq::<(Seq<char>, JsonView)>::empty());
            while i < es.len()
                invariant
                    i <= es.len(),
                    *v == Json::Object(*es),
                    ev == entries_view(es@),
                    ev.len() == es.len(),
                    forall|j: int| 0 <= j < es.len() ==> #[trigger] ev[j] == (es@[j].0@, json_view(es@[j].1)),
                    rest + 2 + fields_len(ev.take(i as int)) == budget,
                decreases es.len() - i,
            {
                assert(ev.take(i + 1).drop_last() =~= ev.take(i as int));
                assert(ev.take(i + 1).last() == ev[i as int]);
                if i > 0 {
                    if rest == 0 {
                        proof {
                            lemma_fields_len_prefix(ev, i + 1);
                        }
                        return None;
                    }
                    rest = rest - 1;
                }
                match string_fits(es[i].0.as_str(), rest) {
                    Some(left) => {
                        rest = left;
                    },
                    None => {
                        proof {
                            lemma_fields_len_prefix(ev, i + 1);
                        }
                        return None;
                    },
                }
                if rest == 0 {
                    proof {
                        lemma_fields_len_prefix(ev, i + 1);
                    }
                    return None;
                }
                rest = rest - 1;
                proof {
                    assert((*v)->Object_0 == *es);
                    assert(decreases_to!(*v => (*v)->Object_0));
                    assert(decreases_to!(*es => es@));
                    assert(decreases_to!(es@ => es@[i as int]));
                    assert(decreases_to!(es@[i as int] => es@[i as int].1));
                }
                match fits(&es[i].1, rest) {
                    Some(left) => {
                        rest = left;
                    },
                    None => {
                        proof {
                            lemma_fields_len_prefix(ev, i + 1);
                        }
                        return None;
                    },
                }
                i = i + 1;
            }
            assert(ev.take(i as int) =~= ev);
            Some(rest)
        },
    }
}

/// Whether `v` is laid out on one line within `width`.
fn is_dense(v: &Json, width: usize) -> (r: bool)
    ensures
        r == dense(v@, width as nat),
{
    let nonempty = match v {
        Json::Array(items) => items.len() > 0,
        Json::Object(es) => es.len() > 0,
        _ => false,
    };
    proof {
        lemma_array_view_len(v);
    }
    nonempty && fits(v, width).is_some()
}

proof fn lemma_array_view_len(v: &Json)
    ensures
        v@ matches JsonView::Array(items) ==> (*v matches Json::Array(xs) && items.len() == xs@.len()),
        v@ matches JsonView::Object(es) ==> (*v matches Json::Object(xs) && es.len() == xs@.len()),
{
    match v {
        Json::Array(xs) => lemma_array_view(xs@),
        Json::Object(xs) => lemma_entries_view(xs@),
        _ => {},
    }
}

/// The elements before a value in its parent.
fn lead(c: &Classes, depth: usize, key: Option<&str>, index: usize, parent_dense: bool, top: bool) -> (r: Vec<Element>)
    ensures
        elements_view(r@) == leading(*c, depth as nat, place_of(top, key_view(key), index as nat, 0, parent_dense)),
{
    let mut out: Vec<Element> = Vec::new();
    if top {
        return out;
    }
    if parent_dense && index > 0 {
        push_element(&mut out, text_element(&literal(", ")));
    } else if !parent_dense {
        push_element(&mut out, text_element(&indentation(depth)));
    }
    match key {
        Some(k) => {
            push_element(&mut out, token_element(&c.entity, &quoted(k)));
            push_element(&mut out, token_element(&c.punctuation, &literal(":")));
            push_element(&mut out, text_element(&literal(" ")));
        },
        None => {},
    }
    proof {
        let gap: Seq<ElementView> = if parent_dense && index > 0 {
            seq![ElementView::Text(", "@)]
        } else if !parent_dense {
            seq![ElementView::Text(indent(depth as nat))]
        } else {
            seq![]
        };
        match key {
            Some(k) => {
                assert(elements_view(out@) =~= gap + seq![token(c.entity, "\""@ + k@ + "\""@), token(c.punctuation, ":"@), ElementView::Text(" "@)]);
            },
            None => {
                assert(elements_view(out@) =~= gap);
            },
        }
    }
    out
}

/// The elements after a value in its parent.
fn trail(c: &Classes, v: &Json, width: usize, depth: usize, index: usize, count: usize, parent_dense: bool, top: bool) -> (r: Vec<Element>)
    requires
        !top ==> index < count,
    ensures
        elements_view(r@) == trailing(*c, v@, width as nat, depth as nat, place_of(top, None, index as nat, count as nat, parent_dense)),
{
    let mut out: Vec<Element> = Vec::new();
    let nonempty = match v {
        Json::Array(items) => items.len() > 0,
        Json::Object(es) => es.len() > 0,
        _ => false,
    };
    proof {
        lemma_array_view_len(v);
    }
    if nonempty {
        let bracket = match v {
            Json::Array(_) => "]",
            _ => "}",
        };
        if !is_dense(v, width) {
            push_element(&mut out, text_element(&indentation(depth)));
        }
        push_element(&mut out, token_element(&c.punctuation, &literal(bracket)));
    }
    let ghost close = elements_view(out@);
    if !top && !parent_dense {
        if index + 1 < count {
            push_element(&mut out, token_element(&c.punctuation, &literal(",")));
        }
        push_element(&mut out, text_element(&literal("\n")));
    }
    proof {
        let after: Seq<ElementView> = if top || parent_dense {
            seq![]
        } else if index + 1 < count {
            seq![token(c.punctuation, ","@), ElementView::Text("\n"@)]
        } else {
            seq![ElementView::Text("\n"@)]
        };
        assert(elements_view(out@) =~= close + after);
        if nonempty {
            if v@ is Array {
                assert(close =~= (if dense(v@, width as nat) { seq![token(c.punctuation, "]"@)] } else { seq![ElementView::Text(indent(depth as nat)), token(c.punctuation, "]"@)] }));
            } else {
                assert(close =~= (if dense(v@, width as nat) { seq![token(c.punctuation, "}"@)] } else { seq![ElementView::Text(indent(depth as nat)), token(c.punctuation, "}"@)] }));
            }
        } else {
            assert(close =~= Seq::<ElementView>::empty());
        }
    }
    out
}

/// The elements for `v` and everything around it in its parent.
fn node(c: &Classes, v: &Json, width: usize, depth: usize, key: Option<&str>, index: usize, count: usize, parent_dense: bool, top: bool) -> (r: Vec<Element>)
    requires
        depth + height(v@) < usize::MAX,
        !top ==> index < count,
        top ==> key is None,
    ensures
        elements_view(r@) == node_view(*c, v@, width as nat, depth as nat, place_of(top, key_view(key), index as nat, count as nat, parent_dense)),
    decreases v, 2int,
{
    let ghost place = place_of(top, key_view(key), index as nat, count as nat, parent_dense);
    let mut all = lead(c, depth, key, index, parent_dense, top);
    assert(leading(*c, depth as nat, place_of(top, key_view(key), index as nat, 0, parent_dense)) == leading(*c, depth as nat, place));
    let children = body(c, v, width, depth);
    let class = match v {
        Json::Array(_) => c.array.duplicate(),
        Json::Object(_) => c.object.duplicate(),
        _ => c.value.duplicate(),
    };
    let own = Element::Labeled { class, children };
    let ghost own_view = element_view(own);
    assert(own_view == ElementView::Labeled(class_view(group_class(*c, v@)), body_view(*c, v@, width as nat, depth as nat)));
    let ghost lead_view = elements_view(all@);
    push_element(&mut all, own);
    let after = trail(c, v, width, depth, index, count, parent_dense, top);
    assert(trailing(*c, v@, width as nat, depth as nat, place_of(top, None, index as nat, count as nat, parent_dense)) == trailing(*c, v@, width as nat, depth as nat, place));
    append_elements(&mut all, after);
    let ghost all_view = elements_view(all@);
    assert(all_view =~= leading(*c, depth as nat, place) + seq![own_view] + trailing(*c, v@, width as nat, depth as nat, place));
    match key {
        Some(_) => {
            let wrapped = Element::Labeled { class: c.property.duplicate(), children: all };
            let mut out: Vec<Element> = Vec::new();
            push_element(&mut out, wrapped);
            assert(elements_view(out@) =~= seq![ElementView::Labeled(class_view(c.property), all_view)]);
            out
        },
        None => all,
    }
}

/// The contents of the group around `v`.
fn body(c: &Classes, v: &Json, width: usize, depth: usize) -> (r: Vec<Element>)
    requires
        depth + height(v@) < usize::MAX,
    ensures
        elements_view(r@) == body_view(*c, v@, width as nat, depth as nat),
    decreases v, 1int,
{
    let mut out: Vec<Element> = Vec::new();
    match v {
        Json::Null => push_element(&mut out, token_element(&c.constant, &literal("null"))),
        Json::Bool(b) => {
            if *b {
                push_element(&mut out, token_element(&c.constant, &literal("true")));
            } else {
                push_element(&mut out, token_element(&c.constant, &literal("false")));
            }
        },
        Json::Number(n) => push_element(&mut out, token_element(&c.constant, &literal(n.as_str()))),
        Json::String(t) => push_element(&mut out, token_element(&c.string, &quoted(t.as_str()))),
        Json::Array(items) => {
            let ghost av = array_view(items@);
            proof {
                lemma_array_view(items@);
            }
            if items.len() == 0 {
                push_element(&mut out, token_element(&c.punctuation, &literal("[]")));
                assert(elements_view(out@) =~= seq![token(c.punctuation, "[]"@)]);
                return out;
            }
            let d = is_dense(v, width);
            push_element(&mut out, token_element(&c.punctuation, &literal("[")));
            if !d {
                push_element(&mut out, text_element(&literal("\n")));
            }
            let ghost head = elements_view(out@);
            let n = items.len();
            let mut i: usize = 0;
            assert(av.take(0) =~= Seq::<JsonView>::empty());
            assert(head + Seq::<ElementView>::empty() =~= head);
            while i < n
                invariant
                    i <= n,
                    n == items.len(),
                    *v == Json::Array(*items),
                    av == array_view(items@),
                    av.len() == items.len(),
                    forall|j: int| 0 <= j < items.len() ==> #[trigger] av[j] == json_view(items@[j]),
                    depth + height(v@) < usize::MAX,
                    elements_view(out@) == head + items_view(*c, av.take(i as int), width as nat, (depth + 1) as nat, d, n as nat),
                decreases n - i,
            {
                assert(av.take(i + 1).drop_last() =~= av.take(i as int));
                assert(av.take(i + 1).last() == av[i as int]);
                proof {
                    lemma_items_height(av, i as int);
                    assert((*v)->Array_0 == *items);
                    assert(decreases_to!(*v => (*v)->Array_0));
                    assert(decreases_to!(*items => items@));
                    assert(decreases_to!(items@ => items@[i as int]));
                }
                let more = node(c, &items[i], width, depth + 1, None, i, n, d, false);
                let ghost before = elements_view(out@);
                append_elements(&mut out, more);
                assert(before + node_view(*c, av[i as int], width as nat, (depth + 1) as nat, Place::Item { key: None, index: i as nat, count: n as nat, dense: d })
                    =~= head + items_view(*c, av.take(i + 1), width as nat, (depth + 1) as nat, d, n as nat));
                i = i + 1;
            }
            assert(av.take(i as int) =~= av);
            proof {
                let pre = if d { Seq::<ElementView>::empty() } else { seq![ElementView::Text("\n"@)] };
                assert(head =~= seq![token(c.punctuation, "["@)] + pre);
            }
        },
        Json::Object(es) => {
            let ghost ev = entries_view(es@);
            proof {
                lemma_entries_view(es@);
            }
            if es.len() == 0 {
                push_element(&mut out, token_element(&c.punctuation, &literal("{}")));
                assert(elements_view(out@) =~= seq![token(c.punctuation, "{}"@)]);
                return out;
            }
            let d = is_dense(v, width);
            push_element(&mut out, token_element(&c.punctuation, &literal("{")));
            if !d {
                push_element(&mut out, text_element(&literal("\n")));
            }
            let ghost head = elements_view(out@);
            let n = es.len();
            let mut i: usize = 0;
            assert(ev.take(0) =~= Seq::<(Seq<char>, JsonView)>::empty());
            assert(head + Seq::<ElementView>::empty() =~= head);
            while i < n
                invariant
                    i <= n,
                    n == es.len(),
                    *v == Json::Object(*es),
                    ev == entries_view(es@),
                    ev.len() == es.len(),
                    forall|j: int| 0 <= j < es.len() ==> #[trigger] ev[j] == (es@[j].0@, json_view(es@[j].1)),
                    depth + height(v@) < usize::MAX,
                    elements_view(out@) == head + fields_view(*c, ev.take(i as int), width as nat, (depth + 1) as nat, d, n as nat),
                decreases n - i,
            {
                assert(ev.take(i + 1).drop_last() =~= ev.take(i as int));
                assert(ev.take(i + 1).last() == ev[i as int]);
                proof {
                    lemma_fields_height(ev, i as int);
                    assert((*v)->Object_0 == *es);
                    assert(decreases_to!(*v => (*v)->Object_0));
                    assert(decreases_to!(*es => es@));
                    assert(decreases_to!(es@ => es@[i as int]));
                    assert(decreases_to!(es@[i as int] => es@[i as int].1));
                }
                let more = node(c, &es[i].1, width, depth + 1, Some(es[i].0.as_str()), i, n, d, false);
                let ghost before = elements_view(out@);
                append_elements(&mut out, more);
                assert(before + node_view(*c, ev[i as int].1, width as nat, (depth + 1) as nat, Place::Item { key: Some(ev[i as int].0), index: i as nat, count: n as nat, dense: d })
                    =~= head + fields_view(*c, ev.take(i + 1), width as nat, (depth + 1) as nat, d, n as nat));
                i = i + 1;
            }
            assert(ev.take(i as int) =~= ev);
            proof {
                let pre = if d { Seq::<ElementView>::empty() } else { seq![ElementView::Text("\n"@)] };
                assert(head =~= seq![token(c.punctuation, "{"@)] + pre);
            }
        },
    }
    out
}

/// The highlighted elements of a JSON value: arrays and objects whose
/// compact text is at most `width` bytes stay on one line.
pub fn elements(value: &Json, width: usize, classes: &Classes) -> (r: Vec<Element>)
    requires
        height(value@) < usize::MAX,
    ensures
        elements_view(r@) == node_view(*classes, value@, width as nat, 0, Place::Top),
{
    node(classes, value, width, 0, None, 0, 0, false, true)
}

/// Whether some element, at any depth, is a line break.
pub open spec fn breaks_line(es: Seq<ElementView>) -> bool
    decreases es,
{
    if es.len() == 0 {
        false
    } else {
        breaks_line(es.drop_last()) || match es.last() {
            ElementView::Text(t) => t == "\n"@,
            ElementView::Token(_, _) => false,
            ElementView::Labeled(_, cs) => breaks_line(cs),
            ElementView::Decorated(_, _, cs) => breaks_line(cs),
        }
    }
}

proof fn lemma_breaks_concat(a: Seq<ElementView>, b: Seq<ElementView>)
    ensures
        breaks_line(a + b) == (breaks_line(a) || breaks_line(b)),
    decreases b.len(),
{
    if b.len() == 0 {
        assert(a + b =~= a);
    } else {
        lemma_breaks_concat(a, b.drop_last());
        assert((a + b).drop_last() =~= a + b.drop_last());
        assert((a + b).last() == b.last());
    }
}

proof fn lemma_breaks_single(e: ElementView)
    ensures
        breaks_line(seq![e]) == match e {
            ElementView::Text(t) => t == "\n"@,
            ElementView::Token(_, _) => false,
            ElementView::Labeled(_, cs) => breaks_line(cs),
            ElementView::Decorated(_, _, cs) => breaks_line(cs),
        },
{
    assert(seq![e].drop_last() =~= Seq::<ElementView>::empty());
    assert(seq![e].last() == e);
    assert(!breaks_line(Seq::<ElementView>::empty()));
}

proof fn lemma_items_fit(items: Seq<JsonView>)
    ensures
        items.len() > 0 ==> serialized_len(items.last()) <= items_len(items),
        items.len() > 0 ==> items_len(items.drop_last()) <= items_len(items),
{
}

proof fn lemma_fields_fit(es: Seq<(Seq<char>, JsonView)>)
    ensures
        es.len() > 0 ==> serialized_len(es.last().1) <= fields_len(es),
        es.len() > 0 ==> fields_len(es.drop_last()) <= fields_len(es),
{
}

proof fn lemma_text_not_break(t: Seq<char>)
    requires
        t.len() != 1 || t[0] != '\n',
    ensures
        t != "\n"@,
{
    reveal_strlit("\n");
    if t == "\n"@ {
        assert(t.len() == 1 && t[0] == '\n');
    }
}

proof fn lemma_fitting_body(c: Classes, v: JsonView, width: nat, depth: nat)
    requires
        serialized_len(v) <= width,
    ensures
        !breaks_line(body_view(c, v, width, depth)),
    decreases v, 1int,
{
    match v {
        JsonView::Null => lemma_breaks_single(token(c.constant, "null"@)),
        JsonView::Bool(b) => lemma_breaks_single(token(c.constant, if b { "true"@ } else { "false"@ })),
        JsonView::Number(n) => lemma_breaks_single(token(c.constant, n)),
        JsonView::String(t) => lemma_breaks_single(token(c.string, "\""@ + t + "\""@)),
        JsonView::Array(items) => {
            if items.len() == 0 {
                lemma_breaks_single(token(c.punctuation, "[]"@));
            } else {
                let head = seq![token(c.punctuation, "["@)] + Seq::<ElementView>::empty();
                assert(head =~= seq![token(c.punctuation, "["@)]);
                lemma_breaks_single(token(c.punctuation, "["@));
                lemma_fitting_items(c, items, width, depth + 1, items.len());
                lemma_breaks_concat(head, items_view(c, items, width, depth + 1, true, items.len()));
            }
        },
        JsonView::Object(es) => {
            if es.len() == 0 {
                lemma_breaks_single(token(c.punctuation, "{}"@));
            } else {
                let head = seq![token(c.punctuation, "{"@)] + Seq::<ElementView>::empty();
                assert(head =~= seq![token(c.punctuation, "{"@)]);
                lemma_breaks_single(token(c.punctuation, "{"@));
                lemma_fitting_fields(c, es, width, depth + 1, es.len());
                lemma_breaks_concat(head, fields_view(c, es, width, depth + 1, true, es.len()));
            }
        },
    }
}

proof fn lemma_fitting_close(c: Classes, v: JsonView, width: nat, depth: nat, place: Place)
    requires
        serialized_len(v) <= width,
        place matches Place::Item { dense, .. } ==> dense,
    ensures
        !breaks_line(trailing(c, v, width, depth, place)),
{
    let close = if nonempty(v) {
        let bracket = if v is Array { "]"@ } else { "}"@ };
        lemma_breaks_single(token(c.punctuation, bracket));
        seq![token(c.punctuation, bracket)]
    } else {
        assert(breaks_line(Seq::<ElementView>::empty()) == false);
        Seq::<ElementView>::empty()
    };
    assert(trailing(c, v, width, depth, place) =~= close + Seq::<ElementView>::empty());
    lemma_breaks_concat(close, Seq::<ElementView>::empty());
}

proof fn lemma_fitting_node(c: Classes, v: JsonView, width: nat, depth: nat, place: Place)
    requires
        serialized_len(v) <= width,
        place matches Place::Item { dense, .. } ==> dense,
    ensures
        !breaks_line(node_view(c, v, width, depth, place)),
    decreases v, 2int,
{
    let own = ElementView::Labeled(class_view(group_class(c, v)), body_view(c, v, width, depth));
    lemma_fitting_body(c, v, width, depth);
    lemma_breaks_single(own);
    let lead = leading(c, depth, place);
    match place {
        Place::Top => {
            assert(lead =~= Seq::<ElementView>::empty());
        },
        Place::Item { key, index, .. } => {
            let gap = if index > 0 { seq![ElementView::Text(", "@)] } else { Seq::<ElementView>::empty() };
            if index > 0 {
                reveal_strlit(", ");
                lemma_text_not_break(", "@);
                lemma_breaks_single(ElementView::Text(", "@));
            }
            match key {
                Some(k) => {
                    let tail = seq![token(c.entity, "\""@ + k + "\""@), token(c.punctuation, ":"@), ElementView::Text(" "@)];
                    reveal_strlit(" ");
                    lemma_text_not_break(" "@);
                    let one = seq![token(c.entity, "\""@ + k + "\""@)];
                    let two = seq![token(c.punctuation, ":"@)];
                    let three = seq![ElementView::Text(" "@)];
                    lemma_breaks_single(token(c.entity, "\""@ + k + "\""@));
                    lemma_breaks_single(token(c.punctuation, ":"@));
                    lemma_breaks_single(ElementView::Text(" "@));
                    assert(tail =~= one + two + three);
                    lemma_breaks_concat(one, two);
                    lemma_breaks_concat(one + two, three);
                    lemma_breaks_concat(gap, tail);
                    assert(lead =~= gap + tail);
                },
                None => {
                    assert(lead =~= gap);
                },
            }
        },
    }
    let after = trailing(c, v, width, depth, place);
    lemma_fitting_close(c, v, width, depth, place);
    let all = lead + seq![own] + after;
    lemma_breaks_concat(lead, seq![own]);
    lemma_breaks_concat(lead + seq![own], after);
    match place {
        Place::Item { key: Some(_), .. } => {
            lemma_breaks_single(ElementView::Labeled(class_view(c.property), all));
        },
        _ => {},
    }
}

proof fn lemma_fitting_items(c: Classes, items: Seq<JsonView>, width: nat, depth: nat, count: nat)
    requires
        items_len(items) <= width,
    ensures
        !breaks_line(items_view(c, items, width, depth, true, count)),
    decreases items, 0int,
{
    if items.len() > 0 {
        lemma_items_fit(items);
        lemma_fitting_items(c, items.drop_last(), width, depth, count);
        let place = Place::Item { key: None, index: (items.len() - 1) as nat, count, dense: true };
        lemma_fitting_node(c, items.last(), width, depth, place);
        lemma_breaks_concat(items_view(c, items.drop_last(), width, depth, true, count), node_view(c, items.last(), width, depth, place));
    }
}

proof fn lemma_fitting_fields(c: Classes, es: Seq<(Seq<char>, JsonView)>, width: nat, depth: nat, count: nat)
    requires
        fields_len(es) <= width,
    ensures
        !breaks_line(fields_view(c, es, width, depth, true, count)),
    decreases es, 0int,
{
    if es.len() > 0 {
        lemma_fields_fit(es);
        lemma_fitting_fields(c, es.drop_last(), width, depth, count);
        let place = Place::Item { key: Some(es.last().0), index: (es.len() - 1) as nat, count, dense: true };
        lemma_fitting_node(c, es.last().1, width, depth, place);
        lemma_breaks_concat(fields_view(c, es.drop_last(), width, depth, true, count), node_view(c, es.last().1, width, depth, place));
    }
}

/// A value is laid out across lines exactly when it is a nonempty array or
/// object whose compact text is wider than the width; everything else,
/// nested values included, stays on one line.
pub proof fn lemma_one_line_when_fitting(c: Classes, v: JsonView, width: nat)
    ensures
        breaks_line(node_view(c, v, width, 0, Place::Top)) <==> (nonempty(v) && serialized_len(v) > width),
{
    let own = ElementView::Labeled(class_view(group_class(c, v)), body_view(c, v, width, 0));
    let after = trailing(c, v, width, 0, Place::Top);
    assert(node_view(c, v, width, 0, Place::Top) =~= seq![own] + after) by {
        assert(leading(c, 0, Place::Top) =~= Seq::<ElementView>::empty());
    }
    lemma_breaks_concat(seq![own], after);
    lemma_breaks_single(own);
    if serialized_len(v) <= width {
        lemma_fitting_body(c, v, width, 0);
        lemma_fitting_close(c, v, width, 0, Place::Top);
    } else if !nonempty(v) {
        assert(after =~= Seq::<ElementView>::empty());
        match v {
            JsonView::Null => lemma_breaks_single(token(c.constant, "null"@)),
            JsonView::Bool(b) => lemma_breaks_single(token(c.constant, if b { "true"@ } else { "false"@ })),
            JsonView::Number(n) => lemma_breaks_single(token(c.constant, n)),
            JsonView::String(t) => lemma_breaks_single(token(c.string, "\""@ + t + "\""@)),
            JsonView::Array(_) => lemma_breaks_single(token(c.punctuation, "[]"@)),
            JsonView::Object(_) => lemma_breaks_single(token(c.punctuation, "{}"@)),
        }
    } else {
        let body = body_view(c, v, width, 0);
        let open = if v is Array { "["@ } else { "{"@ };
        let start = seq![token(c.punctuation, open), ElementView::Text("\n"@)];
        let rest = match v {
            JsonView::Array(items) => items_view(c, items, width, 1, false, items.len()),
            JsonView::Object(es) => fields_view(c, es, width, 1, false, es.len()),
            _ => Seq::<ElementView>::empty(),
        };
        assert(body =~= start + rest);
        assert(start.drop_last() =~= seq![token(c.punctuation, open)]);
        lemma_breaks_concat(start, rest);
    }
}

} // verus!
