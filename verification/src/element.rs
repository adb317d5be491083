//! The element tree that highlighters build: text, classed tokens and
//! classed groups of children.

use vstd::prelude::*;
use crate::imports::views;

verus! {

/// A class path such as `syntax punctuation section molten`.
#[derive(Debug, Clone, PartialEq)]
pub struct Reference {
    pub words: Vec<String>,
}

/// A node of highlighted output.
#[derive(Debug, PartialEq)]
pub enum Element {
    /// Plain text.
    Text { content: String },
    /// A leaf of text carrying a class.
    Token { class: Reference, content: String },
    /// A group of children carrying a class.
    Labeled { class: Reference, children: Vec<Element> },
    /// A group of children carrying a class and extra marker names.
    Decorated { class: Reference, names: Vec<String>, children: Vec<Element> },
}

/// The value of an element: its class words, text and children by value.
pub enum ElementView {
    Text(Seq<char>),
    Token(Seq<Seq<char>>, Seq<char>),
    Labeled(Seq<Seq<char>>, Seq<ElementView>),
    Decorated(Seq<Seq<char>>, Seq<Seq<char>>, Seq<ElementView>),
}

/// The words of a class.
pub open spec fn class_view(r: Reference) -> Seq<Seq<char>> {
    views(r.words@)
}

/// The value of an element.
pub open spec fn element_view(e: Element) -> ElementView
    decreases e,
{
    match e {
        Element::Text { content } => ElementView::Text(content@),
        Element::Token { class, content } => ElementView::Token(class_view(class), content@),
        Element::Labeled { class, children } => ElementView::Labeled(class_view(class), elements_view(children@)),
        Element::Decorated { class, names, children } => ElementView::Decorated(
            class_view(class),
            views(names@),
            elements_view(children@),
        ),
    }
}

/// The values of a list of elements.
pub open spec fn elements_view(s: Seq<Element>) -> Seq<ElementView>
    decreases s,
{
    if s.len() == 0 {
        seq![]
    } else {
        elements_view(s.drop_last()).push(element_view(s.last()))
    }
}

pub proof fn lemma_elements_view(s: Seq<Element>)
    ensures
        elements_view(s).len() == s.len(),
        forall|i: int| 0 <= i < s.len() ==> #[trigger] elements_view(s)[i] == element_view(s[i]),
    decreases s.len(),
{
    if s.len() > 0 {
        lemma_elements_view(s.drop_last());
    }
}

pub proof fn lemma_elements_view_append(a: Seq<Element>, b: Seq<Element>)
    ensures
        elements_view(a + b) == elements_view(a) + elements_view(b),
{
    lemma_elements_view(a);
    lemma_elements_view(b);
    lemma_elements_view(a + b);
    assert(elements_view(a + b) =~= elements_view(a) + elements_view(b));
}

impl Reference {
    /// A copy of the class.
    pub fn duplicate(&self) -> (r: Reference)
        ensures
            class_view(r) == class_view(*self),
    {
        let mut words: Vec<String> = Vec::new();
        let mut i: usize = 0;
        while i < self.words.len()
            invariant
                i <= self.words.len(),
                views(words@) == views(self.words@).take(i as int),
            decreases self.words.len() - i,
        {
            let ghost before = words@;
            words.push(self.words[i].clone());
            assert(views(words@) =~= views(before).push(self.words@[i as int]@));
            i = i + 1;
            assert(views(self.words@).take(i as int) =~= views(self.words@).take(i - 1).push(self.words@[i - 1]@));
        }
        assert(views(self.words@).take(i as int) =~= views(self.words@));
        Reference { words }
    }
}

impl Element {
    /// A plain text element.
    pub fn text(content: &str) -> (e: Element)
        ensures
            e matches Element::Text { content: c } && c@ == content@,
    {
        Element::Text { content: content.to_owned() }
    }

    /// A classed token.
    pub fn token(class: Reference, content: &str) -> (e: Element)
        ensures
            e matches Element::Token { class: k, content: c } && k == class && c@ == content@,
    {
        Element::Token { class, content: content.to_owned() }
    }

    /// A classed group of children.
    pub fn labeled(class: Reference, children: Vec<Element>) -> (e: Element)
        ensures
            e == (Element::Labeled { class, children }),
    {
        Element::Labeled { class, children }
    }

    /// A classed group of children with marker names.
    pub fn decorated(class: Reference, names: Vec<String>, children: Vec<Element>) -> (e: Element)
        ensures
            e == (Element::Decorated { class, names, children }),
    {
        Element::Decorated { class, names, children }
    }
}

} // verus!
