//! A stack of open element groups, used to build nested highlighted output.

use vstd::prelude::*;
use crate::element::Element;

verus! {

/// Failure of highlighted output assembly.
#[derive(Debug, PartialEq, Eq, Structural)]
pub enum Error {
    /// A group was closed that had not been opened.
    Stack,
}

impl Error {
    /// The message of the error.
    pub fn message(&self) -> (m: String)
        ensures
            m@ == "unbalanced highlight element stack"@,
    {
        match self {
            Error::Stack => String::from_str("unbalanced highlight element stack"),
        }
    }
}

/// The frames after adding `e` to the innermost one.
pub open spec fn pushed(fs: Seq<Seq<Element>>, e: Element) -> Seq<Seq<Element>> {
    if fs.len() == 0 {
        fs
    } else {
        fs.drop_last().push(fs.last().push(e))
    }
}

/// The frames after adding `es`, in order, to the innermost one.
pub open spec fn extended(fs: Seq<Seq<Element>>, es: Seq<Element>) -> Seq<Seq<Element>> {
    if fs.len() == 0 {
        fs
    } else {
        fs.drop_last().push(fs.last() + es)
    }
}

/// The frames after opening a new innermost one.
pub open spec fn opened(fs: Seq<Seq<Element>>) -> Seq<Seq<Element>> {
    fs.push(Seq::<Element>::empty())
}

/// The frames after closing the innermost one, if there is one.
pub open spec fn closed(fs: Seq<Seq<Element>>) -> Seq<Seq<Element>> {
    if fs.len() == 0 {
        fs
    } else {
        fs.drop_last()
    }
}

/// What closing the innermost frame hands back: its elements, or none.
pub open spec fn closing(fs: Seq<Seq<Element>>) -> Seq<Element> {
    if fs.len() == 0 {
        Seq::<Element>::empty()
    } else {
        fs.last()
    }
}

/// The failure after closing: a close without a frame is a stack failure.
pub open spec fn failure_after_close(fs: Seq<Seq<Element>>, f: Option<Error>) -> Option<Error> {
    if fs.len() == 0 {
        Some(Error::Stack)
    } else {
        f
    }
}

/// A stack of open groups of elements. The last frame receives new
/// elements; closing a frame hands its elements back.
pub struct Assembler {
    stack: Vec<Vec<Element>>,
    error: Option<Error>,
}

impl Default for Assembler {
    /// An assembler with one empty frame and no failure.
    fn default() -> (a: Assembler)
        ensures
            a.frames() == seq![Seq::<Element>::empty()],
            a.failure() is None,
    {
        Assembler::new()
    }
}

impl Assembler {
    /// The open frames, outermost first.
    pub closed spec fn frames(&self) -> Seq<Seq<Element>> {
        self.stack@.map_values(|f: Vec<Element>| f@)
    }

    /// The failure recorded so far, if any.
    pub closed spec fn failure(&self) -> Option<Error> {
        self.error
    }

    /// An assembler with one empty frame and no failure.
    pub fn new() -> (a: Assembler)
        ensures
            a.frames() == seq![Seq::<Element>::empty()],
            a.failure() is None,
    {
        let mut stack: Vec<Vec<Element>> = Vec::new();
        stack.push(Vec::new());
        let a = Assembler { stack, error: None };
        assert(a.frames() =~= seq![Seq::<Element>::empty()]);
        a
    }

    /// Adds an element to the innermost frame; without a frame nothing changes.
    pub fn push(&mut self, element: Element)
        ensures
            final(self).frames() == pushed(old(self).frames(), element),
            final(self).failure() == old(self).failure(),
    {
        if self.stack.len() > 0 {
            let mut top = self.stack.pop().unwrap();
            top.push(element);
            self.stack.push(top);
            assert(self.frames() =~= old(self).frames().drop_last().push(
                old(self).frames().last().push(element),
            ));
        }
    }

    /// Adds elements, in order, to the innermost frame; without a frame nothing changes.
    pub fn extend(&mut self, elements: Vec<Element>)
        ensures
            final(self).frames() == extended(old(self).frames(), elements@),
            final(self).failure() == old(self).failure(),
    {
        if self.stack.len() > 0 {
            let mut top = self.stack.pop().unwrap();
            let mut rest = elements;
            let ghost added = rest@;
            top.append(&mut rest);
            self.stack.push(top);
            assert(self.frames() =~= old(self).frames().drop_last().push(
                old(self).frames().last() + added,
            ));
        }
    }

    /// Opens a new, empty innermost frame.
    pub fn open(&mut self)
        ensures
            final(self).frames() == opened(old(self).frames()),
            final(self).failure() == old(self).failure(),
    {
        self.stack.push(Vec::new());
        assert(self.frames() =~= old(self).frames().push(Seq::<Element>::empty()));
    }

    /// Closes the innermost frame and returns its elements. Without a frame it
    /// records the stack failure and returns nothing.
    pub fn close(&mut self) -> (children: Vec<Element>)
        ensures
            children@ == closing(old(self).frames()),
            final(self).frames() == closed(old(self).frames()),
            final(self).failure() == failure_after_close(old(self).frames(), old(self).failure()),
    {
        if self.stack.len() > 0 {
            let children = self.stack.pop().unwrap();
            assert(self.frames() =~= old(self).frames().drop_last());
            children
        } else {
            self.error = Some(Error::Stack);
            let none: Vec<Element> = Vec::new();
            assert(none@ =~= Seq::<Element>::empty());
            none
        }
    }

    /// Hands back the innermost remaining frame (the only one when every
    /// opened frame was closed), or the recorded failure. The failure is
    /// cleared once reported.
    pub fn finish(&mut self) -> (r: Result<Vec<Element>, Error>)
        ensures
            old(self).failure() matches Some(e) ==> {
                &&& r == Err::<Vec<Element>, Error>(e)
                &&& final(self).failure() is None
                &&& final(self).frames() == old(self).frames()
            },
            old(self).failure() is None ==> {
                &&& r is Ok
                &&& final(self).failure() is None
                &&& old(self).frames().len() > 0 ==> {
                    &&& r->Ok_0@ == old(self).frames().last()
                    &&& final(self).frames() == old(self).frames().drop_last()
                }
                &&& old(self).frames().len() == 0 ==> {
                    &&& r->Ok_0@.len() == 0
                    &&& final(self).frames() == old(self).frames()
                }
            },
    {
        match self.error.take() {
            Some(error) => Err(error),
            None => {
                if self.stack.len() > 0 {
                    let top = self.stack.pop().unwrap();
                    assert(self.frames() =~= old(self).frames().drop_last());
                    Ok(top)
                } else {
                    Ok(Vec::new())
                }
            },
        }
    }
}

/// Opening a frame, filling it and closing it hands back exactly what was
/// put in and leaves the frames as they were.
pub proof fn lemma_open_extend_close(fs: Seq<Seq<Element>>, es: Seq<Element>)
    ensures
        closing(extended(opened(fs), es)) == es,
        closed(extended(opened(fs), es)) == fs,
{
    assert(opened(fs).drop_last() =~= fs);
    assert(Seq::<Element>::empty() + es =~= es);
    assert(extended(opened(fs), es).drop_last() =~= fs);
}

/// An element pushed into a freshly opened frame comes back, alone, when
/// that frame is closed; the frames are as before.
pub proof fn lemma_open_push_close(fs: Seq<Seq<Element>>, e: Element)
    ensures
        closing(pushed(opened(fs), e)) == seq![e],
        closed(pushed(opened(fs), e)) == fs,
{
    assert(opened(fs).drop_last() =~= fs);
    assert(Seq::<Element>::empty().push(e) =~= seq![e]);
    assert(pushed(opened(fs), e).drop_last() =~= fs);
}

/// One call on an assembler, as the laws below follow a run of them.
pub enum Step {
    Push(Element),
    Extend(Seq<Element>),
    Open,
    Close,
}

/// The frames after one step.
pub open spec fn step_frames(fs: Seq<Seq<Element>>, s: Step) -> Seq<Seq<Element>> {
    match s {
        Step::Push(e) => pushed(fs, e),
        Step::Extend(es) => extended(fs, es),
        Step::Open => opened(fs),
        Step::Close => closed(fs),
    }
}

/// The failure after one step.
pub open spec fn step_failure(fs: Seq<Seq<Element>>, f: Option<Error>, s: Step) -> Option<Error> {
    match s {
        Step::Close => failure_after_close(fs, f),
        _ => f,
    }
}

/// The frames after a run of steps.
pub open spec fn run_frames(fs: Seq<Seq<Element>>, steps: Seq<Step>) -> Seq<Seq<Element>>
    decreases steps.len(),
{
    if steps.len() == 0 {
        fs
    } else {
        step_frames(run_frames(fs, steps.drop_last()), steps.last())
    }
}

/// The failure after a run of steps.
pub open spec fn run_failure(fs: Seq<Seq<Element>>, f: Option<Error>, steps: Seq<Step>) -> Option<Error>
    decreases steps.len(),
{
    if steps.len() == 0 {
        f
    } else {
        step_failure(run_frames(fs, steps.drop_last()), run_failure(fs, f, steps.drop_last()), steps.last())
    }
}

/// How many of the steps open a frame.
pub open spec fn opens(steps: Seq<Step>) -> int
    decreases steps.len(),
{
    if steps.len() == 0 {
        0
    } else {
        opens(steps.drop_last()) + if steps.last() is Open { 1int } else { 0int }
    }
}

/// How many of the steps close a frame.
pub open spec fn closes(steps: Seq<Step>) -> int
    decreases steps.len(),
{
    if steps.len() == 0 {
        0
    } else {
        closes(steps.drop_last()) + if steps.last() is Close { 1int } else { 0int }
    }
}

/// The frames of a fresh assembler.
pub open spec fn fresh() -> Seq<Seq<Element>> {
    seq![Seq::<Element>::empty()]
}

/// From a fresh assembler, a run of calls in which no prefix closes more
/// frames than it opens plus the first one never fails, and leaves one frame
/// more than it closed beyond what it opened; a run in which some prefix
/// closes more than that ends with the stack failure, which `finish` then
/// reports.
pub proof fn lemma_balanced_run(steps: Seq<Step>)
    ensures
        (forall|k: int| 0 <= k <= steps.len() ==> #[trigger] closes(steps.take(k)) <= opens(steps.take(k)) + 1)
            ==> run_failure(fresh(), None, steps) is None && run_frames(fresh(), steps).len() == 1 + opens(steps)
            - closes(steps),
        (exists|k: int| 0 <= k <= steps.len() && #[trigger] closes(steps.take(k)) > opens(steps.take(k)) + 1)
            ==> run_failure(fresh(), None, steps) == Some(Error::Stack),
    decreases steps.len(),
{
    if steps.len() == 0 {
        assert(steps.take(0) =~= steps);
    } else {
        let init = steps.drop_last();
        let n = steps.len() as int;
        lemma_balanced_run(init);
        assert(steps.take(n) =~= steps);
        assert forall|k: int| 0 <= k <= init.len() implies #[trigger] init.take(k) == steps.take(k) by {
            assert(init.take(k) =~= steps.take(k));
        }
        let fs = run_frames(fresh(), init);
        if forall|k: int| 0 <= k <= steps.len() ==> #[trigger] closes(steps.take(k)) <= opens(steps.take(k)) + 1 {
            assert forall|k: int| 0 <= k <= init.len() implies #[trigger] closes(init.take(k)) <= opens(init.take(k)) + 1 by {
                assert(init.take(k) == steps.take(k));
            }
            assert(closes(steps.take(n)) <= opens(steps.take(n)) + 1);
            if fs.len() > 0 {
                assert(fs.drop_last().push(fs.last()).len() == fs.len());
            }
        }
        if exists|k: int| 0 <= k <= steps.len() && #[trigger] closes(steps.take(k)) > opens(steps.take(k)) + 1 {
            let k = choose|k: int| 0 <= k <= steps.len() && #[trigger] closes(steps.take(k)) > opens(steps.take(k)) + 1;
            if k < n {
                assert(init.take(k) == steps.take(k));
                assert(closes(init.take(k)) > opens(init.take(k)) + 1);
            } else if exists|j: int| 0 <= j <= init.len() && #[trigger] closes(init.take(j)) > opens(init.take(j)) + 1 {
            } else {
                assert forall|j: int| 0 <= j <= init.len() implies #[trigger] closes(init.take(j)) <= opens(init.take(j)) + 1 by {
                    if closes(init.take(j)) > opens(init.take(j)) + 1 {
                        assert(exists|j: int| 0 <= j <= init.len() && #[trigger] closes(init.take(j)) > opens(init.take(j)) + 1);
                    }
                }
                assert(closes(init.take(init.len() as int)) <= opens(init.take(init.len() as int)) + 1);
                assert(init.take(init.len() as int) =~= init);
            }
        }
    }
}

} // verus!
