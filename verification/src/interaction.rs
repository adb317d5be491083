//! The decisions of the generated pages' scripts, apart from the document
//! they act on: how far a paged grid is revealed, which of the alternative
//! views of a difference shows next, which theme a toggle switches to, and
//! the failures of building the document.

use vstd::prelude::*;

verus! {

/// Failure of building the page document.
#[derive(Debug, Clone, PartialEq)]
pub enum Error {
    /// An element could not be created.
    Element { name: String },
    /// An attribute could not be set on an element.
    Attribute { key: String },
    /// A child could not be appended to its parent.
    Append,
    /// More closes than opens while emitting the document.
    Stack,
}

impl Error {
    /// The message of the error.
    pub fn message(&self) -> (m: String)
        ensures
            m@ == match self {
                Error::Element { name } => "failed to create element '"@ + name@ + "'"@,
                Error::Attribute { key } => "failed to set attribute '"@ + key@ + "' on element"@,
                Error::Append => "failed to append child to parent"@,
                Error::Stack => "emitter stack underflow"@,
            },
    {
        let mut out: Vec<char> = Vec::new();
        match self {
            Error::Element { name } => {
                crate::text::extend_str(&mut out, "failed to create element '");
                crate::text::extend_str(&mut out, name.as_str());
                crate::text::extend_str(&mut out, "'");
            },
            Error::Attribute { key } => {
                crate::text::extend_str(&mut out, "failed to set attribute '");
                crate::text::extend_str(&mut out, key.as_str());
                crate::text::extend_str(&mut out, "' on element");
            },
            Error::Append => {
                crate::text::extend_str(&mut out, "failed to append child to parent");
            },
            Error::Stack => {
                crate::text::extend_str(&mut out, "emitter stack underflow");
            },
        }
        crate::text::string_of(&out)
    }

    /// The help shown with the error.
    pub fn help(&self) -> (m: String)
        ensures
            m@ == match self {
                Error::Element { .. } => "ensure the document is valid"@,
                Error::Attribute { .. } => "ensure the attribute name is valid"@,
                Error::Append => "ensure the DOM tree is valid"@,
                Error::Stack => "ensure open and close calls are balanced"@,
            },
    {
        match self {
            Error::Element { .. } => String::from_str("ensure the document is valid"),
            Error::Attribute { .. } => String::from_str("ensure the attribute name is valid"),
            Error::Append => String::from_str("ensure the DOM tree is valid"),
            Error::Stack => String::from_str("ensure open and close calls are balanced"),
        }
    }
}

/// A grid of cards revealed a page at a time as the reader scrolls.
#[derive(Debug, Clone, Copy, PartialEq, Eq)]
pub struct Pages {
    pub capacity: u32,
    pub total: u32,
    pub revealed: u32,
}

/// The smaller of two counts.
pub open spec fn least(a: nat, b: nat) -> nat {
    if a < b {
        a
    } else {
        b
    }
}

/// How many cards are revealed after `steps` more pages are asked for, from
/// `revealed` of `total` cards, `capacity` to a page.
pub open spec fn revealed_after(capacity: nat, total: nat, revealed: nat, steps: nat) -> nat
    decreases steps,
{
    if steps == 0 || revealed >= total {
        revealed
    } else {
        revealed_after(capacity, total, least(revealed + capacity, total), (steps - 1) as nat)
    }
}

/// Scrolling reveals every card: from a page that shows no more than all
/// cards, asking for as many more pages as the hidden cards fill reveals
/// them all, and never more than all.
pub proof fn lemma_pages_reveal_all(capacity: nat, total: nat, revealed: nat, steps: nat)
    requires
        capacity > 0,
        revealed <= total,
        steps * capacity >= total - revealed,
    ensures
        revealed_after(capacity, total, revealed, steps) == total,
    decreases steps,
{
    if steps > 0 && revealed < total {
        let next = least(revealed + capacity, total);
        let fewer = (steps - 1) as nat;
        assert(fewer * capacity == steps * capacity - capacity) by (nonlinear_arith)
            requires
                steps > 0,
                fewer == steps - 1,
        ;
        assert(fewer * capacity >= total - next);
        lemma_pages_reveal_all(capacity, total, next, fewer);
        assert(revealed_after(capacity, total, revealed, steps) == revealed_after(capacity, total, next, fewer));
    } else if steps == 0 {
        assert(steps * capacity == 0) by (nonlinear_arith)
            requires
                steps == 0,
        ;
    }
}

/// However many pages are asked for, the revealed cards never exceed all
/// cards and never go back.
pub proof fn lemma_pages_bounded(capacity: nat, total: nat, revealed: nat, steps: nat)
    requires
        revealed <= total,
    ensures
        revealed <= revealed_after(capacity, total, revealed, steps) <= total,
    decreases steps,
{
    if steps > 0 && revealed < total {
        lemma_pages_bounded(capacity, total, least(revealed + capacity, total), (steps - 1) as nat);
    }
}

impl Pages {
    /// The first page of a grid of `total` cards, `capacity` to a page.
    pub fn new(capacity: u32, total: u32) -> (p: Pages)
        ensures
            p.capacity == capacity,
            p.total == total,
            p.revealed == least(capacity as nat, total as nat),
    {
        let revealed = if capacity < total {
            capacity
        } else {
            total
        };
        Pages { capacity, total, revealed }
    }

    /// Whether every card is revealed.
    pub fn complete(&self) -> (r: bool)
        ensures
            r == (self.revealed >= self.total),
    {
        self.revealed >= self.total
    }

    /// Reveals one more page, up to the last card, once not every card is
    /// revealed; returns where the newly revealed cards start.
    pub fn advance(&mut self) -> (previous: u32)
        requires
            old(self).revealed < old(self).total ==> old(self).revealed + old(self).capacity <= u32::MAX,
        ensures
            previous == old(self).revealed,
            final(self).capacity == old(self).capacity,
            final(self).total == old(self).total,
            final(self).revealed == if old(self).revealed >= old(self).total {
                old(self).revealed as nat
            } else {
                least((old(self).revealed + old(self).capacity) as nat, old(self).total as nat)
            },
            final(self).revealed == revealed_after(old(self).capacity as nat, old(self).total as nat, old(self).revealed as nat, 1),
    {
        let previous = self.revealed;
        proof {
            reveal_with_fuel(revealed_after, 2);
        }
        if self.revealed < self.total {
            let wanted = self.revealed + self.capacity;
            self.revealed = if wanted < self.total {
                wanted
            } else {
                self.total
            };
        }
        previous
    }

    /// Whether the card with this ordinal stays hidden.
    pub fn paged(&self, ordinal: u32) -> (r: bool)
        ensures
            r == (ordinal >= self.revealed),
    {
        ordinal >= self.revealed
    }
}

/// Which view of a difference hides and which shows after a click: the first
/// shown view (the first view where none shows) hides and the view after it,
/// round, shows. Fewer than two views do not rotate.
pub fn rotation(hidden: &Vec<bool>) -> (r: Option<(usize, usize)>)
    ensures
        hidden@.len() < 2 ==> r is None,
        hidden@.len() >= 2 ==> (r matches Some((current, next)) && {
            &&& current < hidden@.len()
            &&& (current == 0 || !hidden@[current as int])
            &&& forall|i: int| 0 <= i < current ==> hidden@[i]
            &&& (!hidden@[current as int] || forall|i: int| 0 <= i < hidden@.len() ==> hidden@[i])
            &&& next == (current + 1) % (hidden@.len() as int)
        }),
{
    if hidden.len() < 2 {
        return None;
    }
    let mut i: usize = 0;
    while i < hidden.len() && hidden[i]
        invariant
            i <= hidden.len(),
            forall|j: int| 0 <= j < i ==> hidden@[j],
        decreases hidden.len() - i,
    {
        i = i + 1;
    }
    let current = if i < hidden.len() {
        i
    } else {
        0
    };
    let next = (current + 1) % hidden.len();
    Some((current, next))
}

/// Whether the page shows dark: the saved theme says so, or none is saved and
/// the reader prefers dark.
pub open spec fn dark(saved: Option<Seq<char>>, prefers: bool) -> bool {
    saved == Some("dark"@) || (saved is None && prefers)
}

/// Whether the page shows dark.
pub fn is_dark(saved: Option<&str>, prefers: bool) -> (r: bool)
    ensures
        r == dark(
            match saved {
                Some(s) => Some(s@),
                None => None,
            },
            prefers,
        ),
{
    match saved {
        Some(s) => crate::starlark::same(s, "dark"),
        None => prefers,
    }
}

/// The theme a toggle switches to: light from dark, dark otherwise.
pub fn toggled(saved: Option<&str>, prefers: bool) -> (r: String)
    ensures
        r@ == if dark(
            match saved {
                Some(s) => Some(s@),
                None => None,
            },
            prefers,
        ) {
            "light"@
        } else {
            "dark"@
        },
{
    if is_dark(saved, prefers) {
        String::from_str("light")
    } else {
        String::from_str("dark")
    }
}

/// Whether `s` starts with `prefix`.
pub open spec fn starts_with(s: Seq<char>, prefix: Seq<char>) -> bool {
    prefix.len() <= s.len() && s.take(prefix.len() as int) == prefix
}

/// Whether `s` ends with `.html`, letters in either case.
pub open spec fn html_suffix(s: Seq<char>) -> bool {
    let n = s.len() as int;
    &&& n >= 5
    &&& s[n - 5] == '.'
    &&& (s[n - 4] == 'h' || s[n - 4] == 'H')
    &&& (s[n - 3] == 't' || s[n - 3] == 'T')
    &&& (s[n - 2] == 'm' || s[n - 2] == 'M')
    &&& (s[n - 1] == 'l' || s[n - 1] == 'L')
}

/// Whether a click on a link to `href` is handled in the page: not an
/// absolute web address, not an anchor in the page, and a page (`.html`) or
/// a directory (`/`).
pub open spec fn intercepted(href: Seq<char>) -> bool {
    !starts_with(href, "http://"@) && !starts_with(href, "https://"@) && !starts_with(href, "#"@)
        && (html_suffix(href) || (href.len() > 0 && href.last() == '/'))
}

/// Whether `href` stays on the site served from `origin`.
pub open spec fn stays_local(href: Seq<char>, origin: Seq<char>) -> bool {
    if starts_with(href, "/"@) || starts_with(href, "."@) || starts_with(href, "#"@) {
        true
    } else if starts_with(href, "http://"@) || starts_with(href, "https://"@) {
        starts_with(href, origin)
    } else {
        !crate::search::occurs(href, "://"@)
    }
}

fn begins_with(s: &Vec<char>, prefix: &str) -> (r: bool)
    ensures
        r == starts_with(s@, prefix@),
{
    let p = crate::text::chars_of(prefix);
    if p.len() > s.len() {
        return false;
    }
    let mut i: usize = 0;
    while i < p.len()
        invariant
            i <= p.len(),
            p.len() <= s.len(),
            p@ == prefix@,
            forall|j: int| 0 <= j < i ==> s@[j] == p@[j],
        decreases p.len() - i,
    {
        if s[i] != p[i] {
            assert(s@.take(p.len() as int)[i as int] == s@[i as int]);
            return false;
        }
        i = i + 1;
    }
    assert(s@.take(p.len() as int) =~= p@);
    true
}

/// Whether a click on a link to `href` is handled in the page.
pub fn intercepts(href: &str) -> (r: bool)
    ensures
        r == intercepted(href@),
{
    let s = crate::text::chars_of(href);
    if begins_with(&s, "http://") || begins_with(&s, "https://") || begins_with(&s, "#") {
        return false;
    }
    let n = s.len();
    let html = n >= 5 && s[n - 5] == '.' && (s[n - 4] == 'h' || s[n - 4] == 'H') && (s[n - 3] == 't' || s[n
        - 3] == 'T') && (s[n - 2] == 'm' || s[n - 2] == 'M') && (s[n - 1] == 'l' || s[n - 1] == 'L');
    html || (n > 0 && s[n - 1] == '/')
}

/// Whether `href` stays on the site served from `origin`.
pub fn local(href: &str, origin: &str) -> (r: bool)
    ensures
        r == stays_local(href@, origin@),
{
    let s = crate::text::chars_of(href);
    if begins_with(&s, "/") || begins_with(&s, ".") || begins_with(&s, "#") {
        return true;
    }
    if begins_with(&s, "http://") || begins_with(&s, "https://") {
        return begins_with(&s, origin);
    }
    let scheme = crate::text::chars_of("://");
    !crate::search::occurs_in(&s, &scheme)
}

/// The part of `href` after its last `#`, the element a page scrolls to.
pub open spec fn fragment_of(href: Seq<char>) -> Option<Seq<char>>
    decreases href.len(),
{
    if href.len() == 0 {
        None
    } else if href.last() == '#' {
        Some(seq![])
    } else {
        match fragment_of(href.drop_last()) {
            Some(f) => Some(f.push(href.last())),
            None => None,
        }
    }
}

/// The part of `href` after its last `#`, if it has one.
pub fn fragment(href: &str) -> (r: Option<String>)
    ensures
        match r {
            Some(f) => fragment_of(href@) == Some(f@),
            None => fragment_of(href@) is None,
        },
{
    let s = crate::text::chars_of(href);
    let mut i: usize = s.len();
    proof {
        assert(s@.take(i as int) =~= s@);
        assert(s@.skip(i as int) =~= Seq::<char>::empty());
        match fragment_of(s@) {
            Some(f) => {
                assert(f + Seq::<char>::empty() =~= f);
            },
            None => {},
        }
    }
    while i > 0 && s[i - 1] != '#'
        invariant
            i <= s.len(),
            s@ == href@,
            forall|j: int| i <= j < s.len() ==> s@[j] != '#',
            fragment_of(s@) == match fragment_of(s@.take(i as int)) {
                Some(f) => Some(f + s@.skip(i as int)),
                None => None::<Seq<char>>,
            },
        decreases i,
    {
        proof {
            let t = s@.take(i as int);
            assert(t.drop_last() =~= s@.take(i - 1));
            assert(t.last() == s@[i - 1]);
            assert(s@.skip(i - 1) =~= seq![s@[i - 1]] + s@.skip(i as int));
            match fragment_of(s@.take(i - 1)) {
                Some(f) => {
                    assert(f.push(s@[i - 1]) + s@.skip(i as int) =~= f + s@.skip(i - 1));
                },
                None => {},
            }
        }
        i = i - 1;
    }
    if i == 0 {
        assert(s@.take(0) =~= Seq::<char>::empty());
        return None;
    }
    let mut out: Vec<char> = Vec::new();
    let mut k: usize = i;
    while k < s.len()
        invariant
            i <= k <= s.len(),
            out@ == s@.subrange(i as int, k as int),
        decreases s.len() - k,
    {
        out.push(s[k]);
        k = k + 1;
        assert(out@ =~= s@.subrange(i as int, k as int));
    }
    proof {
        let t = s@.take(i as int);
        assert(t.last() == '#');
        assert(fragment_of(t) == Some(Seq::<char>::empty()));
        assert(Seq::<char>::empty() + s@.skip(i as int) =~= out@);
    }
    Some(crate::text::string_of(&out))
}

/// Whether a key press lands in a text field, where keys are typed rather
/// than acted on: its target is an `INPUT` or `TEXTAREA` element.
pub fn active(tag: Option<&str>) -> (r: bool)
    ensures
        r == match tag {
            Some(t) => t@ == "INPUT"@ || t@ == "TEXTAREA"@,
            None => false,
        },
{
    match tag {
        Some(t) => crate::starlark::same(t, "INPUT") || crate::starlark::same(t, "TEXTAREA"),
        None => false,
    }
}

/// Whether a key press collapses the expanded card: `Escape`, outside a
/// text field, with a card expanded.
pub fn dismisses(key: &str, editing: bool, expanded: bool) -> (r: bool)
    ensures
        r == (key@ == "Escape"@ && !editing && expanded),
{
    crate::starlark::same(key, "Escape") && !editing && expanded
}

/// The heading the reader is at: the last one with an id that has reached
/// the top of the view.
pub open spec fn reached(headings: Seq<(String, bool)>) -> Option<Seq<char>>
    decreases headings.len(),
{
    if headings.len() == 0 {
        None
    } else if headings.last().1 && headings.last().0@.len() > 0 {
        Some(headings.last().0@)
    } else {
        reached(headings.drop_last())
    }
}

/// The heading the reader is at, of headings given with their ids and
/// whether each has reached the top of the view.
pub fn current(headings: &Vec<(String, bool)>) -> (r: Option<String>)
    ensures
        match r {
            Some(id) => reached(headings@) == Some(id@),
            None => reached(headings@) is None,
        },
{
    let mut found: Option<String> = None;
    let mut i: usize = 0;
    while i < headings.len()
        invariant
            i <= headings.len(),
            match found {
                Some(id) => reached(headings@.take(i as int)) == Some(id@),
                None => reached(headings@.take(i as int)) is None,
            },
        decreases headings.len() - i,
    {
        assert(headings@.take(i + 1).drop_last() =~= headings@.take(i as int));
        assert(headings@.take(i + 1).last() == headings@[i as int]);
        if headings[i].1 && !headings[i].0.as_str().is_empty() {
            found = Some(headings[i].0.clone());
        }
        i = i + 1;
    }
    assert(headings@.take(i as int) =~= headings@);
    found
}

/// What becomes of the active mark on an outline link.
#[derive(Debug, Clone, Copy, PartialEq, Eq, Structural)]
pub enum Indicator {
    Add,
    Remove,
    Keep,
}

/// The mark of the outline link at `index` with target `href`: with no
/// heading reached only the first link is marked; otherwise the link to the
/// reached heading is marked and every other link unmarked.
pub open spec fn indicator_of(reached: Option<Seq<char>>, href: Seq<char>, index: int) -> Indicator {
    match reached {
        None => if index == 0 { Indicator::Add } else { Indicator::Keep },
        Some(id) => if href == seq!['#'] + id { Indicator::Add } else { Indicator::Remove },
    }
}

fn anchors(href: &str, id: &str) -> (r: bool)
    ensures
        r == (href@ == seq!['#'] + id@),
{
    let s = crate::text::chars_of(href);
    let t = crate::text::chars_of(id);
    if s.len() == 0 || s.len() - 1 != t.len() || s[0] != '#' {
        proof {
            if href@ == seq!['#'] + id@ {
                assert(s@[0] == '#');
            }
        }
        return false;
    }
    let mut i: usize = 0;
    while i < t.len()
        invariant
            s@ == href@,
            t@ == id@,
            s.len() == t.len() + 1,
            s@[0] == '#',
            i <= t.len(),
            forall|k: int| 0 <= k < i ==> s@[k + 1] == t@[k],
        decreases t.len() - i,
    {
        if s[i + 1] != t[i] {
            proof {
                if href@ == seq!['#'] + id@ {
                    assert(s@[i + 1] == (seq!['#'] + id@)[i + 1]);
                }
            }
            return false;
        }
        i = i + 1;
    }
    assert(s@ =~= seq!['#'] + t@);
    true
}

/// The marks of the outline links with targets `hrefs`, given the heading
/// the reader is at.
pub fn indicators(reached: Option<&str>, hrefs: &Vec<String>) -> (r: Vec<Indicator>)
    ensures
        r.len() == hrefs.len(),
        forall|i: int|
            0 <= i < hrefs.len() ==> r@[i] == indicator_of(
                match reached {
                    Some(id) => Some(id@),
                    None => None,
                },
                #[trigger] hrefs@[i]@,
                i,
            ),
{
    let ghost at: Option<Seq<char>> = match reached {
        Some(id) => Some(id@),
        None => None,
    };
    let mut out: Vec<Indicator> = Vec::new();
    let mut i: usize = 0;
    while i < hrefs.len()
        invariant
            i <= hrefs.len(),
            out.len() == i,
            at == match reached {
                Some(id) => Some(id@),
                None => None::<Seq<char>>,
            },
            forall|k: int| 0 <= k < i ==> out@[k] == indicator_of(at, #[trigger] hrefs@[k]@, k),
        decreases hrefs.len() - i,
    {
        let mark = match reached {
            None => if i == 0 { Indicator::Add } else { Indicator::Keep },
            Some(id) => if anchors(hrefs[i].as_str(), id) { Indicator::Add } else { Indicator::Remove },
        };
        out.push(mark);
        i = i + 1;
    }
    out
}

/// The target of a navigation link after moving between sites rooted at
/// `previous` and `current`: links under the previous root move under the
/// current one; nothing moves when the roots agree.
pub open spec fn rebased(href: Seq<char>, previous: Seq<char>, current: Seq<char>) -> Option<Seq<char>> {
    if previous != current && starts_with(href, previous) {
        Some(current + href.skip(previous.len() as int))
    } else {
        None
    }
}

/// The new target of a navigation link, where it moves.
pub fn rebase(href: &str, previous: &str, current: &str) -> (r: Option<String>)
    ensures
        match r {
            Some(h) => rebased(href@, previous@, current@) == Some(h@),
            None => rebased(href@, previous@, current@) is None,
        },
{
    if crate::starlark::same(previous, current) {
        return None;
    }
    let s = crate::text::chars_of(href);
    if !begins_with(&s, previous) {
        return None;
    }
    let p = crate::text::chars_of(previous);
    let mut out = crate::text::chars_of(current);
    let mut k: usize = p.len();
    while k < s.len()
        invariant
            p@ == previous@,
            p.len() <= k <= s.len(),
            out@ == current@ + s@.subrange(p.len() as int, k as int),
        decreases s.len() - k,
    {
        out.push(s[k]);
        k = k + 1;
        assert(out@ =~= current@ + s@.subrange(p.len() as int, k as int));
    }
    assert(s@.subrange(p.len() as int, s.len() as int) =~= s@.skip(previous@.len() as int));
    Some(crate::text::string_of(&out))
}

} // verus!
