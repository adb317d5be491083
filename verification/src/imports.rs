//! Grouping and deduplication of import paths for generated test modules, in
//! a trie keyed by path segment.

use vstd::prelude::*;
use crate::order::{precedes, str_precedes, lemma_precedes_irreflexive, lemma_precedes_transitive,
    lemma_precedes_total, lemma_precedes_asymmetric};
use crate::syntax::UseTree;
use crate::text::chars_of;

verus! {

/// Whether the strings are strictly increasing.
pub open spec fn increasing(keys: Seq<Seq<char>>) -> bool {
    forall|i: int, j: int| 0 <= i < j < keys.len() ==> precedes(keys[i], keys[j])
}

/// The values of a list of strings.
pub open spec fn views(v: Seq<String>) -> Seq<Seq<char>> {
    v.map_values(|s: String| s@)
}

/// A trie of import paths: the final segments stored at this level, and the
/// subtries under each leading segment.
pub struct ImportTrie {
    pub children: Vec<(String, ImportTrie)>,
    pub items: Vec<String>,
}

/// The keys of a list of subtries.
pub open spec fn keys(cs: Seq<(String, ImportTrie)>) -> Seq<Seq<char>> {
    cs.map_values(|c: (String, ImportTrie)| c.0@)
}

impl ImportTrie {
    /// Items and keys are each strictly increasing, at every level.
    pub open spec fn wf(self) -> bool
        decreases self,
    {
        &&& increasing(views(self.items@))
        &&& increasing(keys(self.children@))
        &&& forall|i: int| 0 <= i < self.children@.len() ==> (#[trigger] self.children@[i]).1.wf()
        &&& forall|i: int| 0 <= i < self.children@.len() ==> (#[trigger] self.children@[i]).1.occupied()
    }

    /// Whether the trie holds some path.
    pub open spec fn occupied(self) -> bool {
        exists|q: Seq<Seq<char>>| self.holds(q)
    }

    /// Whether the trie holds the path `p`.
    pub open spec fn holds(self, p: Seq<Seq<char>>) -> bool
        decreases self,
    {
        ||| (p.len() == 1 && views(self.items@).contains(p[0]))
        ||| (p.len() >= 2 && exists|i: int|
            0 <= i < self.children@.len() && (#[trigger] self.children@[i]).0@ == p[0]
                && self.children@[i].1.holds(p.drop_first()))
    }

    /// The paths of the trie, each after `prefix`: the items of this level in
    /// order, then the paths of each subtrie in order.
    pub open spec fn listing(self, prefix: Seq<Seq<char>>) -> Seq<Seq<Seq<char>>>
        decreases self,
    {
        views(self.items@).map_values(|i: Seq<char>| prefix.push(i)) + children_listing(
            self.children@,
            prefix,
        )
    }
}

/// The paths of a list of subtries, in order, each subtrie's after `prefix`
/// and its key.
pub open spec fn children_listing(cs: Seq<(String, ImportTrie)>, prefix: Seq<Seq<char>>) -> Seq<Seq<Seq<char>>>
    decreases cs,
{
    if cs.len() == 0 {
        seq![]
    } else {
        children_listing(cs.drop_last(), prefix) + cs.last().1.listing(prefix.push(cs.last().0@))
    }
}

/// Where `needle` first occurs in `s` at or after `from`, if it does.
pub open spec fn find_from(s: Seq<char>, needle: Seq<char>, from: int) -> Option<int>
    decreases s.len() + 1 - from,
{
    if from < 0 || from + needle.len() > s.len() {
        None
    } else if s.subrange(from, from + needle.len()) == needle {
        Some(from)
    } else {
        find_from(s, needle, from + 1)
    }
}

/// The pieces of `s` between occurrences of `::`, left to right, as
/// `str::split` gives them.
pub open spec fn split_path(s: Seq<char>) -> Seq<Seq<char>>
    decreases s.len(),
{
    match find_from(s, seq![':', ':'], 0) {
        Some(i) => if 0 <= i && i + 2 <= s.len() {
            seq![s.subrange(0, i)] + split_path(s.subrange(i + 2, s.len() as int))
        } else {
            seq![s]
        },
        None => seq![s],
    }
}

pub proof fn lemma_find_from(s: Seq<char>, needle: Seq<char>, from: int)
    requires
        0 <= from,
    ensures
        find_from(s, needle, from) matches Some(i) ==> from <= i && i + needle.len() <= s.len()
            && s.subrange(i, i + needle.len()) == needle,
        find_from(s, needle, from) matches Some(i) ==> forall|k: int|
            from <= k < i ==> #[trigger] s.subrange(k, k + needle.len()) != needle,
        find_from(s, needle, from) is None ==> forall|k: int|
            from <= k && k + needle.len() <= s.len() ==> #[trigger] s.subrange(k, k + needle.len()) != needle,
    decreases s.len() + 1 - from,
{
    if from + needle.len() <= s.len() && s.subrange(from, from + needle.len()) != needle {
        lemma_find_from(s, needle, from + 1);
    }
}

/// Splits a path at each `::`.
pub fn split(path: &str) -> (segments: Vec<String>)
    ensures
        views(segments@) == split_path(path@),
{
    let chars = chars_of(path);
    let ghost s = chars@;
    let ghost sep = seq![':', ':'];
    let mut segments: Vec<String> = Vec::new();
    let mut start: usize = 0;
    let mut piece: Vec<char> = Vec::new();
    let mut i: usize = 0;
    assert(s.subrange(0, s.len() as int) =~= s);
    assert(views(segments@) =~= Seq::<Seq<char>>::empty());
    assert(views(segments@) + split_path(s) =~= split_path(s));
    while i < chars.len()
        invariant
            s == chars@,
            s == path@,
            sep == seq![':', ':'],
            start <= i <= s.len(),
            piece@ == s.subrange(start as int, i as int),
            forall|k: int| start <= k < i && k + 2 <= s.len() ==> #[trigger] s.subrange(k, k + 2) != sep,
            views(segments@) + split_path(s.subrange(start as int, s.len() as int)) == split_path(s),
        decreases s.len() - i,
    {
        if i + 1 < chars.len() && chars[i] == ':' && chars[i + 1] == ':' {
            let ghost rest = s.subrange(start as int, s.len() as int);
            assert(rest.subrange(i - start, i - start + 2) =~= sep);
            proof {
                lemma_find_from(rest, sep, 0);
                assert forall|k: int| 0 <= k < i - start implies #[trigger] rest.subrange(k, k + 2) != sep by {
                    assert(rest.subrange(k, k + 2) =~= s.subrange(start + k, start + k + 2));
                }
                if let Some(j) = find_from(rest, sep, 0) {
                    if j < i - start {
                        assert(rest.subrange(j, j + 2) =~= s.subrange(start + j, start + j + 2));
                    }
                }
                assert(find_from(rest, sep, 0) == Some((i - start) as int));
                assert(rest.subrange(0, i - start) =~= piece@);
                assert(rest.subrange(i - start + 2, rest.len() as int) =~= s.subrange(i + 2, s.len() as int));
            }
            let word = crate::text::string_of(&piece);
            let ghost before = segments@;
            segments.push(word);
            assert(views(segments@) =~= views(before).push(piece@));
            assert(views(segments@) + split_path(s.subrange(i + 2, s.len() as int)) =~= views(before)
                + split_path(rest));
            piece = Vec::new();
            i = i + 2;
            start = i;
            assert(piece@ =~= s.subrange(start as int, i as int));
        } else {
            piece.push(chars[i]);
            proof {
                if i + 1 < s.len() {
                    assert(s.subrange(i as int, i + 2) != sep) by {
                        if s.subrange(i as int, i + 2) == sep {
                            assert(s.subrange(i as int, i + 2)[0] == s[i as int]);
                            assert(s.subrange(i as int, i + 2)[1] == s[i + 1]);
                        }
                    }
                }
            }
            i = i + 1;
            assert(piece@ =~= s.subrange(start as int, i as int));
        }
    }
    let ghost rest = s.subrange(start as int, s.len() as int);
    proof {
        lemma_find_from(rest, sep, 0);
        if let Some(j) = find_from(rest, sep, 0) {
            assert(rest.subrange(j, j + 2) =~= s.subrange(start + j, start + j + 2));
        }
        assert(rest =~= piece@);
    }
    let word = crate::text::string_of(&piece);
    let ghost before = segments@;
    segments.push(word);
    assert(views(segments@) =~= views(before) + split_path(rest));
    segments
}


pub proof fn lemma_insert_increasing(ks: Seq<Seq<char>>, j: int, key: Seq<char>)
    requires
        increasing(ks),
        0 <= j <= ks.len(),
        forall|k: int| 0 <= k < j ==> precedes(#[trigger] ks[k], key),
        j == ks.len() || precedes(key, ks[j]),
    ensures
        increasing(ks.insert(j, key)),
{
    let r = ks.insert(j, key);
    assert forall|a: int, b: int| 0 <= a < b < r.len() implies precedes(r[a], r[b]) by {
        if a < j && b < j {
        } else if a < j && b == j {
        } else if a < j && b > j {
            lemma_precedes_transitive(ks[a], key, ks[j]);
            if b - 1 > j {
                lemma_precedes_transitive(ks[a], ks[j], ks[b - 1]);
            }
        } else if a == j {
            if b - 1 > j {
                lemma_precedes_transitive(key, ks[j], ks[b - 1]);
            }
        } else {
        }
    }
}

/// Where `key` belongs in the increasing `ks`: the first position whose key
/// does not come before it.
pub open spec fn position_ok(ks: Seq<Seq<char>>, j: int, key: Seq<char>) -> bool {
    &&& 0 <= j <= ks.len()
    &&& forall|k: int| 0 <= k < j ==> precedes(#[trigger] ks[k], key)
    &&& j < ks.len() ==> !precedes(ks[j], key)
}

fn item_position(items: &Vec<String>, key: &str) -> (j: usize)
    ensures
        position_ok(views(items@), j as int, key@),
{
    let ghost ks = views(items@);
    let mut j: usize = 0;
    while j < items.len() && str_precedes(items[j].as_str(), key)
        invariant
            ks == views(items@),
            0 <= j <= items.len(),
            forall|k: int| 0 <= k < j ==> precedes(#[trigger] ks[k], key@),
        decreases items.len() - j,
    {
        j = j + 1;
    }
    j
}

fn child_position(children: &Vec<(String, ImportTrie)>, key: &str) -> (j: usize)
    ensures
        position_ok(keys(children@), j as int, key@),
{
    let ghost ks = keys(children@);
    let mut j: usize = 0;
    while j < children.len() && str_precedes(children[j].0.as_str(), key)
        invariant
            ks == keys(children@),
            0 <= j <= children.len(),
            forall|k: int| 0 <= k < j ==> precedes(#[trigger] ks[k], key@),
        decreases children.len() - j,
    {
        j = j + 1;
    }
    j
}

proof fn lemma_position_found(ks: Seq<Seq<char>>, j: int, key: Seq<char>)
    requires
        increasing(ks),
        position_ok(ks, j, key),
    ensures
        ks.contains(key) <==> (j < ks.len() && ks[j] == key),
        !(j < ks.len() && ks[j] == key) ==> (j == ks.len() || precedes(key, ks[j])),
{
    if j < ks.len() && ks[j] != key {
        lemma_precedes_total(key, ks[j]);
    }
    if ks.contains(key) {
        let m = choose|m: int| 0 <= m < ks.len() && ks[m] == key;
        if m < j {
            lemma_precedes_irreflexive(key);
        } else if m > j && j < ks.len() {
            if ks[j] != key {
                lemma_precedes_transitive(key, ks[j], key);
                lemma_precedes_irreflexive(key);
            }
        }
    }
}

impl Default for ImportTrie {
    /// An empty trie.
    fn default() -> (t: ImportTrie)
        ensures
            t.wf(),
            forall|p: Seq<Seq<char>>| !t.holds(p),
            t.listing(seq![]) == Seq::<Seq<Seq<char>>>::empty(),
    {
        ImportTrie::new()
    }
}

impl ImportTrie {
    /// An empty trie.
    pub fn new() -> (t: ImportTrie)
        ensures
            t.children@.len() == 0,
            t.items@.len() == 0,
            t.wf(),
            forall|p: Seq<Seq<char>>| !t.holds(p),
            t.listing(seq![]) == Seq::<Seq<Seq<char>>>::empty(),
    {
        let t = ImportTrie { children: Vec::new(), items: Vec::new() };
        assert(views(t.items@) =~= Seq::<Seq<char>>::empty());
        assert(keys(t.children@) =~= Seq::<Seq<char>>::empty());
        assert(t.listing(seq![]) =~= Seq::<Seq<Seq<char>>>::empty());
        t
    }

    /// Inserts the path made of `segments` from `from` on.
    pub fn insert_from(&mut self, segments: &Vec<String>, from: usize)
        requires
            old(self).wf(),
            from < segments.len(),
        ensures
            final(self).wf(),
            forall|p: Seq<Seq<char>>| #[trigger] final(self).holds(p) == (old(self).holds(p) || p
                == views(segments@).skip(from as int)),
        decreases segments.len() - from,
    {
        let ghost path = views(segments@).skip(from as int);
        let key = segments[from].as_str();
        assert(path[0] == key@);
        if from + 1 == segments.len() {
            let j = item_position(&self.items, key);
            proof {
                lemma_position_found(views(self.items@), j as int, key@);
            }
            if j < self.items.len() && crate::starlark::same(self.items[j].as_str(), key) {
                assert(views(self.items@).contains(key@));
                assert forall|p: Seq<Seq<char>>| #[trigger] self.holds(p) == (old(self).holds(p)
                    || p == path) by {
                    if p == path {
                        assert(path.len() == 1);
                    }
                }
            } else {
                let ghost before = views(self.items@);
                self.items.insert(j, key.to_owned());
                assert(views(self.items@) =~= before.insert(j as int, key@));
                proof {
                    lemma_insert_increasing(before, j as int, key@);
                }
                assert forall|p: Seq<Seq<char>>| #[trigger] self.holds(p) == (old(self).holds(p)
                    || p == path) by {
                    if p.len() == 1 {
                        if views(self.items@).contains(p[0]) && p[0] != key@ {
                            let m = choose|m: int| 0 <= m < views(self.items@).len() && views(self.items@)[m] == p[0];
                            if m < j {
                                assert(before[m] == p[0]);
                            } else {
                                assert(before[m - 1] == p[0]);
                            }
                        }
                        if before.contains(p[0]) {
                            let m = choose|m: int| 0 <= m < before.len() && before[m] == p[0];
                            if m < j {
                                assert(views(self.items@)[m] == p[0]);
                            } else {
                                assert(views(self.items@)[m + 1] == p[0]);
                            }
                        }
                        if p[0] == key@ {
                            assert(views(self.items@)[j as int] == key@);
                        }
                        if p == path || p.len() == 1 && p[0] == key@ {
                            assert(p =~= path);
                        }
                    }
                    if p.len() >= 2 {
                        assert(self.children@ == old(self).children@);
                    }
                }
            }
        } else {
            let ghost old_children = self.children@;
            let ghost ks = keys(self.children@);
            let j = child_position(&self.children, key);
            proof {
                lemma_position_found(ks, j as int, key@);
            }
            let ghost rest = views(segments@).skip(from + 1);
            assert(path.drop_first() =~= rest);
            if j < self.children.len() && crate::starlark::same(self.children[j].0.as_str(), key) {
                let (k, mut child) = self.children.remove(j);
                assert(old_children[j as int].1.wf());
                assert(old_children[j as int].1.occupied());
                let ghost held = choose|q: Seq<Seq<char>>| old_children[j as int].1.holds(q);
                child.insert_from(segments, from + 1);
                assert(child.holds(held));
                self.children.insert(j, (k, child));
                assert(self.children@ =~= old_children.update(j as int, (k, child)));
                assert(keys(self.children@) =~= ks);
                assert forall|i: int| 0 <= i < self.children@.len() implies (#[trigger] self.children@[i]).1.wf() by {
                    if i != j {
                        assert(self.children@[i] == old_children[i]);
                    }
                }
                assert forall|i: int| 0 <= i < self.children@.len() implies (#[trigger] self.children@[i]).1.occupied() by {
                    if i != j {
                        assert(self.children@[i] == old_children[i]);
                    } else {
                        assert(self.children@[i].1.holds(held));
                    }
                }
                assert forall|p: Seq<Seq<char>>| #[trigger] self.holds(p) == (old(self).holds(p)
                    || p == path) by {
                    if p.len() >= 2 {
                        if exists|i: int| 0 <= i < self.children@.len() && (#[trigger] self.children@[i]).0@ == p[0]
                            && self.children@[i].1.holds(p.drop_first()) {
                            let i = choose|i: int| 0 <= i < self.children@.len() && (#[trigger] self.children@[i]).0@ == p[0]
                                && self.children@[i].1.holds(p.drop_first());
                            if i != j {
                                assert(old_children[i] == self.children@[i]);
                            } else {
                                assert(old_children[j as int].0@ == p[0]);
                            }
                        }
                        if old(self).holds(p) {
                            let i = choose|i: int| 0 <= i < old_children.len() && (#[trigger] old_children[i]).0@ == p[0]
                                && old_children[i].1.holds(p.drop_first());
                            assert(self.children@[i].0@ == p[0]);
                        }
                        if p == path {
                            assert(self.children@[j as int].0@ == p[0]);
                            assert(p.drop_first() == rest);
                        }
                        if exists|i: int| 0 <= i < self.children@.len() && (#[trigger] self.children@[i]).0@ == p[0]
                            && self.children@[i].1.holds(p.drop_first()) {
                            let i = choose|i: int| 0 <= i < self.children@.len() && (#[trigger] self.children@[i]).0@ == p[0]
                                && self.children@[i].1.holds(p.drop_first());
                            if i == j && !old_children[j as int].1.holds(p.drop_first()) {
                                assert(p.drop_first() == rest);
                                lemma_same_path(p, path);
                            }
                        }
                    } else if p == path {
                        assert(path.len() >= 2);
                    }
                }
            } else {
                let mut child = ImportTrie::new();
                child.insert_from(segments, from + 1);
                assert(child.holds(rest));
                self.children.insert(j, (key.to_owned(), child));
                assert forall|i: int| 0 <= i < self.children@.len() implies (#[trigger] self.children@[i]).1.occupied() by {
                    if i < j {
                        assert(self.children@[i] == old_children[i]);
                    } else if i > j {
                        assert(self.children@[i] == old_children[i - 1]);
                    } else {
                        assert(self.children@[i].1.holds(rest));
                    }
                }
                assert(keys(self.children@) =~= ks.insert(j as int, key@));
                proof {
                    lemma_insert_increasing(ks, j as int, key@);
                }
                assert forall|i: int| 0 <= i < self.children@.len() implies (#[trigger] self.children@[i]).1.wf() by {
                    if i < j {
                        assert(self.children@[i] == old_children[i]);
                    } else if i > j {
                        assert(self.children@[i] == old_children[i - 1]);
                    }
                }
                assert forall|p: Seq<Seq<char>>| #[trigger] self.holds(p) == (old(self).holds(p)
                    || p == path) by {
                    if p.len() >= 2 {
                        if exists|i: int| 0 <= i < self.children@.len() && (#[trigger] self.children@[i]).0@ == p[0]
                            && self.children@[i].1.holds(p.drop_first()) {
                            let i = choose|i: int| 0 <= i < self.children@.len() && (#[trigger] self.children@[i]).0@ == p[0]
                                && self.children@[i].1.holds(p.drop_first());
                            if i < j {
                                assert(old_children[i] == self.children@[i]);
                            } else if i > j {
                                assert(old_children[i - 1] == self.children@[i]);
                            } else {
                                assert(p.drop_first() == rest);
                                lemma_same_path(p, path);
                            }
                        }
                        if old(self).holds(p) {
                            let i = choose|i: int| 0 <= i < old_children.len() && (#[trigger] old_children[i]).0@ == p[0]
                                && old_children[i].1.holds(p.drop_first());
                            if i < j {
                                assert(self.children@[i] == old_children[i]);
                            } else {
                                assert(self.children@[i + 1] == old_children[i]);
                            }
                        }
                        if p == path {
                            assert(self.children@[j as int].0@ == p[0]);
                            assert(p.drop_first() == rest);
                        }
                    } else if p == path {
                        assert(path.len() >= 2);
                    }
                }
            }
        }
    }

    /// Inserts the path made of `segments`; nothing changes for an empty list.
    pub fn insert_segments(&mut self, segments: &Vec<String>)
        requires
            old(self).wf(),
        ensures
            final(self).wf(),
            segments@.len() == 0 ==> *final(self) == *old(self),
            segments@.len() > 0 ==> forall|p: Seq<Seq<char>>| #[trigger] final(self).holds(p) == (
            old(self).holds(p) || p == views(segments@)),
    {
        if segments.len() > 0 {
            self.insert_from(segments, 0);
            assert(views(segments@).skip(0) == views(segments@));
        }
    }

    /// Inserts a `::`-separated path.
    pub fn insert(&mut self, path: &str)
        requires
            old(self).wf(),
        ensures
            final(self).wf(),
            forall|p: Seq<Seq<char>>| #[trigger] final(self).holds(p) == (old(self).holds(p) || p
                == split_path(path@)),
    {
        let segments = split(path);
        proof {
            lemma_split_nonempty(path@);
        }
        self.insert_segments(&segments);
    }
}

/// The values of a list of paths.
pub open spec fn path_views(v: Seq<Vec<String>>) -> Seq<Seq<Seq<char>>> {
    v.map_values(|p: Vec<String>| views(p@))
}

/// A copy of a path.
fn copy_path(path: &Vec<String>) -> (r: Vec<String>)
    ensures
        views(r@) == views(path@),
{
    let mut r: Vec<String> = Vec::new();
    let mut k: usize = 0;
    while k < path.len()
        invariant
            k <= path.len(),
            views(r@) == views(path@).take(k as int),
        decreases path.len() - k,
    {
        let ghost before = r@;
        r.push(path[k].clone());
        assert(views(r@) =~= views(before).push(path@[k as int]@));
        k = k + 1;
        assert(views(path@).take(k as int) =~= views(path@).take(k - 1).push(path@[k - 1]@));
    }
    assert(views(path@).take(k as int) =~= views(path@));
    r
}

proof fn lemma_children_listing_step(cs: Seq<(String, ImportTrie)>, prefix: Seq<Seq<char>>, k: int)
    requires
        0 <= k < cs.len(),
    ensures
        children_listing(cs.take(k + 1), prefix) == children_listing(cs.take(k), prefix)
            + cs[k].1.listing(prefix.push(cs[k].0@)),
{
    assert(cs.take(k + 1).drop_last() =~= cs.take(k));
}

impl ImportTrie {
    /// Appends every path of the trie, each after `prefix`, to `out`: first
    /// the items of this level in order, then the paths of each subtrie in
    /// the order of their keys. `prefix` is left as it was.
    pub fn collect_paths(&self, prefix: &mut Vec<String>, out: &mut Vec<Vec<String>>)
        ensures
            views(final(prefix)@) == views(old(prefix)@),
            path_views(final(out)@) == path_views(old(out)@) + self.listing(views(old(prefix)@)),
        decreases self,
    {
        let ghost pre = views(prefix@);
        let ghost start = path_views(out@);
        let ghost items = views(self.items@).map_values(|i: Seq<char>| pre.push(i));
        let mut k: usize = 0;
        while k < self.items.len()
            invariant
                k <= self.items.len(),
                views(prefix@) == pre,
                items == views(self.items@).map_values(|i: Seq<char>| pre.push(i)),
                path_views(out@) == start + items.take(k as int),
            decreases self.items.len() - k,
        {
            let mut path = copy_path(prefix);
            let ghost copied = path@;
            path.push(self.items[k].clone());
            assert(views(path@) =~= views(copied).push(self.items@[k as int]@));
            let ghost before = out@;
            out.push(path);
            assert(path_views(out@) =~= path_views(before).push(items[k as int]));
            k = k + 1;
            assert(items.take(k as int) =~= items.take(k - 1).push(items[k - 1]));
        }
        assert(items.take(k as int) =~= items);
        let mut c: usize = 0;
        while c < self.children.len()
            invariant
                c <= self.children.len(),
                views(prefix@) == pre,
                path_views(out@) == start + items + children_listing(self.children@.take(c as int), pre),
            decreases self.children.len() - c,
        {
            let ghost before = out@;
            prefix.push(self.children[c].0.clone());
            assert(views(prefix@) =~= pre.push(self.children@[c as int].0@));
            self.children[c].1.collect_paths(prefix, out);
            let ghost mid = prefix@;
            let _ = prefix.pop();
            assert(prefix@ =~= mid.drop_last());
            assert(views(prefix@) =~= views(mid).drop_last());
            assert(views(prefix@) =~= pre);
            proof {
                lemma_children_listing_step(self.children@, pre, c as int);
            }
            c = c + 1;
        }
        assert(self.children@.take(c as int) =~= self.children@);
    }
}

/// Whether a path starts at the standard library.
pub open spec fn is_std(p: Seq<Seq<char>>) -> bool {
    p.len() > 0 && p[0] == seq!['s', 't', 'd']
}

/// Whether the segments `a` come strictly before the segments `b`: first
/// difference deciding, a proper prefix first, as `Vec<String>` orders.
pub open spec fn segments_precede(a: Seq<Seq<char>>, b: Seq<Seq<char>>) -> bool
    decreases a.len(),
{
    if a.len() == 0 {
        b.len() > 0
    } else if b.len() == 0 {
        false
    } else if a[0] != b[0] {
        precedes(a[0], b[0])
    } else {
        segments_precede(a.drop_first(), b.drop_first())
    }
}

/// The order of `use` statements: paths into `std` first, then by segments.
pub open spec fn path_before(a: Seq<Seq<char>>, b: Seq<Seq<char>>) -> bool {
    if is_std(a) != is_std(b) {
        is_std(a)
    } else {
        segments_precede(a, b)
    }
}

/// Whether no path of `ps` comes before an earlier one.
pub open spec fn paths_sorted(ps: Seq<Seq<Seq<char>>>) -> bool {
    forall|i: int, j: int| 0 <= i < j < ps.len() ==> !path_before(#[trigger] ps[j], #[trigger] ps[i])
}

pub proof fn lemma_segments_irreflexive(a: Seq<Seq<char>>)
    ensures
        !segments_precede(a, a),
    decreases a.len(),
{
    if a.len() > 0 {
        lemma_segments_irreflexive(a.drop_first());
    }
}

pub proof fn lemma_segments_transitive(a: Seq<Seq<char>>, b: Seq<Seq<char>>, c: Seq<Seq<char>>)
    requires
        segments_precede(a, b),
        segments_precede(b, c),
    ensures
        segments_precede(a, c),
    decreases a.len(),
{
    if a.len() > 0 && b.len() > 0 && c.len() > 0 {
        if a[0] == b[0] && b[0] == c[0] {
            lemma_segments_transitive(a.drop_first(), b.drop_first(), c.drop_first());
        } else if a[0] == b[0] {
        } else if b[0] == c[0] {
        } else {
            lemma_precedes_transitive(a[0], b[0], c[0]);
            if a[0] == c[0] {
                lemma_precedes_irreflexive(a[0]);
            }
        }
    }
}

pub proof fn lemma_segments_total(a: Seq<Seq<char>>, b: Seq<Seq<char>>)
    ensures
        a == b || segments_precede(a, b) || segments_precede(b, a),
    decreases a.len(),
{
    if a.len() > 0 && b.len() > 0 {
        if a[0] == b[0] {
            lemma_segments_total(a.drop_first(), b.drop_first());
            if a.drop_first() == b.drop_first() {
                assert(a =~= seq![a[0]] + a.drop_first());
                assert(b =~= seq![b[0]] + b.drop_first());
            }
        } else {
            lemma_precedes_total(a[0], b[0]);
        }
    } else if a.len() == 0 && b.len() == 0 {
        assert(a =~= b);
    }
}

pub proof fn lemma_path_before_irreflexive(a: Seq<Seq<char>>)
    ensures
        !path_before(a, a),
{
    lemma_segments_irreflexive(a);
}

pub proof fn lemma_path_before_transitive(a: Seq<Seq<char>>, b: Seq<Seq<char>>, c: Seq<Seq<char>>)
    requires
        path_before(a, b),
        path_before(b, c),
    ensures
        path_before(a, c),
{
    if is_std(a) == is_std(b) && is_std(b) == is_std(c) {
        lemma_segments_transitive(a, b, c);
    }
}

pub proof fn lemma_path_before_total(a: Seq<Seq<char>>, b: Seq<Seq<char>>)
    ensures
        a == b || path_before(a, b) || path_before(b, a),
{
    lemma_segments_total(a, b);
}

/// Whether `p` starts at the standard library.
fn starts_at_std(p: &Vec<String>) -> (r: bool)
    ensures
        r == is_std(views(p@)),
{
    if p.len() == 0 {
        false
    } else {
        let first = chars_of(p[0].as_str());
        let r = first.len() == 3 && first[0] == 's' && first[1] == 't' && first[2] == 'd';
        assert(r ==> first@ =~= seq!['s', 't', 'd']);
        r
    }
}

/// Whether the segments of `a` come strictly before those of `b`.
fn segments_before(a: &Vec<String>, b: &Vec<String>) -> (r: bool)
    ensures
        r == segments_precede(views(a@), views(b@)),
{
    let ghost x = views(a@);
    let ghost y = views(b@);
    let mut i: usize = 0;
    assert(x.skip(0) == x);
    assert(y.skip(0) == y);
    while i < a.len() && i < b.len() && crate::starlark::same(a[i].as_str(), b[i].as_str())
        invariant
            0 <= i <= a.len(),
            i <= b.len(),
            x == views(a@),
            y == views(b@),
            segments_precede(x, y) == segments_precede(x.skip(i as int), y.skip(i as int)),
        decreases a.len() - i,
    {
        assert(x.skip(i as int).drop_first() == x.skip(i + 1));
        assert(y.skip(i as int).drop_first() == y.skip(i + 1));
        i = i + 1;
    }
    if i == a.len() {
        i < b.len()
    } else if i == b.len() {
        false
    } else {
        str_precedes(a[i].as_str(), b[i].as_str())
    }
}

/// Whether the `use` statement of `a` goes before that of `b`.
fn goes_before(a: &Vec<String>, b: &Vec<String>) -> (r: bool)
    ensures
        r == path_before(views(a@), views(b@)),
{
    let sa = starts_at_std(a);
    let sb = starts_at_std(b);
    if sa != sb {
        sa
    } else {
        segments_before(a, b)
    }
}

/// The paths in the order of their `use` statements: those into `std` first,
/// then by segments.
pub fn sort_paths(paths: &Vec<Vec<String>>) -> (r: Vec<Vec<String>>)
    ensures
        path_views(r@).to_multiset() == path_views(paths@).to_multiset(),
        paths_sorted(path_views(r@)),
{
    broadcast use vstd::seq_lib::to_multiset_insert, vstd::seq_lib::to_multiset_build;

    let mut r: Vec<Vec<String>> = Vec::new();
    let mut n: usize = 0;
    assert(path_views(paths@).take(0) =~= Seq::<Seq<Seq<char>>>::empty());
    assert(path_views(r@) =~= Seq::<Seq<Seq<char>>>::empty());
    while n < paths.len()
        invariant
            n <= paths.len(),
            path_views(r@).to_multiset() == path_views(paths@).take(n as int).to_multiset(),
            paths_sorted(path_views(r@)),
        decreases paths.len() - n,
    {
        let x = copy_path(&paths[n]);
        let ghost xv = views(x@);
        let ghost rv = path_views(r@);
        let mut k: usize = 0;
        while k < r.len() && !goes_before(&x, &r[k])
            invariant
                k <= r.len(),
                rv == path_views(r@),
                xv == views(x@),
                forall|i: int| 0 <= i < k ==> !path_before(xv, #[trigger] rv[i]),
            decreases r.len() - k,
        {
            k = k + 1;
        }
        r.insert(k, x);
        assert(path_views(r@) =~= rv.insert(k as int, xv));
        assert(path_views(paths@)[n as int] == xv);
        assert(path_views(paths@).take(n + 1) =~= path_views(paths@).take(n as int).push(xv));
        proof {
            vstd::seq_lib::to_multiset_insert(rv, k as int, xv);
            vstd::seq_lib::to_multiset_build(path_views(paths@).take(n as int), xv);
        }
        proof {
            let nv = rv.insert(k as int, xv);
            assert forall|i: int, j: int| 0 <= i < j < nv.len() implies !path_before(#[trigger] nv[j], #[trigger] nv[i]) by {
                if i < k && j == k {
                } else if i < k && j > k {
                    assert(nv[j] == rv[j - 1]);
                } else if i == k {
                    assert(nv[j] == rv[j - 1]);
                    if path_before(rv[j - 1], xv) {
                        if j - 1 == k {
                            lemma_path_before_transitive(xv, rv[k as int], xv);
                            lemma_path_before_irreflexive(xv);
                        } else {
                            lemma_path_before_transitive(rv[j - 1], xv, rv[k as int]);
                        }
                    }
                } else if i > k {
                    assert(nv[i] == rv[i - 1]);
                    assert(nv[j] == rv[j - 1]);
                }
            }
        }
        n = n + 1;
    }
    assert(path_views(paths@).take(n as int) =~= path_views(paths@));
    r
}

impl ImportTrie {
    /// The paths of the trie, each as its segments, in the order of their
    /// `use` statements.
    pub fn use_paths(&self) -> (r: Vec<Vec<String>>)
        ensures
            path_views(r@).to_multiset() == self.listing(seq![]).to_multiset(),
            paths_sorted(path_views(r@)),
    {
        let mut prefix: Vec<String> = Vec::new();
        let mut paths: Vec<Vec<String>> = Vec::new();
        assert(views(prefix@) =~= Seq::<Seq<char>>::empty());
        assert(path_views(paths@) =~= Seq::<Seq<Seq<char>>>::empty());
        self.collect_paths(&mut prefix, &mut paths);
        assert(path_views(paths@) =~= self.listing(seq![]));
        sort_paths(&paths)
    }
}

/// The segments of `p` joined by `::`.
pub open spec fn joined(p: Seq<Seq<char>>) -> Seq<char>
    decreases p.len(),
{
    if p.len() == 0 {
        seq![]
    } else if p.len() == 1 {
        p[0]
    } else {
        joined(p.drop_last()) + seq![':', ':'] + p.last()
    }
}

/// The text of the `use` statement that imports the path `p`.
pub open spec fn use_text(p: Seq<Seq<char>>) -> Seq<char> {
    seq!['u', 's', 'e', ' '] + joined(p) + seq![';']
}

/// Whether the text is a `use` item as `syn` parses one.
pub uninterp spec fn parses_as_use(text: Seq<char>) -> bool;

/// Whether the text parses as a `use` item.
///
/// Trusted: wraps `syn::parse_str::<syn::ItemUse>`; the claim is that it
/// succeeds exactly on the texts named by `parses_as_use`, a function of the
/// text alone.
#[verifier::external_body]
fn parses_use(text: &str) -> (r: bool)
    ensures
        r == parses_as_use(text@),
{
    syn::parse_str::<syn::ItemUse>(text).is_ok()
}

/// Whether a character has the Unicode property XID_Start.
pub uninterp spec fn xid_start(c: char) -> bool;

/// Whether a character has the Unicode property XID_Continue.
pub uninterp spec fn xid_continue(c: char) -> bool;

/// Whether `c` may start an identifier.
///
/// Trusted: wraps `unicode_ident::is_xid_start`; the claim is that it answers
/// as `xid_start`, a function of the character alone.
#[verifier::external_body]
fn starts_identifier(c: char) -> (r: bool)
    ensures
        r == xid_start(c),
{
    unicode_ident::is_xid_start(c)
}

/// Whether `c` may go on an identifier.
///
/// Trusted: wraps `unicode_ident::is_xid_continue`; the claim is that it
/// answers as `xid_continue`, a function of the character alone.
#[verifier::external_body]
fn continues_identifier(c: char) -> (r: bool)
    ensures
        r == xid_continue(c),
{
    unicode_ident::is_xid_continue(c)
}

/// Whether `s` is an identifier that a segment of a `use` path can be made
/// of: not empty, not all ASCII digits, starting with `_` or an XID_Start
/// character and going on with XID_Continue characters.
pub open spec fn identifier(s: Seq<char>) -> bool {
    &&& s.len() > 0
    &&& !(forall|i: int| 0 <= i < s.len() ==> '0' <= #[trigger] s[i] <= '9')
    &&& (s[0] == '_' || xid_start(s[0]))
    &&& forall|i: int| 1 <= i < s.len() ==> xid_continue(#[trigger] s[i])
}

/// Whether `s` is an identifier that a segment of a `use` path can be made of.
pub fn is_identifier(s: &str) -> (r: bool)
    ensures
        r == identifier(s@),
{
    let c = chars_of(s);
    if c.len() == 0 {
        return false;
    }
    let mut digits = true;
    let mut i: usize = 0;
    while i < c.len()
        invariant
            c@ == s@,
            i <= c.len(),
            digits == forall|j: int| 0 <= j < i ==> '0' <= #[trigger] c@[j] <= '9',
        decreases c.len() - i,
    {
        if !('0' <= c[i] && c[i] <= '9') {
            digits = false;
        }
        i = i + 1;
    }
    if digits {
        return false;
    }
    if !(c[0] == '_' || starts_identifier(c[0])) {
        return false;
    }
    let mut k: usize = 1;
    while k < c.len()
        invariant
            c@ == s@,
            1 <= k <= c.len(),
            forall|j: int| 1 <= j < k ==> xid_continue(#[trigger] c@[j]),
        decreases c.len() - k,
    {
        if !continues_identifier(c[k]) {
            return false;
        }
        k = k + 1;
    }
    true
}

/// Whether the path can be written as a `use` statement: it has a segment,
/// each segment is an identifier, and the statement is a `use` item that
/// `syn` accepts (a keyword such as `fn` is no path segment).
pub open spec fn importable(p: Seq<Seq<char>>) -> bool {
    &&& p.len() > 0
    &&& forall|i: int| 0 <= i < p.len() ==> identifier(#[trigger] p[i])
    &&& parses_as_use(use_text(p))
}

/// The text of the `use` statement that imports the path made of `segments`.
pub fn use_statement_text(segments: &Vec<String>) -> (r: String)
    ensures
        r@ == use_text(views(segments@)),
{
    let ghost p = views(segments@);
    let mut out: Vec<char> = Vec::new();
    crate::text::extend_str(&mut out, "use ");
    proof {
        reveal_strlit("use ");
    }
    let ghost head = out@;
    assert(head =~= seq!['u', 's', 'e', ' ']);
    let mut k: usize = 0;
    while k < segments.len()
        invariant
            k <= segments.len(),
            p == views(segments@),
            head == seq!['u', 's', 'e', ' '],
            out@ == head + joined(p.take(k as int)),
        decreases segments.len() - k,
    {
        let ghost before = out@;
        if k > 0 {
            out.push(':');
            out.push(':');
        }
        crate::text::extend_str(&mut out, segments[k].as_str());
        proof {
            let t = p.take(k + 1);
            assert(t.drop_last() =~= p.take(k as int));
            assert(t.last() == segments@[k as int]@);
            if k == 0 {
                assert(p.take(0) =~= Seq::<Seq<char>>::empty());
                assert(out@ =~= head + joined(t));
            } else {
                assert(out@ =~= head + joined(t));
            }
        }
        k = k + 1;
    }
    assert(p.take(k as int) =~= p);
    out.push(';');
    crate::text::string_of(&out)
}

/// The path a `use` tree imports, segment by segment.
pub open spec fn tree_path(t: UseTree) -> Seq<Seq<char>>
    decreases t,
{
    match t {
        UseTree::Path { ident, tree } => seq![ident@] + tree_path(*tree),
        UseTree::Name(n) => seq![n@],
        _ => seq![],
    }
}

/// Whether a `use` tree is a plain path: segments ending in a name.
pub open spec fn plain_tree(t: UseTree) -> bool
    decreases t,
{
    match t {
        UseTree::Path { tree, .. } => plain_tree(*tree),
        UseTree::Name(_) => true,
        _ => false,
    }
}

/// The paths the `use` trees import, in order.
pub open spec fn tree_paths(ts: Seq<UseTree>) -> Seq<Seq<Seq<char>>>
    decreases ts.len(),
{
    if ts.len() == 0 {
        seq![]
    } else {
        tree_paths(ts.drop_last()).push(tree_path(ts.last()))
    }
}

/// The `use` tree of the path made of `segments`.
fn tree_of(segments: &Vec<String>) -> (t: UseTree)
    requires
        segments.len() > 0,
    ensures
        plain_tree(t),
        tree_path(t) == views(segments@),
{
    let n = segments.len();
    let mut t = UseTree::Name(segments[n - 1].clone());
    let mut k: usize = n - 1;
    assert(views(segments@).skip(k as int) =~= seq![segments@[k as int]@]);
    while k > 0
        invariant
            k < n,
            n == segments.len(),
            plain_tree(t),
            tree_path(t) == views(segments@).skip(k as int),
        decreases k,
    {
        k = k - 1;
        let ghost rest = t;
        t = UseTree::Path { ident: segments[k].clone(), tree: Box::new(t) };
        assert(views(segments@).skip(k as int) =~= seq![segments@[k as int]@] + views(segments@).skip(k + 1));
    }
    assert(views(segments@).skip(0) =~= views(segments@));
    t
}

/// Whether the path made of `segments` can be written as a `use` statement.
fn importable_segments(segments: &Vec<String>) -> (r: bool)
    ensures
        r == importable(views(segments@)),
{
    if segments.len() == 0 {
        return false;
    }
    let mut i: usize = 0;
    while i < segments.len()
        invariant
            i <= segments.len(),
            forall|j: int| 0 <= j < i ==> identifier(#[trigger] views(segments@)[j]),
        decreases segments.len() - i,
    {
        if !is_identifier(segments[i].as_str()) {
            assert(!identifier(views(segments@)[i as int]));
            return false;
        }
        i = i + 1;
    }
    let text = use_statement_text(segments);
    parses_use(text.as_str())
}

impl ImportTrie {
    /// The `use` statements that import every path of the trie, as `use`
    /// trees: one per path, those into `std` first, then by segments. Every
    /// path must be importable; a segment that is no identifier has no
    /// statement.
    pub fn to_use_statements(&self) -> (r: Vec<UseTree>)
        requires
            forall|i: int| 0 <= i < self.listing(seq![]).len() ==> importable(#[trigger] self.listing(seq![])[i]),
        ensures
            r.len() == self.listing(seq![]).len(),
            forall|i: int| 0 <= i < r.len() ==> plain_tree(#[trigger] r@[i]),
            tree_paths(r@).to_multiset() == self.listing(seq![]).to_multiset(),
            paths_sorted(tree_paths(r@)),
    {
        broadcast use vstd::seq_lib::to_multiset_contains, vstd::seq_lib::to_multiset_len;

        let paths = self.use_paths();
        let ghost pv = path_views(paths@);
        let ghost all = self.listing(seq![]);
        assert(pv.len() == all.len()) by {
            vstd::seq_lib::to_multiset_len(pv);
            vstd::seq_lib::to_multiset_len(all);
        }
        let mut out: Vec<UseTree> = Vec::new();
        let mut k: usize = 0;
        while k < paths.len()
            invariant
                k <= paths.len(),
                pv == path_views(paths@),
                all == self.listing(seq![]),
                pv.len() == all.len(),
                pv.to_multiset() == all.to_multiset(),
                forall|i: int| 0 <= i < all.len() ==> importable(#[trigger] all[i]),
                out.len() == k,
                forall|i: int| 0 <= i < k ==> plain_tree(#[trigger] out@[i]),
                tree_paths(out@) == pv.take(k as int),
            decreases paths.len() - k,
        {
            proof {
                vstd::seq_lib::to_multiset_contains(pv, pv[k as int]);
                vstd::seq_lib::to_multiset_contains(all, pv[k as int]);
                assert(pv.contains(pv[k as int]));
                assert(all.contains(pv[k as int]));
                let m = choose|m: int| 0 <= m < all.len() && all[m] == pv[k as int];
                assert(importable(all[m]));
                assert(pv[k as int] == views(paths@[k as int]@));
            }
            let t = tree_of(&paths[k]);
            let ghost before = out@;
            out.push(t);
            assert(out@.drop_last() =~= before);
            assert(pv.take(k + 1) =~= pv.take(k as int).push(pv[k as int]));
            k = k + 1;
        }
        assert(pv.take(k as int) =~= pv);
        out
    }

    /// The `use` statements of the trie where every path is importable;
    /// `None` where some path is not.
    pub fn try_use_statements(&self) -> (r: Option<Vec<UseTree>>)
        ensures
            r is Some <==> forall|i: int| 0 <= i < self.listing(seq![]).len() ==> importable(
                #[trigger] self.listing(seq![])[i],
            ),
            r matches Some(v) ==> {
                &&& v.len() == self.listing(seq![]).len()
                &&& forall|i: int| 0 <= i < v.len() ==> plain_tree(#[trigger] v@[i])
                &&& tree_paths(v@).to_multiset() == self.listing(seq![]).to_multiset()
                &&& paths_sorted(tree_paths(v@))
            },
    {
        broadcast use vstd::seq_lib::to_multiset_contains, vstd::seq_lib::to_multiset_len;

        let paths = self.use_paths();
        let ghost pv = path_views(paths@);
        let ghost all = self.listing(seq![]);
        let mut k: usize = 0;
        while k < paths.len()
            invariant
                k <= paths.len(),
                pv == path_views(paths@),
                all == self.listing(seq![]),
                pv.to_multiset() == all.to_multiset(),
                forall|i: int| 0 <= i < k ==> importable(#[trigger] pv[i]),
            decreases paths.len() - k,
        {
            if !importable_segments(&paths[k]) {
                proof {
                    assert(pv[k as int] == views(paths@[k as int]@));
                    vstd::seq_lib::to_multiset_contains(pv, pv[k as int]);
                    vstd::seq_lib::to_multiset_contains(all, pv[k as int]);
                    assert(pv.contains(pv[k as int]));
                    assert(all.contains(pv[k as int]));
                    let m = choose|m: int| 0 <= m < all.len() && all[m] == pv[k as int];
                    assert(!importable(all[m]));
                }
                return None;
            }
            proof {
                assert(pv[k as int] == views(paths@[k as int]@));
            }
            k = k + 1;
        }
        proof {
            assert forall|i: int| 0 <= i < all.len() implies importable(#[trigger] all[i]) by {
                vstd::seq_lib::to_multiset_contains(all, all[i]);
                vstd::seq_lib::to_multiset_contains(pv, all[i]);
                assert(all.contains(all[i]));
                let m = choose|m: int| 0 <= m < pv.len() && pv[m] == all[i];
                assert(importable(pv[m]));
            }
        }
        Some(self.to_use_statements())
    }
}

proof fn lemma_extend_path(prefix: Seq<Seq<char>>, p: Seq<Seq<char>>)
    requires
        p.len() >= 1,
    ensures
        prefix + p == prefix.push(p[0]) + p.drop_first(),
{
    assert(prefix + p =~= prefix.push(p[0]) + p.drop_first());
}

proof fn lemma_children_listing(cs: Seq<(String, ImportTrie)>, prefix: Seq<Seq<char>>)
    requires
        increasing(keys(cs)),
        forall|i: int| 0 <= i < cs.len() ==> (#[trigger] cs[i]).1.wf(),
    ensures
        forall|k: int| 0 <= k < children_listing(cs, prefix).len() ==> {
            let e = #[trigger] children_listing(cs, prefix)[k];
            &&& e.len() > prefix.len() + 1
            &&& e.take(prefix.len() as int) == prefix
            &&& keys(cs).contains(e[prefix.len() as int])
        },
        forall|p: Seq<Seq<char>>| p.len() >= 2 ==> (#[trigger] children_listing(cs, prefix).contains(prefix + p)
            <==> exists|i: int| 0 <= i < cs.len() && (#[trigger] cs[i]).0@ == p[0] && cs[i].1.holds(p.drop_first())),
        children_listing(cs, prefix).no_duplicates(),
    decreases cs,
{
    if cs.len() > 0 {
        let init = cs.drop_last();
        let last = cs.last();
        let key = last.0@;
        let inner = prefix.push(key);
        assert(keys(init) =~= keys(cs).drop_last());
        assert(increasing(keys(init)));
        assert forall|i: int| 0 <= i < init.len() implies (#[trigger] init[i]).1.wf() by {
            assert(init[i] == cs[i]);
        }
        lemma_children_listing(init, prefix);
        assert(cs[cs.len() - 1].1.wf());
        lemma_listing(last.1, inner);
        let a = children_listing(init, prefix);
        let b = last.1.listing(inner);
        let c = children_listing(cs, prefix);
        assert(c == a + b);
        assert(keys(cs)[cs.len() - 1] == key);
        assert forall|k: int| 0 <= k < c.len() implies {
            let e = #[trigger] c[k];
            &&& e.len() > prefix.len() + 1
            &&& e.take(prefix.len() as int) == prefix
            &&& keys(cs).contains(e[prefix.len() as int])
        } by {
            if k < a.len() {
                assert(c[k] == a[k]);
                let e = a[k];
                let m = choose|m: int| 0 <= m < keys(init).len() && keys(init)[m] == e[prefix.len() as int];
                assert(keys(cs)[m] == keys(init)[m]);
            } else {
                assert(c[k] == b[k - a.len()]);
                let e = b[k - a.len()];
                assert(e.take(inner.len() as int) == inner);
                assert(e.take(prefix.len() as int) =~= e.take(inner.len() as int).take(prefix.len() as int));
                assert(inner.take(prefix.len() as int) =~= prefix);
                assert(e[prefix.len() as int] == e.take(inner.len() as int)[prefix.len() as int]);
            }
        }
        assert forall|p: Seq<Seq<char>>| p.len() >= 2 implies (#[trigger] c.contains(prefix + p)
            <==> exists|i: int| 0 <= i < cs.len() && (#[trigger] cs[i]).0@ == p[0] && cs[i].1.holds(p.drop_first())) by {
            lemma_extend_path(prefix, p);
            let q = p.drop_first();
            if c.contains(prefix + p) {
                let k = choose|k: int| 0 <= k < c.len() && c[k] == prefix + p;
                if k < a.len() {
                    assert(a[k] == prefix + p);
                    assert(a.contains(prefix + p));
                    let i = choose|i: int| 0 <= i < init.len() && (#[trigger] init[i]).0@ == p[0] && init[i].1.holds(p.drop_first());
                    assert(cs[i] == init[i]);
                } else {
                    let e = b[k - a.len()];
                    assert(e == prefix + p);
                    assert(e.take(inner.len() as int) == inner);
                    assert(e[prefix.len() as int] == inner[prefix.len() as int]);
                    assert(e[prefix.len() as int] == p[0]);
                    assert(inner + q == prefix + p);
                    assert(b.contains(inner + q));
                    assert(cs[cs.len() - 1].0@ == p[0]);
                }
            }
            if exists|i: int| 0 <= i < cs.len() && (#[trigger] cs[i]).0@ == p[0] && cs[i].1.holds(p.drop_first()) {
                let i = choose|i: int| 0 <= i < cs.len() && (#[trigger] cs[i]).0@ == p[0] && cs[i].1.holds(p.drop_first());
                if i < cs.len() - 1 {
                    assert(init[i] == cs[i]);
                    assert(a.contains(prefix + p));
                    let k = choose|k: int| 0 <= k < a.len() && a[k] == prefix + p;
                    assert(c[k] == a[k]);
                } else {
                    assert(p[0] == key);
                    assert(inner + q == prefix + p);
                    assert(b.contains(inner + q));
                    let k = choose|k: int| 0 <= k < b.len() && b[k] == inner + q;
                    assert(c[k + a.len()] == b[k]);
                }
            }
        }
        assert forall|x: int, y: int| 0 <= x < c.len() && 0 <= y < c.len() && x != y implies c[x] != c[y] by {
            if x < a.len() && y < a.len() {
                assert(c[x] == a[x] && c[y] == a[y]);
            } else if x >= a.len() && y >= a.len() {
                assert(c[x] == b[x - a.len()] && c[y] == b[y - a.len()]);
            } else {
                let (u, v) = if x < a.len() { (x, y) } else { (y, x) };
                assert(c[u] == a[u]);
                assert(c[v] == b[v - a.len()]);
                let e = a[u];
                let m = choose|m: int| 0 <= m < keys(init).len() && keys(init)[m] == e[prefix.len() as int];
                let f = b[v - a.len()];
                assert(f.take(inner.len() as int) == inner);
                assert(f[prefix.len() as int] == f.take(inner.len() as int)[prefix.len() as int]);
                assert(f[prefix.len() as int] == key);
                assert(keys(cs)[m] == keys(init)[m]);
                if e == f {
                    assert(keys(cs)[m] == keys(cs)[cs.len() - 1]);
                    lemma_precedes_irreflexive(key);
                }
            }
        }
    }
}

proof fn lemma_listing(t: ImportTrie, prefix: Seq<Seq<char>>)
    requires
        t.wf(),
    ensures
        forall|k: int| 0 <= k < t.listing(prefix).len() ==> {
            let e = #[trigger] t.listing(prefix)[k];
            &&& e.len() > prefix.len()
            &&& e.take(prefix.len() as int) == prefix
        },
        forall|p: Seq<Seq<char>>| #[trigger] t.listing(prefix).contains(prefix + p) <==> t.holds(p),
        t.listing(prefix).no_duplicates(),
    decreases t,
{
    lemma_children_listing(t.children@, prefix);
    let items = views(t.items@).map_values(|i: Seq<char>| prefix.push(i));
    let c = children_listing(t.children@, prefix);
    let l = t.listing(prefix);
    assert(l == items + c);
    assert forall|k: int| 0 <= k < l.len() implies {
        let e = #[trigger] l[k];
        &&& e.len() > prefix.len()
        &&& e.take(prefix.len() as int) == prefix
    } by {
        if k < items.len() {
            assert(l[k] == prefix.push(views(t.items@)[k]));
            assert(l[k].take(prefix.len() as int) =~= prefix);
        } else {
            assert(l[k] == c[k - items.len()]);
        }
    }
    assert forall|p: Seq<Seq<char>>| #[trigger] l.contains(prefix + p) <==> t.holds(p) by {
        if p.len() == 0 {
            assert(prefix + p =~= prefix);
            if l.contains(prefix + p) {
                let k = choose|k: int| 0 <= k < l.len() && l[k] == prefix + p;
                assert(l[k].len() > prefix.len());
            }
        } else if p.len() == 1 {
            assert(prefix + p =~= prefix.push(p[0]));
            if l.contains(prefix + p) {
                let k = choose|k: int| 0 <= k < l.len() && l[k] == prefix + p;
                if k < items.len() {
                    assert(l[k] == prefix.push(views(t.items@)[k]));
                    assert(prefix.push(views(t.items@)[k])[prefix.len() as int] == views(t.items@)[k]);
                    assert(views(t.items@).contains(p[0]));
                } else {
                    assert(l[k] == c[k - items.len()]);
                }
            }
            if views(t.items@).contains(p[0]) {
                let m = choose|m: int| 0 <= m < views(t.items@).len() && views(t.items@)[m] == p[0];
                assert(l[m] == prefix.push(p[0]));
            }
        } else {
            if l.contains(prefix + p) {
                let k = choose|k: int| 0 <= k < l.len() && l[k] == prefix + p;
                if k < items.len() {
                    assert(l[k] == prefix.push(views(t.items@)[k]));
                    assert(false);
                } else {
                    assert(l[k] == c[k - items.len()]);
                    assert(c.contains(prefix + p));
                }
            }
            if c.contains(prefix + p) {
                let k = choose|k: int| 0 <= k < c.len() && c[k] == prefix + p;
                assert(l[k + items.len()] == c[k]);
            }
        }
    }
    assert forall|x: int, y: int| 0 <= x < l.len() && 0 <= y < l.len() && x != y implies l[x] != l[y] by {
        if x < items.len() && y < items.len() {
            assert(l[x] == prefix.push(views(t.items@)[x]));
            assert(l[y] == prefix.push(views(t.items@)[y]));
            assert(prefix.push(views(t.items@)[x])[prefix.len() as int] == views(t.items@)[x]);
            assert(prefix.push(views(t.items@)[y])[prefix.len() as int] == views(t.items@)[y]);
            if views(t.items@)[x] == views(t.items@)[y] {
                lemma_precedes_irreflexive(views(t.items@)[x]);
            }
        } else if x >= items.len() && y >= items.len() {
            assert(l[x] == c[x - items.len()] && l[y] == c[y - items.len()]);
        } else if x < items.len() {
            assert(l[x] == prefix.push(views(t.items@)[x]));
            assert(l[y] == c[y - items.len()]);
        } else {
            assert(l[y] == prefix.push(views(t.items@)[y]));
            assert(l[x] == c[x - items.len()]);
        }
    }
}

/// A well-formed trie lists each path it holds exactly once, and nothing
/// else: the import statements it gives are free of duplicates.
pub proof fn lemma_listing_exact(t: ImportTrie)
    requires
        t.wf(),
    ensures
        forall|p: Seq<Seq<char>>| #[trigger] t.listing(seq![]).contains(p) <==> t.holds(p),
        t.listing(seq![]).no_duplicates(),
{
    lemma_listing(t, seq![]);
    assert forall|p: Seq<Seq<char>>| #[trigger] t.listing(seq![]).contains(p) <==> t.holds(p) by {
        assert(Seq::<Seq<char>>::empty() + p =~= p);
    }
}

proof fn lemma_same_path(p: Seq<Seq<char>>, q: Seq<Seq<char>>)
    requires
        p.len() >= 1,
        q.len() >= 1,
        p[0] == q[0],
        p.drop_first() == q.drop_first(),
    ensures
        p == q,
{
    assert(p.drop_first().len() == p.len() - 1);
    assert(q.drop_first().len() == q.len() - 1);
    assert forall|k: int| 0 <= k < p.len() implies p[k] == q[k] by {
        if k > 0 {
            assert(p[k] == p.drop_first()[k - 1]);
            assert(q[k] == q.drop_first()[k - 1]);
        }
    }
    assert(p =~= q);
}

proof fn lemma_split_nonempty(s: Seq<char>)
    ensures
        split_path(s).len() >= 1,
    decreases s.len(),
{
    match find_from(s, seq![':', ':'], 0) {
        Some(i) => if 0 <= i && i + 2 <= s.len() {
            lemma_split_nonempty(s.subrange(i + 2, s.len() as int));
        },
        None => {},
    }
}

/// Whether two tries have the same items, the same keys, and under each key
/// the same subtrie.
pub open spec fn same_trie(a: ImportTrie, b: ImportTrie) -> bool
    decreases a,
{
    &&& views(a.items@) == views(b.items@)
    &&& keys(a.children@) == keys(b.children@)
    &&& a.children@.len() == b.children@.len()
    &&& forall|i: int| 0 <= i < a.children@.len() ==> same_trie(#[trigger] a.children@[i].1, b.children@[i].1)
}

/// Increasing sequences with the same members are the same.
proof fn lemma_increasing_ext(a: Seq<Seq<char>>, b: Seq<Seq<char>>)
    requires
        increasing(a),
        increasing(b),
        forall|x: Seq<char>| a.contains(x) <==> b.contains(x),
    ensures
        a == b,
    decreases a.len() + b.len(),
{
    if a.len() == 0 {
        if b.len() > 0 {
            assert(b.contains(b[0]));
        }
        assert(a =~= b);
    } else if b.len() == 0 {
        assert(a.contains(a[0]));
    } else {
        assert(a.contains(a[0]));
        assert(b.contains(b[0]));
        let j = choose|j: int| 0 <= j < b.len() && b[j] == a[0];
        let i = choose|i: int| 0 <= i < a.len() && a[i] == b[0];
        if j > 0 && i > 0 {
            assert(precedes(b[0], b[j]));
            assert(precedes(a[0], a[i]));
            lemma_precedes_asymmetric(a[0], b[0]);
        }
        assert(a[0] == b[0]);
        let ta = a.drop_first();
        let tb = b.drop_first();
        assert forall|x: Seq<char>| ta.contains(x) <==> tb.contains(x) by {
            if ta.contains(x) {
                let m = choose|m: int| 0 <= m < ta.len() && ta[m] == x;
                assert(a[m + 1] == x);
                assert(precedes(a[0], x));
                lemma_precedes_irreflexive(x);
                assert(b.contains(x));
                let n = choose|n: int| 0 <= n < b.len() && b[n] == x;
                assert(n != 0);
                assert(tb[n - 1] == x);
            }
            if tb.contains(x) {
                let m = choose|m: int| 0 <= m < tb.len() && tb[m] == x;
                assert(b[m + 1] == x);
                assert(precedes(b[0], x));
                lemma_precedes_irreflexive(x);
                assert(a.contains(x));
                let n = choose|n: int| 0 <= n < a.len() && a[n] == x;
                assert(n != 0);
                assert(ta[n - 1] == x);
            }
        }
        assert(increasing(ta));
        assert(increasing(tb));
        lemma_increasing_ext(ta, tb);
        assert(a =~= seq![a[0]] + ta);
        assert(b =~= seq![b[0]] + tb);
    }
}

proof fn lemma_holds_nonempty(t: ImportTrie, q: Seq<Seq<char>>)
    requires
        t.holds(q),
    ensures
        q.len() >= 1,
{
}

/// A trie holds a path under one of its keys exactly where the subtrie under
/// that key holds the rest of it.
proof fn lemma_holds_under(t: ImportTrie, i: int, q: Seq<Seq<char>>)
    requires
        t.wf(),
        0 <= i < t.children@.len(),
        q.len() >= 1,
    ensures
        t.holds(seq![t.children@[i].0@] + q) <==> t.children@[i].1.holds(q),
{
    let p = seq![t.children@[i].0@] + q;
    assert(p.drop_first() =~= q);
    assert(p[0] == t.children@[i].0@);
    if t.holds(p) {
        let m = choose|m: int| 0 <= m < t.children@.len() && (#[trigger] t.children@[m]).0@ == p[0]
            && t.children@[m].1.holds(p.drop_first());
        if m != i {
            assert(keys(t.children@)[m] == t.children@[m].0@);
            assert(keys(t.children@)[i] == t.children@[i].0@);
            lemma_precedes_irreflexive(p[0]);
        }
    }
}

/// Two well-formed tries that hold the same paths are the same trie: how
/// often and in which order the paths were inserted leaves no trace.
pub proof fn lemma_same_paths_same_trie(a: ImportTrie, b: ImportTrie)
    requires
        a.wf(),
        b.wf(),
        forall|p: Seq<Seq<char>>| a.holds(p) == b.holds(p),
    ensures
        same_trie(a, b),
    decreases a,
{
    let ia = views(a.items@);
    let ib = views(b.items@);
    assert forall|x: Seq<char>| ia.contains(x) <==> ib.contains(x) by {
        assert(a.holds(seq![x]) == ia.contains(x));
        assert(b.holds(seq![x]) == ib.contains(x));
    }
    lemma_increasing_ext(ia, ib);
    let ka = keys(a.children@);
    let kb = keys(b.children@);
    assert forall|k: Seq<char>| ka.contains(k) ==> kb.contains(k) by {
        if ka.contains(k) {
            let i = choose|i: int| 0 <= i < ka.len() && ka[i] == k;
            assert(a.children@[i].1.occupied());
            let q = choose|q: Seq<Seq<char>>| a.children@[i].1.holds(q);
            lemma_holds_nonempty(a.children@[i].1, q);
            lemma_holds_under(a, i, q);
            let p = seq![k] + q;
            assert(b.holds(p));
            assert(p.len() >= 2);
            let m = choose|m: int| 0 <= m < b.children@.len() && (#[trigger] b.children@[m]).0@ == p[0]
                && b.children@[m].1.holds(p.drop_first());
            assert(kb[m] == k);
        }
    }
    assert forall|k: Seq<char>| kb.contains(k) ==> ka.contains(k) by {
        if kb.contains(k) {
            let i = choose|i: int| 0 <= i < kb.len() && kb[i] == k;
            assert(b.children@[i].1.occupied());
            let q = choose|q: Seq<Seq<char>>| b.children@[i].1.holds(q);
            lemma_holds_nonempty(b.children@[i].1, q);
            lemma_holds_under(b, i, q);
            let p = seq![k] + q;
            assert(a.holds(p));
            assert(p.len() >= 2);
            let m = choose|m: int| 0 <= m < a.children@.len() && (#[trigger] a.children@[m]).0@ == p[0]
                && a.children@[m].1.holds(p.drop_first());
            assert(ka[m] == k);
        }
    }
    lemma_increasing_ext(ka, kb);
    assert(ka.len() == a.children@.len() && kb.len() == b.children@.len());
    assert forall|i: int| 0 <= i < a.children@.len() implies same_trie(#[trigger] a.children@[i].1, b.children@[i].1) by {
        let ca = a.children@[i].1;
        let cb = b.children@[i].1;
        assert(ka[i] == kb[i]);
        assert(a.children@[i].0@ == b.children@[i].0@);
        assert forall|q: Seq<Seq<char>>| ca.holds(q) == cb.holds(q) by {
            if q.len() >= 1 {
                lemma_holds_under(a, i, q);
                lemma_holds_under(b, i, q);
            }
        }
        assert(decreases_to!(a => a.children));
        assert(decreases_to!(a.children => a.children@));
        assert(decreases_to!(a.children@ => a.children@[i]));
        assert(decreases_to!(a.children@[i] => a.children@[i].1));
        lemma_same_paths_same_trie(ca, cb);
    }
}

} // verus!
