//! Maps a request path to the file that serves it: the shortest prefix, cut
//! at a `/`, that opens as a file.
use vstd::prelude::*;
use crate::bytes::{copy_range, concat};

verus! {

pub open spec fn is_slash(b: u8) -> bool {
    b == 47u8
}

/// The path without one leading `/`.
pub open spec fn strip_leading_slash(p: Seq<u8>) -> Seq<u8> {
    if p.len() > 0 && is_slash(p[0]) {
        p.drop_first()
    } else {
        p
    }
}

/// The splits of `p` at each `/` among its first `n` bytes, leftmost first:
/// the part before the `/` and the part from the `/` on.
pub open spec fn slash_splits(p: Seq<u8>, n: int) -> Seq<(Seq<u8>, Seq<u8>)>
    decreases n,
{
    if n <= 0 {
        Seq::empty()
    } else if is_slash(p[n - 1]) {
        slash_splits(p, n - 1).push((p.subrange(0, n - 1), p.subrange(n - 1, p.len() as int)))
    } else {
        slash_splits(p, n - 1)
    }
}

/// Every `(prefix, suffix)` pair to try for the request path `path`, in order.
pub open spec fn path_splits(path: Seq<u8>) -> Seq<(Seq<u8>, Seq<u8>)> {
    let p = strip_leading_slash(path);
    slash_splits(p, p.len() as int).push((p, Seq::empty()))
}

/// The splits of the request path at every `/` (after a leading one), leftmost
/// first, then the whole path with an empty rest.
pub fn iter_path_splits(path: &[u8]) -> (r: Vec<(Vec<u8>, Vec<u8>)>)
    ensures
        r@.len() == path_splits(path@).len(),
        forall|i: int|
            0 <= i < r@.len() ==> (#[trigger] r@[i]).0@ == path_splits(path@)[i].0 && r@[i].1@
                == path_splits(path@)[i].1,
{
    let start: usize = if path.len() > 0 && path[0] == 47u8 { 1 } else { 0 };
    let p = copy_range(path, start, path.len());
    assert(p@ == strip_leading_slash(path@)) by {
        if start == 1 {
            assert(p@ =~= path@.drop_first());
        } else {
            assert(p@ =~= path@);
        }
    }
    let mut r: Vec<(Vec<u8>, Vec<u8>)> = Vec::new();
    let mut i: usize = 0;
    while i < p.len()
        invariant
            0 <= i <= p@.len(),
            r@.len() == slash_splits(p@, i as int).len(),
            forall|k: int|
                0 <= k < r@.len() ==> (#[trigger] r@[k]).0@ == slash_splits(p@, i as int)[k].0
                    && r@[k].1@ == slash_splits(p@, i as int)[k].1,
        decreases p@.len() - i,
    {
        if p[i] == 47u8 {
            let prefix = copy_range(&p, 0, i);
            let rest = copy_range(&p, i, p.len());
            r.push((prefix, rest));
        }
        i = i + 1;
    }
    let whole = copy_range(&p, 0, p.len());
    assert(whole@ =~= p@);
    r.push((whole, Vec::new()));
    assert(r@.last().1@ =~= Seq::<u8>::empty());
    r
}

/// Where a request landed: the script, with a leading `/`, and the rest of
/// the path.
pub struct ScriptMatch {
    pub script_name: Vec<u8>,
    pub path_info: Vec<u8>,
}

/// The index of the first split at or after `from` that opened, if any.
pub open spec fn first_opened(opens: Seq<bool>, from: int) -> Option<int>
    decreases opens.len() - from,
{
    if from < 0 || from >= opens.len() {
        None
    } else if opens[from] {
        Some(from)
    } else {
        first_opened(opens, from + 1)
    }
}

/// The split chosen when `opens[i]` tells whether the prefix of split `i`
/// opened as a file.
pub open spec fn chosen_split(path: Seq<u8>, opens: Seq<bool>) -> Option<(Seq<u8>, Seq<u8>)> {
    match first_opened(opens, 0) {
        Some(j) => if j < path_splits(path).len() {
            Some(path_splits(path)[j])
        } else {
            None
        },
        None => None,
    }
}

proof fn lemma_slash_splits_grow(p: Seq<u8>, n: int)
    requires
        0 <= n <= p.len(),
    ensures
        forall|i: int|
            0 <= i < slash_splits(p, n).len() ==> (#[trigger] slash_splits(p, n)[i]).0.len() < n
                && slash_splits(p, n)[i].0 + slash_splits(p, n)[i].1 == p,
        forall|i: int, j: int|
            0 <= i < j < slash_splits(p, n).len() ==> (#[trigger] slash_splits(p, n)[i]).0.len()
                < (#[trigger] slash_splits(p, n)[j]).0.len(),
    decreases n,
{
    if n > 0 {
        lemma_slash_splits_grow(p, n - 1);
        let prev = slash_splits(p, n - 1);
        if is_slash(p[n - 1]) {
            let e = (p.subrange(0, n - 1), p.subrange(n - 1, p.len() as int));
            assert(e.0 + e.1 =~= p);
            let cur = prev.push(e);
            assert(cur == slash_splits(p, n));
            assert forall|i: int| 0 <= i < cur.len() implies (#[trigger] cur[i]).0.len() < n
                && cur[i].0 + cur[i].1 == p by {
                if i < prev.len() {
                    assert(cur[i] == prev[i]);
                }
            }
            assert forall|i: int, j: int| 0 <= i < j < cur.len() implies (#[trigger] cur[i]).0.len()
                < (#[trigger] cur[j]).0.len() by {
                assert(cur[i] == prev[i]);
                if j < prev.len() {
                    assert(cur[j] == prev[j]);
                }
            }
        }
    }
}

/// The splits are tried shortest prefix first, each split puts the path back
/// together, and the last one is the whole path.
pub proof fn lemma_splits_shortest_first(path: Seq<u8>)
    ensures
        path_splits(path).len() >= 1,
        path_splits(path).last() == (strip_leading_slash(path), Seq::<u8>::empty()),
        forall|i: int|
            0 <= i < path_splits(path).len() ==> (#[trigger] path_splits(path)[i]).0 + path_splits(
                path,
            )[i].1 == strip_leading_slash(path),
        forall|i: int, j: int|
            0 <= i < j < path_splits(path).len() ==> (#[trigger] path_splits(path)[i]).0.len()
                < (#[trigger] path_splits(path)[j]).0.len(),
{
    let p = strip_leading_slash(path);
    lemma_slash_splits_grow(p, p.len() as int);
    let ss = slash_splits(p, p.len() as int);
    assert(p + Seq::<u8>::empty() =~= p);
    assert forall|i: int, j: int|
        0 <= i < j < path_splits(path).len() implies (#[trigger] path_splits(path)[i]).0.len()
        < (#[trigger] path_splits(path)[j]).0.len() by {
        if j < ss.len() {
            assert(ss[i] == path_splits(path)[i] && ss[j] == path_splits(path)[j]);
        } else {
            assert(ss[i] == path_splits(path)[i]);
        }
    }
    assert forall|i: int|
        0 <= i < path_splits(path).len() implies (#[trigger] path_splits(path)[i]).0 + path_splits(
        path,
    )[i].1 == p by {
        if i < ss.len() {
            assert(ss[i] == path_splits(path)[i]);
        }
    }
}

proof fn lemma_first_opened(opens: Seq<bool>, from: int)
    requires
        0 <= from,
    ensures
        first_opened(opens, from) matches Some(j) ==> from <= j < opens.len() && opens[j] && forall|
            i: int,
        | from <= i < j ==> !opens[i],
        first_opened(opens, from) is None ==> forall|i: int| from <= i < opens.len() ==> !opens[i],
    decreases opens.len() - from,
{
    if from < opens.len() && !opens[from] {
        lemma_first_opened(opens, from + 1);
    }
}

/// The script chosen for a path is the shortest prefix, among those cut at a
/// `/` and the whole path, that opens as a file; when none opens, none is
/// chosen. `opens[i]` tells whether the prefix of split `i` opened.
pub proof fn lemma_dispatch_prefix_minimal(path: Seq<u8>, opens: Seq<bool>)
    requires
        opens.len() == path_splits(path).len(),
    ensures
        chosen_split(path, opens) is None <==> forall|i: int| 0 <= i < opens.len() ==> !opens[i],
        chosen_split(path, opens) matches Some(c) ==> exists|j: int|
            0 <= j < opens.len() && opens[j] && c == path_splits(path)[j] && forall|i: int|
                0 <= i < opens.len() && opens[i] ==> c.0.len() <= (#[trigger] path_splits(path)[i]).0.len(),
{
    lemma_first_opened(opens, 0);
    lemma_splits_shortest_first(path);
    if let Some(j) = first_opened(opens, 0) {
        let c = path_splits(path)[j];
        assert forall|i: int|
            0 <= i < opens.len() && opens[i] implies c.0.len() <= (#[trigger] path_splits(
            path,
        )[i]).0.len() by {
            if i != j {
                assert(j < i);
            }
        }
    }
}

/// Walks the splits of a path in order while the caller tries to open each
/// prefix; stops at the first one that opened.
pub struct Dispatch {
    splits: Vec<(Vec<u8>, Vec<u8>)>,
    next: usize,
    path: Ghost<Seq<u8>>,
}

impl Dispatch {
    /// The path being dispatched.
    pub closed spec fn path(&self) -> Seq<u8> {
        self.path@
    }

    /// How many prefixes failed to open so far.
    pub closed spec fn rejected(&self) -> nat {
        self.next as nat
    }

    pub closed spec fn wf(&self) -> bool {
        &&& self.splits@.len() == path_splits(self.path@).len()
        &&& forall|i: int|
            0 <= i < self.splits@.len() ==> (#[trigger] self.splits@[i]).0@ == path_splits(
                self.path@,
            )[i].0 && self.splits@[i].1@ == path_splits(self.path@)[i].1
        &&& self.next <= self.splits@.len()
    }

    pub fn new(path: &[u8]) -> (r: Self)
        ensures
            r.wf(),
            r.path() == path@,
            r.rejected() == 0,
    {
        Dispatch { splits: iter_path_splits(path), next: 0, path: Ghost(path@) }
    }

    /// The prefix to try next, or `None` once every prefix failed.
    pub fn candidate(&self) -> (r: Option<Vec<u8>>)
        requires
            self.wf(),
        ensures
            self.rejected() < path_splits(self.path()).len() <==> r is Some,
            r matches Some(c) ==> c@ == path_splits(self.path())[self.rejected() as int].0,
    {
        if self.next < self.splits.len() {
            let c = copy_range(self.splits[self.next].0.as_slice(), 0, self.splits[self.next].0.len());
            assert(c@ =~= self.splits@[self.next as int].0@);
            Some(c)
        } else {
            None
        }
    }

    /// The current candidate did not open: move to the next one.
    pub fn reject(&mut self)
        requires
            old(self).wf(),
            old(self).rejected() < path_splits(old(self).path()).len(),
        ensures
            final(self).wf(),
            final(self).path() == old(self).path(),
            final(self).rejected() == old(self).rejected() + 1,
    {
        let n = self.splits.len();
        assert(self.next < n);
        self.next = self.next + 1;
    }

    /// The current candidate opened: it is the script, and what follows it is
    /// the extra path information.
    pub fn accept(&self) -> (r: ScriptMatch)
        requires
            self.wf(),
            self.rejected() < path_splits(self.path()).len(),
        ensures
            r.script_name@ == seq![47u8] + path_splits(self.path())[self.rejected() as int].0,
            r.path_info@ == path_splits(self.path())[self.rejected() as int].1,
    {
        let (prefix, rest) = (&self.splits[self.next].0, &self.splits[self.next].1);
        let slash: Vec<u8> = vec![47u8];
        let script_name = concat(slash.as_slice(), prefix.as_slice());
        let path_info = copy_range(rest.as_slice(), 0, rest.len());
        assert(path_info@ =~= rest@);
        ScriptMatch { script_name, path_info }
    }
}

} // verus!
