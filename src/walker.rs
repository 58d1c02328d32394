//! Breadth-first walk of the note store. The caller reads directories; the
//! walker keeps the queue of pending directories and decides which files are
//! notes to be listed.

use vstd::prelude::*;
use crate::text::{
    chars_of, contains_text, copy_text, opt_view, string_of, text_contains, text_ends_with,
};

verus! {

/// A directory entry as read from disk.
pub struct Child {
    pub path: String,
    pub is_dir: bool,
}

/// The note suffix: a path qualifies when its last two characters are these.
pub open spec fn note_suffix() -> Seq<char> {
    seq!['m', 'd']
}

pub open spec fn is_note_path(p: Seq<char>) -> bool {
    text_ends_with(p, note_suffix())
}

/// Index of the last `c` in `s`, or -1.
pub open spec fn last_index_of(s: Seq<char>, c: char) -> int
    decreases s.len(),
{
    if s.len() == 0 {
        -1
    } else if s.last() == c {
        s.len() - 1
    } else {
        last_index_of(s.drop_last(), c)
    }
}

/// `p` without the extension of its file name: the text from the last dot
/// on, when that dot is in the file name and not its first character.
pub open spec fn strip_extension(p: Seq<char>) -> Seq<char> {
    let d = last_index_of(p, '.');
    if d > last_index_of(p, '/') + 1 {
        p.take(d)
    } else {
        p
    }
}

/// A note path passes the filter when there is none, or when its path
/// without extension contains the filter text.
pub open spec fn passes_filter(p: Seq<char>, filter: Option<Seq<char>>) -> bool {
    match filter {
        None => true,
        Some(f) => text_contains(strip_extension(p), f),
    }
}

/// The directories among `cs`, in order.
pub open spec fn child_dirs(cs: Seq<Child>) -> Seq<Seq<char>>
    decreases cs.len(),
{
    if cs.len() == 0 {
        Seq::empty()
    } else if cs.last().is_dir {
        child_dirs(cs.drop_last()).push(cs.last().path@)
    } else {
        child_dirs(cs.drop_last())
    }
}

/// The files among `cs` that are notes passing the filter, in order.
pub open spec fn child_notes(cs: Seq<Child>, filter: Option<Seq<char>>) -> Seq<Seq<char>>
    decreases cs.len(),
{
    if cs.len() == 0 {
        Seq::empty()
    } else if !cs.last().is_dir && is_note_path(cs.last().path@) && passes_filter(
        cs.last().path@,
        filter,
    ) {
        child_notes(cs.drop_last(), filter).push(cs.last().path@)
    } else {
        child_notes(cs.drop_last(), filter)
    }
}

proof fn lemma_last_index_range(s: Seq<char>, c: char)
    ensures
        -1 <= last_index_of(s, c) < s.len(),
        last_index_of(s, c) >= 0 ==> s[last_index_of(s, c)] == c,
    decreases s.len(),
{
    if s.len() > 0 {
        lemma_last_index_range(s.drop_last(), c);
    }
}

fn last_index(v: &Vec<char>, c: char) -> (r: Option<usize>)
    ensures
        r is None <==> last_index_of(v@, c) == -1,
        r matches Some(k) ==> k == last_index_of(v@, c),
{
    let mut i: usize = v.len();
    proof {
        assert(v@.take(v.len() as int) =~= v@);
    }
    while i > 0
        invariant
            i <= v.len(),
            last_index_of(v@, c) == last_index_of(v@.take(i as int), c),
        decreases i,
    {
        proof {
            assert(v@.take(i as int).drop_last() =~= v@.take(i - 1));
        }
        if v[i - 1] == c {
            return Some(i - 1);
        }
        i = i - 1;
    }
    None
}

/// Whether `path` is a note file: its last two characters are the suffix.
pub fn is_note(path: &str) -> (r: bool)
    ensures
        r == is_note_path(path@),
{
    let v = chars_of(path);
    let n = v.len();
    if n < 2 {
        return false;
    }
    let r = v[n - 2] == 'm' && v[n - 1] == 'd';
    proof {
        let t = v@.subrange(n - 2, n as int);
        if r {
            assert(t =~= note_suffix());
        } else {
            assert(t[0] != 'm' || t[1] != 'd');
        }
    }
    r
}

/// `path` without the extension of its file name.
pub fn without_extension(path: &str) -> (r: String)
    ensures
        r@ == strip_extension(path@),
{
    let v = chars_of(path);
    let dot = last_index(&v, '.');
    let slash = last_index(&v, '/');
    proof {
        lemma_last_index_range(v@, '.');
        lemma_last_index_range(v@, '/');
    }
    let cut: Option<usize> = match (dot, slash) {
        (Some(d), Some(s)) => if d > s && d - s > 1 { Some(d) } else { None },
        (Some(d), None) => if d > 0 { Some(d) } else { None },
        (None, _) => None,
    };
    if let Some(d) = cut {
        let mut out: Vec<char> = Vec::new();
        let mut i: usize = 0;
        while i < d
            invariant
                d <= v.len(),
                i <= d,
                out@ == v@.take(i as int),
            decreases d - i,
        {
            out.push(v[i]);
            i = i + 1;
            proof {
                assert(out@ =~= v@.take(i as int));
            }
        }
        string_of(&out)
    } else {
        copy_text(path)
    }
}

/// Whether a note at `path` passes `filter`.
pub fn keep_note(path: &str, filter: &Option<String>) -> (r: bool)
    ensures
        r == passes_filter(path@, opt_view(*filter)),
{
    match filter {
        None => true,
        Some(f) => {
            let stripped = without_extension(path);
            contains_text(stripped.as_str(), f.as_str())
        },
    }
}

/// The state of a breadth-first walk: the directories queued so far, how
/// many of them were handed out, and the notes found.
pub struct Walker {
    queue: Vec<String>,
    next: usize,
    filter: Option<String>,
    found: Vec<String>,
    visited: Ghost<Seq<Seq<Child>>>,
}

/// The notes kept from each directory listing taken in, in order.
pub open spec fn walk_notes(listings: Seq<Seq<Child>>, filter: Option<Seq<char>>) -> Seq<Seq<char>>
    decreases listings.len(),
{
    if listings.len() == 0 {
        Seq::empty()
    } else {
        walk_notes(listings.drop_last(), filter) + child_notes(listings.last(), filter)
    }
}

impl Walker {
    /// Directories queued so far, in the order they are handed out.
    pub closed spec fn queued(&self) -> Seq<Seq<char>> {
        self.queue@.map_values(|s: String| s@)
    }

    /// How many queued directories were handed out.
    pub closed spec fn handed_out(&self) -> int {
        self.next as int
    }

    /// The note paths found so far, in the order found.
    pub closed spec fn notes(&self) -> Seq<Seq<char>> {
        self.found@.map_values(|s: String| s@)
    }

    pub closed spec fn filter_view(&self) -> Option<Seq<char>> {
        opt_view(self.filter)
    }

    /// The directory listings taken in so far, in order.
    pub closed spec fn listings(&self) -> Seq<Seq<Child>> {
        self.visited@
    }

    pub closed spec fn wf(&self) -> bool {
        &&& self.next <= self.queue.len()
        &&& self.notes() == walk_notes(self.visited@, self.filter_view())
    }

    /// A walk of `root` that keeps the notes that pass `filter`.
    pub fn new(root: String, filter: Option<String>) -> (r: Self)
        ensures
            r.wf(),
            r.queued() == seq![root@],
            r.handed_out() == 0,
            r.notes() == Seq::<Seq<char>>::empty(),
            r.listings() == Seq::<Seq<Child>>::empty(),
            r.filter_view() == opt_view(filter),
    {
        let mut queue: Vec<String> = Vec::new();
        queue.push(root);
        let r = Walker { queue, next: 0, filter, found: Vec::new(), visited: Ghost(Seq::empty()) };
        proof {
            assert(r.queued() =~= seq![root@]);
            assert(r.notes() =~= Seq::<Seq<char>>::empty());
        }
        r
    }

    /// The next directory to read, first queued first; `None` when the walk
    /// is over.
    pub fn next_dir(&mut self) -> (r: Option<String>)
        requires
            old(self).wf(),
        ensures
            final(self).wf(),
            final(self).queued() == old(self).queued(),
            final(self).notes() == old(self).notes(),
            final(self).listings() == old(self).listings(),
            final(self).filter_view() == old(self).filter_view(),
            old(self).handed_out() == old(self).queued().len() ==> r is None
                && final(self).handed_out() == old(self).handed_out(),
            old(self).handed_out() < old(self).queued().len() ==> r is Some
                && r->0@ == old(self).queued()[old(self).handed_out()]
                && final(self).handed_out() == old(self).handed_out() + 1,
    {
        if self.next < self.queue.len() {
            let d = copy_text(self.queue[self.next].as_str());
            self.next = self.next + 1;
            Some(d)
        } else {
            None
        }
    }

    /// Takes in the entries of the directory last handed out: directories are
    /// queued, and files that are notes passing the filter are kept.
    pub fn visit(&mut self, children: &Vec<Child>)
        requires
            old(self).wf(),
        ensures
            final(self).wf(),
            final(self).queued() == old(self).queued() + child_dirs(children@),
            final(self).notes() == old(self).notes() + child_notes(
                children@,
                old(self).filter_view(),
            ),
            final(self).listings() == old(self).listings().push(children@),
            final(self).handed_out() == old(self).handed_out(),
            final(self).filter_view() == old(self).filter_view(),
    {
        let mut i: usize = 0;
        proof {
            assert(children@.take(0) =~= Seq::<Child>::empty());
            assert(self.queued() =~= old(self).queued() + child_dirs(children@.take(0)));
            assert(self.notes() =~= old(self).notes() + child_notes(
                children@.take(0),
                old(self).filter_view(),
            ));
        }
        while i < children.len()
            invariant
                i <= children.len(),
                self.next <= self.queue.len(),
                self.visited == old(self).visited,
                self.next == old(self).next,
                self.filter == old(self).filter,
                self.queued() == old(self).queued() + child_dirs(children@.take(i as int)),
                self.notes() == old(self).notes() + child_notes(
                    children@.take(i as int),
                    old(self).filter_view(),
                ),
            decreases children.len() - i,
        {
            let c = &children[i];
            let ghost q0 = self.queued();
            let ghost n0 = self.notes();
            proof {
                let t = children@.take(i + 1);
                assert(t.drop_last() =~= children@.take(i as int));
                assert(t.last() == children@[i as int]);
            }
            if c.is_dir {
                self.queue.push(copy_text(c.path.as_str()));
                proof {
                    assert(self.queued() =~= q0.push(c.path@));
                    assert(self.notes() =~= n0);
                }
            } else if is_note(c.path.as_str()) && keep_note(c.path.as_str(), &self.filter) {
                self.found.push(copy_text(c.path.as_str()));
                proof {
                    assert(self.notes() =~= n0.push(c.path@));
                    assert(self.queued() =~= q0);
                }
            } else {
                proof {
                    assert(self.notes() =~= n0);
                    assert(self.queued() =~= q0);
                }
            }
            i = i + 1;
        }
        proof {
            assert(children@.take(children.len() as int) =~= children@);
            let vs = old(self).visited@.push(children@);
            assert(vs.drop_last() =~= old(self).visited@);
            self.visited = Ghost(vs);
        }
    }

    /// The note paths found, in the order found.
    pub fn into_notes(self) -> (r: Vec<String>)
        requires
            self.wf(),
        ensures
            r@.map_values(|s: String| s@) == self.notes(),
            r@.map_values(|s: String| s@) == walk_notes(self.listings(), self.filter_view()),
    {
        self.found
    }
}

} // verus!

verus! {

/// A path is among the notes kept from `cs` exactly when some child is a
/// file at that path that is a note passing the filter.
pub proof fn lemma_child_notes_members(cs: Seq<Child>, filter: Option<Seq<char>>)
    ensures
        forall|p: Seq<char>| #[trigger] child_notes(cs, filter).contains(p) <==> exists|i: int|
            0 <= i < cs.len() && !cs[i].is_dir && (#[trigger] cs[i]).path@ == p && is_note_path(p)
                && passes_filter(p, filter),
    decreases cs.len(),
{
    if cs.len() > 0 {
        let init = cs.drop_last();
        let last = cs.last();
        lemma_child_notes_members(init, filter);
        let keep = !last.is_dir && is_note_path(last.path@) && passes_filter(last.path@, filter);
        assert forall|p: Seq<char>| #[trigger] child_notes(cs, filter).contains(p) <==> exists|i: int|
            0 <= i < cs.len() && !cs[i].is_dir && (#[trigger] cs[i]).path@ == p && is_note_path(p)
                && passes_filter(p, filter) by {
            let n0 = child_notes(init, filter);
            if child_notes(cs, filter).contains(p) {
                let j = choose|j: int| 0 <= j < child_notes(cs, filter).len() && child_notes(cs, filter)[j] == p;
                if j < n0.len() {
                    assert(n0[j] == p);
                    assert(n0.contains(p));
                    let i = choose|i: int|
                        0 <= i < init.len() && !init[i].is_dir && (#[trigger] init[i]).path@ == p
                            && is_note_path(p) && passes_filter(p, filter);
                    assert(cs[i] == init[i]);
                } else {
                    assert(keep && last.path@ == p);
                    assert(cs[cs.len() - 1] == last);
                }
            }
            if exists|i: int|
                0 <= i < cs.len() && !cs[i].is_dir && (#[trigger] cs[i]).path@ == p && is_note_path(p)
                    && passes_filter(p, filter) {
                let i = choose|i: int|
                    0 <= i < cs.len() && !cs[i].is_dir && (#[trigger] cs[i]).path@ == p && is_note_path(
                        p,
                    ) && passes_filter(p, filter);
                if i < cs.len() - 1 {
                    assert(init[i] == cs[i]);
                    assert(n0.contains(p));
                    let j = choose|j: int| 0 <= j < n0.len() && n0[j] == p;
                    assert(child_notes(cs, filter)[j] == p);
                } else {
                    assert(child_notes(cs, filter).last() == p);
                }
            }
        }
    }
}

} // verus!

verus! {

/// A path is among the notes a walk keeps exactly when some listing taken in
/// has a file at that path that is a note passing the filter.
pub proof fn lemma_walk_notes_members(listings: Seq<Seq<Child>>, filter: Option<Seq<char>>)
    ensures
        forall|p: Seq<char>| #[trigger] walk_notes(listings, filter).contains(p) <==> exists|k: int, i: int|
            0 <= k < listings.len() && 0 <= i < listings[k].len() && !listings[k][i].is_dir
                && (#[trigger] listings[k][i]).path@ == p && is_note_path(p) && passes_filter(p, filter),
    decreases listings.len(),
{
    if listings.len() > 0 {
        let init = listings.drop_last();
        let last = listings.last();
        lemma_walk_notes_members(init, filter);
        lemma_child_notes_members(last, filter);
        let a = walk_notes(init, filter);
        let b = child_notes(last, filter);
        assert forall|p: Seq<char>| #[trigger] walk_notes(listings, filter).contains(p) <==> exists|k: int, i: int|
            0 <= k < listings.len() && 0 <= i < listings[k].len() && !listings[k][i].is_dir
                && (#[trigger] listings[k][i]).path@ == p && is_note_path(p) && passes_filter(p, filter) by {
            let w = walk_notes(listings, filter);
            assert(w == a + b);
            if w.contains(p) {
                let j = choose|j: int| 0 <= j < w.len() && w[j] == p;
                if j < a.len() {
                    assert(a[j] == p);
                    assert(a.contains(p));
                    let (k, i) = choose|k: int, i: int|
                        0 <= k < init.len() && 0 <= i < init[k].len() && !init[k][i].is_dir
                            && (#[trigger] init[k][i]).path@ == p && is_note_path(p) && passes_filter(p, filter);
                    assert(listings[k] == init[k]);
                } else {
                    assert(b[j - a.len()] == p);
                    assert(b.contains(p));
                    let i = choose|i: int|
                        0 <= i < last.len() && !last[i].is_dir && (#[trigger] last[i]).path@ == p
                            && is_note_path(p) && passes_filter(p, filter);
                    assert(listings[listings.len() - 1] == last);
                    assert(listings[listings.len() - 1][i] == last[i]);
                }
            }
            if exists|k: int, i: int|
                0 <= k < listings.len() && 0 <= i < listings[k].len() && !listings[k][i].is_dir
                    && (#[trigger] listings[k][i]).path@ == p && is_note_path(p) && passes_filter(p, filter) {
                let (k, i) = choose|k: int, i: int|
                    0 <= k < listings.len() && 0 <= i < listings[k].len() && !listings[k][i].is_dir
                        && (#[trigger] listings[k][i]).path@ == p && is_note_path(p) && passes_filter(p, filter);
                if k < init.len() {
                    assert(init[k] == listings[k]);
                    assert(init[k][i] == listings[k][i]);
                    assert(a.contains(p));
                    let j = choose|j: int| 0 <= j < a.len() && a[j] == p;
                    assert(w[j] == p);
                } else {
                    assert(last == listings[k]);
                    assert(last[i] == listings[k][i]);
                    assert(b.contains(p));
                    let j = choose|j: int| 0 <= j < b.len() && b[j] == p;
                    assert(w[a.len() + j] == p);
                }
            }
        }
    }
}

} // verus!
