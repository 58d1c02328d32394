//! The ordered index: entries kept newest first, ties broken by category.

use vstd::prelude::*;
use crate::list::ListEntry;
use crate::text::{
    lemma_text_lt_irreflexive, lemma_text_lt_total, lemma_text_lt_transitive, opt_view, text_less,
    text_lt,
};

verus! {

broadcast use vstd::seq_lib::group_to_multiset_ensures;

/// `None` orders before any `Some`; two `Some` order by their text.
pub open spec fn option_lt(a: Option<Seq<char>>, b: Option<Seq<char>>) -> bool {
    match (a, b) {
        (None, Some(_)) => true,
        (Some(x), Some(y)) => text_lt(x, y),
        _ => false,
    }
}

/// The key that orders an entry: its date text and its category.
pub open spec fn sort_key(e: ListEntry) -> (Seq<char>, Option<Seq<char>>) {
    (e.frontmatter.date@, opt_view(e.frontmatter.notes_metadata.category))
}

/// `a` orders strictly before `b`: earlier date, or the same date and a
/// smaller category.
pub open spec fn entry_lt(a: ListEntry, b: ListEntry) -> bool {
    let (da, ca) = sort_key(a);
    let (db, cb) = sort_key(b);
    text_lt(da, db) || (da == db && option_lt(ca, cb))
}

/// Each entry orders at least as high as every entry after it.
pub open spec fn non_increasing(s: Seq<ListEntry>) -> bool {
    forall|i: int, j: int| 0 <= i < j < s.len() ==> !entry_lt(#[trigger] s[i], #[trigger] s[j])
}

proof fn lemma_option_lt_total(a: Option<Seq<char>>, b: Option<Seq<char>>)
    ensures
        a != b ==> (option_lt(a, b) || option_lt(b, a)),
        !(option_lt(a, b) && option_lt(b, a)),
        !option_lt(a, a),
{
    match (a, b) {
        (Some(x), Some(y)) => {
            lemma_text_lt_total(x, y);
            lemma_text_lt_irreflexive(x);
        },
        _ => {},
    }
    if let Some(x) = a {
        lemma_text_lt_irreflexive(x);
    }
}

/// The entry order is a strict weak order whose ties are equal keys.
pub proof fn lemma_entry_lt_order(a: ListEntry, b: ListEntry, c: ListEntry)
    ensures
        !entry_lt(a, a),
        !(entry_lt(a, b) && entry_lt(b, a)),
        sort_key(a) != sort_key(b) ==> entry_lt(a, b) || entry_lt(b, a),
        entry_lt(a, b) && entry_lt(b, c) ==> entry_lt(a, c),
        !entry_lt(b, a) && entry_lt(b, c) ==> entry_lt(a, c),
{
    let (da, ca) = sort_key(a);
    let (db, cb) = sort_key(b);
    let (dc, cc) = sort_key(c);
    lemma_text_lt_irreflexive(da);
    lemma_text_lt_total(da, db);
    lemma_text_lt_total(db, dc);
    lemma_text_lt_total(da, dc);
    lemma_option_lt_total(ca, cb);
    lemma_option_lt_total(cb, cc);
    lemma_option_lt_total(ca, cc);
    if text_lt(da, db) && text_lt(db, dc) {
        lemma_text_lt_transitive(da, db, dc);
    }
    if entry_lt(a, b) && entry_lt(b, c) {
        match (ca, cb, cc) {
            (Some(x), Some(y), Some(z)) => {
                if text_lt(x, y) && text_lt(y, z) {
                    lemma_text_lt_transitive(x, y, z);
                }
            },
            _ => {},
        }
    }
    if !entry_lt(b, a) && entry_lt(b, c) {
        if da != db {
            if text_lt(db, dc) {
                lemma_text_lt_transitive(da, db, dc);
            }
        } else if ca != cb {
            match (ca, cb, cc) {
                (Some(x), Some(y), Some(z)) => {
                    if text_lt(y, z) {
                        lemma_text_lt_transitive(x, y, z);
                    }
                },
                _ => {},
            }
        }
    }
}

/// Whether `a` orders strictly before `b`.
pub fn entry_less(a: &ListEntry, b: &ListEntry) -> (r: bool)
    ensures
        r == entry_lt(*a, *b),
{
    let da = a.frontmatter.date.as_str();
    let db = b.frontmatter.date.as_str();
    if text_less(da, db) {
        return true;
    }
    if text_less(db, da) {
        proof {
            lemma_text_lt_total(da@, db@);
        }
        return false;
    }
    proof {
        lemma_text_lt_total(da@, db@);
    }
    match (&a.frontmatter.notes_metadata.category, &b.frontmatter.notes_metadata.category) {
        (None, Some(_)) => true,
        (Some(x), Some(y)) => text_less(x.as_str(), y.as_str()),
        _ => false,
    }
}

/// A priority collection of entries, drained greatest first.
pub struct OrderedIndex {
    entries: Vec<ListEntry>,
}

impl View for OrderedIndex {
    type V = Seq<ListEntry>;

    /// The entries in the order in which they will be drained.
    closed spec fn view(&self) -> Seq<ListEntry> {
        self.entries@
    }
}

impl OrderedIndex {
    /// The drain order never places an entry before a greater one.
    pub closed spec fn wf(&self) -> bool {
        non_increasing(self.entries@)
    }

    pub fn new() -> (r: Self)
        ensures
            r.wf(),
            r@ == Seq::<ListEntry>::empty(),
    {
        OrderedIndex { entries: Vec::new() }
    }

    pub fn len(&self) -> (r: usize)
        ensures
            r == self@.len(),
    {
        self.entries.len()
    }

    /// Adds `e` after every entry that is not smaller than it and before the
    /// smaller ones.
    pub fn push(&mut self, e: ListEntry)
        requires
            old(self).wf(),
        ensures
            final(self).wf(),
            final(self)@.to_multiset() == old(self)@.to_multiset().insert(e),
            exists|p: int|
                0 <= p <= old(self)@.len() && final(self)@ == old(self)@.insert(p, e),
    {
        let mut p: usize = 0;
        while p < self.entries.len() && !entry_less(&self.entries[p], &e)
            invariant
                p <= self.entries.len(),
                forall|i: int| 0 <= i < p ==> !entry_lt(#[trigger] self.entries@[i], e),
            decreases self.entries.len() - p,
        {
            p = p + 1;
        }
        let ghost before = self.entries@;
        self.entries.insert(p, e);
        proof {
            let s = self.entries@;
            assert(s == before.insert(p as int, e));
            assert(self@ == old(self)@.insert(p as int, e));
            assert forall|i: int, j: int| 0 <= i < j < s.len() implies !entry_lt(
                #[trigger] s[i],
                #[trigger] s[j],
            ) by {
                if j < p {
                    assert(s[i] == before[i] && s[j] == before[j]);
                } else if j == p {
                    assert(s[i] == before[i]);
                } else if i == p {
                    // before[p] < e, and before[j - 1] is not above before[p]
                    let x = before[p as int];
                    let y = before[j - 1];
                    if j - 1 > p {
                        assert(!entry_lt(x, y));
                    }
                    lemma_entry_lt_order(y, x, e);
                    lemma_entry_lt_order(e, y, e);
                } else if i < p {
                    assert(s[i] == before[i] && s[j] == before[j - 1]);
                } else {
                    assert(s[i] == before[i - 1] && s[j] == before[j - 1]);
                }
            }
        }
    }

    /// Removes and returns the greatest entry, `None` when empty.
    pub fn pop(&mut self) -> (r: Option<ListEntry>)
        requires
            old(self).wf(),
        ensures
            final(self).wf(),
            old(self)@.len() == 0 ==> r is None && final(self)@ == old(self)@,
            old(self)@.len() > 0 ==> r == Some(old(self)@[0]) && final(self)@ == old(self)@.drop_first(),
    {
        if self.entries.len() == 0 {
            None
        } else {
            let e = self.entries.remove(0);
            proof {
                let s = self.entries@;
                assert forall|i: int, j: int| 0 <= i < j < s.len() implies !entry_lt(
                    #[trigger] s[i],
                    #[trigger] s[j],
                ) by {
                    assert(s[i] == old(self).entries@[i + 1]);
                    assert(s[j] == old(self).entries@[j + 1]);
                }
            }
            Some(e)
        }
    }

    /// All entries, greatest first.
    pub fn into_sorted(self) -> (r: Vec<ListEntry>)
        requires
            self.wf(),
        ensures
            r@ == self@,
            non_increasing(r@),
    {
        self.entries
    }
}

/// Draining a well-formed index yields its entries in non-increasing order.
pub proof fn lemma_drain_order(q: OrderedIndex)
    requires
        q.wf(),
    ensures
        non_increasing(q@),
{
}

} // verus!
