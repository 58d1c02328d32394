//! Listing: note entries, width statistics, the directory walk and the
//! command that ties them together.

use vstd::prelude::*;
use crate::cli::Commands;
use crate::error::NotesError;
use crate::index::OrderedIndex;
use crate::markdown::NotesFrontMatter;
use crate::render::{
    are_full_notes, are_short_lines, categories, default_lines, full, parses_as_datetime,
    short, visible, visible_categories, FullNote, ShortLine,
};
use crate::system::Configuration;
use crate::text::{
    copy_text, keep_nonempty, nonempty_only, opt_view, opt_views, pieces, split_text, string_of,
    views,
};
use crate::walker::{is_note_path, lemma_walk_notes_members, passes_filter, walk_notes, Child, Walker};

verus! {

/// A note found by the walk: its path, its header and the lines of its body.
pub struct ListEntry {
    pub path: String,
    pub frontmatter: NotesFrontMatter,
    pub contents: Vec<String>,
}

pub open spec fn is_hidden(e: ListEntry) -> bool {
    e.frontmatter.notes_metadata.hidden
}

/// The path segment after which name widths are counted.
pub open spec fn root_marker() -> Seq<char> {
    seq!['n', 'o', 't', 'e', 's']
}

/// The non-empty `/`-separated segments of a path.
pub open spec fn path_segments(p: Seq<char>) -> Seq<Seq<char>> {
    nonempty_only(pieces(p, '/'))
}

/// The segments after the first root marker; none when there is no marker.
pub open spec fn after_marker(segs: Seq<Seq<char>>) -> Seq<Seq<char>>
    decreases segs.len(),
{
    if segs.len() == 0 {
        Seq::empty()
    } else if segs[0] == root_marker() {
        segs.drop_first()
    } else {
        after_marker(segs.drop_first())
    }
}

/// Character count of the segments written each with a trailing separator.
pub open spec fn rendered_len(segs: Seq<Seq<char>>) -> int
    decreases segs.len(),
{
    if segs.len() == 0 {
        0
    } else {
        rendered_len(segs.drop_last()) + segs.last().len() + 1
    }
}

/// Name width of a note path.
pub open spec fn name_width(p: Seq<char>) -> int {
    rendered_len(after_marker(path_segments(p)))
}

/// The sum over tags of their character count plus the per-tag padding.
pub open spec fn tag_sum(tags: Seq<Seq<char>>) -> int
    decreases tags.len(),
{
    if tags.len() == 0 {
        0
    } else {
        tag_sum(tags.drop_last()) + tags.last().len() + 2
    }
}

proof fn lemma_tag_sum_nonneg(tags: Seq<Seq<char>>)
    ensures
        tag_sum(tags) >= 2 * tags.len(),
    decreases tags.len(),
{
    if tags.len() > 0 {
        lemma_tag_sum_nonneg(tags.drop_last());
    }
}

/// Tag width: the padded sum minus one, or zero without tags.
pub open spec fn tag_width(tags: Option<Seq<Seq<char>>>) -> int {
    match tags {
        Some(t) => if t.len() > 0 { tag_sum(t) - 1 } else { 0 },
        None => 0,
    }
}

/// A width as the executable code holds it: saturated at `usize::MAX`.
pub open spec fn clamp(x: int) -> int {
    if x > usize::MAX { usize::MAX as int } else { x }
}

pub open spec fn max(a: int, b: int) -> int {
    if a >= b { a } else { b }
}

/// The widths after folding one entry: unchanged for a hidden entry.
pub open spec fn fold_widths(w: (int, int), e: ListEntry) -> (int, int) {
    if is_hidden(e) {
        w
    } else {
        (
            max(w.0, clamp(name_width(e.path@))),
            max(w.1, clamp(tag_width(opt_views(e.frontmatter.tags)))),
        )
    }
}

/// The widths after folding `es` in order, starting from `w`.
pub open spec fn fold_from(w: (int, int), es: Seq<ListEntry>) -> (int, int)
    decreases es.len(),
{
    if es.len() == 0 {
        w
    } else {
        fold_widths(fold_from(w, es.drop_last()), es.last())
    }
}

/// The widths of a sequence of entries, folded from `(0, 0)`.
pub open spec fn widths_of(es: Seq<ListEntry>) -> (int, int)
    decreases es.len(),
{
    if es.len() == 0 {
        (0, 0)
    } else {
        fold_widths(widths_of(es.drop_last()), es.last())
    }
}

fn marker_text() -> (r: String)
    ensures
        r@ == root_marker(),
{
    let v = vec!['n', 'o', 't', 'e', 's'];
    string_of(&v)
}

/// The width that the path segments after the root marker take.
pub fn path_name_width(path: &str) -> (r: usize)
    ensures
        r == clamp(name_width(path@)),
{
    let parts = split_text(path, '/');
    let segs = keep_nonempty(&parts, 0);
    proof {
        assert(views(parts@).skip(0) =~= views(parts@));
    }
    let marker = marker_text();
    let mut k: usize = 0;
    proof {
        assert(views(segs@).skip(0) =~= views(segs@));
    }
    while k < segs.len() && segs[k] != marker
        invariant
            k <= segs.len(),
            marker@ == root_marker(),
            after_marker(views(segs@)) == after_marker(views(segs@).skip(k as int)),
        decreases segs.len() - k,
    {
        proof {
            let rest = views(segs@).skip(k as int);
            assert(rest[0] == segs@[k as int]@);
            assert(rest.drop_first() =~= views(segs@).skip(k + 1));
        }
        k = k + 1;
    }
    if k == segs.len() {
        proof {
            assert(views(segs@).skip(k as int) =~= Seq::<Seq<char>>::empty());
        }
        return 0;
    }
    let ghost tail = views(segs@).skip(k + 1);
    proof {
        let rest = views(segs@).skip(k as int);
        assert(rest[0] == segs@[k as int]@);
        assert(rest.drop_first() =~= tail);
    }
    let mut acc: usize = 0;
    let mut j: usize = k + 1;
    while j < segs.len()
        invariant
            k + 1 <= j <= segs.len(),
            tail == views(segs@).skip(k + 1),
            acc == clamp(rendered_len(tail.take(j - k - 1))),
        decreases segs.len() - j,
    {
        let n = segs[j].unicode_len();
        proof {
            let t = tail.take(j - k);
            assert(t.drop_last() =~= tail.take(j - k - 1));
            assert(t.last() == segs@[j as int]@);
        }
        acc = acc.saturating_add(n).saturating_add(1);
        j = j + 1;
    }
    proof {
        assert(tail.take(j - k - 1) =~= tail);
    }
    acc
}

/// The width that the tags take, each padded, the last one less one.
pub fn tags_width(tags: &Option<Vec<String>>) -> (r: usize)
    ensures
        r == clamp(tag_width(opt_views(*tags))),
{
    match tags {
        None => {
            assert(opt_views(*tags) is None);
            0
        },
        Some(t) => {
            assert(opt_views(*tags) == Some(views(t@)));
            if t.len() == 0 {
                return 0;
            }
            let mut acc: usize = 0;
            let mut j: usize = 0;
            while j < t.len()
                invariant
                    j <= t.len(),
                    j == 0 ==> acc == 0,
                    j > 0 ==> acc == clamp(tag_sum(views(t@).take(j as int)) - 1),
                decreases t.len() - j,
            {
                let n = t[j].unicode_len();
                proof {
                    let s = views(t@).take(j + 1);
                    assert(s.drop_last() =~= views(t@).take(j as int));
                    assert(s.last() == t@[j as int]@);
                    lemma_tag_sum_nonneg(views(t@).take(j as int));
                }
                let pad: usize = if j == 0 { 1 } else { 2 };
                proof {
                    if j == 0 {
                        assert(views(t@).take(0) =~= Seq::<Seq<char>>::empty());
                    }
                }
                acc = acc.saturating_add(n).saturating_add(pad);
                j = j + 1;
            }
            proof {
                assert(views(t@).take(j as int) =~= views(t@));
            }
            acc
        },
    }
}

/// Folds the widths of one note into the running maximums; a hidden note
/// leaves them unchanged.
pub fn compute_name_and_tag_widths(
    path: &str,
    frontmatter: &NotesFrontMatter,
    namelen: usize,
    taglen: usize,
) -> (r: (usize, usize))
    ensures
        frontmatter.notes_metadata.hidden ==> r == (namelen, taglen),
        !frontmatter.notes_metadata.hidden ==> r.0 == max(namelen as int, clamp(name_width(path@)))
            && r.1 == max(taglen as int, clamp(tag_width(opt_views(frontmatter.tags)))),
{
    if frontmatter.notes_metadata.hidden {
        return (namelen, taglen);
    }
    let ncount = path_name_width(path);
    let tcount = tags_width(&frontmatter.tags);
    let n = if namelen < ncount { ncount } else { namelen };
    let t = if taglen < tcount { tcount } else { taglen };
    (n, t)
}

} // verus!

verus! {

/// The listing modes besides the default one.
#[derive(PartialEq, Eq, Structural)]
pub enum Opts {
    Root,
    Short,
    Full,
    Categories,
}

/// The text that switches root shortening on.
pub open spec fn true_text() -> Seq<char> {
    seq!['t', 'r', 'u', 'e']
}

/// The configuration asks for the root to be shortened.
pub open spec fn hide_root_option(conf: Configuration) -> bool {
    match conf.options {
        Some(o) => match o.hide_root {
            Some(s) => s@ == true_text(),
            None => false,
        },
        None => false,
    }
}

/// The mode that the list flags select: root and categories first, then
/// short before full; none is the default mode.
pub open spec fn mode_of(root: bool, categories: bool, full: bool, short: bool) -> Option<Opts> {
    if root {
        Some(Opts::Root)
    } else if categories {
        Some(Opts::Categories)
    } else if short {
        Some(Opts::Short)
    } else if full {
        Some(Opts::Full)
    } else {
        None
    }
}

/// What a listing prints: plain lines, short lines or full blocks.
pub enum Listing {
    Lines(Vec<String>),
    Short(Vec<ShortLine>),
    Full(Vec<FullNote>),
}

/// A listing in progress: the note store's path, the filter, the mode, and
/// the entries and widths gathered so far.
pub struct ListCommand {
    path: String,
    filter: Option<String>,
    details: Option<Opts>,
    hide_root: bool,
    entries: OrderedIndex,
    namelen: usize,
    taglen: usize,
}

fn is_true_text(s: &String) -> (r: bool)
    ensures
        r == (s@ == true_text()),
{
    let v = vec!['t', 'r', 'u', 'e'];
    let t = string_of(&v);
    *s == t
}

impl ListCommand {
    /// The index is well formed and holds no hidden entry.
    pub closed spec fn wf(&self) -> bool {
        &&& self.entries.wf()
        &&& forall|i: int| 0 <= i < self.entries@.len() ==> !is_hidden(#[trigger] self.entries@[i])
    }

    /// No entry of the listing is hidden.
    pub proof fn lemma_no_hidden_entries(&self)
        requires
            self.wf(),
        ensures
            forall|i: int| 0 <= i < self.entries_view().len() ==> !is_hidden(
                #[trigger] self.entries_view()[i],
            ),
    {
    }

    /// The entries listed so far, in drain order.
    pub closed spec fn entries_view(&self) -> Seq<ListEntry> {
        self.entries@
    }

    /// The name and tag widths folded so far.
    pub closed spec fn widths(&self) -> (int, int) {
        (self.namelen as int, self.taglen as int)
    }

    pub closed spec fn details_view(&self) -> Option<Opts> {
        self.details
    }

    pub closed spec fn path_view(&self) -> Seq<char> {
        self.path@
    }

    pub closed spec fn filter_view(&self) -> Option<Seq<char>> {
        opt_view(self.filter)
    }

    pub closed spec fn hide_root_view(&self) -> bool {
        self.hide_root
    }

    /// A listing of the store at the configured path, in the mode that the
    /// flags select; root shortening is asked for by the configuration and
    /// applies to the default and full modes.
    pub fn new(args: Commands, conf: &Configuration) -> (r: Self)
        requires
            args is List,
        ensures
            r.wf(),
            r.entries_view() == Seq::<ListEntry>::empty(),
            r.widths() == (0int, 0int),
            r.path_view() == conf.settings.path@,
            args matches Commands::List { root, categories, full, short, category, .. } && {
                &&& r.details_view() == mode_of(root, categories, full, short)
                &&& r.filter_view() == opt_view(category)
                &&& r.hide_root_view() == (!root && !categories && hide_root_option(*conf))
            },
    {
        match args {
            Commands::List { root, categories, full, short, category, .. } => {
                let details = if root {
                    Some(Opts::Root)
                } else if categories {
                    Some(Opts::Categories)
                } else if short {
                    Some(Opts::Short)
                } else if full {
                    Some(Opts::Full)
                } else {
                    None
                };
                let mut hide_root = false;
                if !root && !categories {
                    if let Some(options) = &conf.options {
                        if let Some(s) = &options.hide_root {
                            hide_root = is_true_text(s);
                        }
                    }
                }
                ListCommand {
                    path: copy_text(conf.settings.path.as_str()),
                    filter: category,
                    details,
                    hide_root,
                    entries: OrderedIndex::new(),
                    namelen: 0,
                    taglen: 0,
                }
            },
            _ => {
                proof {
                    assert(false);
                }
                ListCommand {
                    path: String::new(),
                    filter: None,
                    details: None,
                    hide_root: false,
                    entries: OrderedIndex::new(),
                    namelen: 0,
                    taglen: 0,
                }
            },
        }
    }

    /// The walk this listing needs: none for the root mode; without the
    /// filter for the categories mode.
    pub fn walker(&self) -> (r: Option<Walker>)
        ensures
            self.details_view() == Some(Opts::Root) ==> r is None,
            self.details_view() != Some(Opts::Root) ==> (r matches Some(w) && {
                &&& w.wf()
                &&& w.queued() == seq![self.path_view()]
                &&& w.handed_out() == 0
                &&& w.notes() == Seq::<Seq<char>>::empty()
                &&& w.listings() == Seq::<Seq<Child>>::empty()
                &&& w.filter_view() == if self.details_view() == Some(Opts::Categories) {
                    None
                } else {
                    self.filter_view()
                }
            }),
    {
        match &self.details {
            Some(Opts::Root) => None,
            Some(Opts::Categories) => Some(Walker::new(copy_text(self.path.as_str()), None)),
            _ => {
                let filter = match &self.filter {
                    Some(f) => Some(copy_text(f.as_str())),
                    None => None,
                };
                Some(Walker::new(copy_text(self.path.as_str()), filter))
            },
        }
    }

    /// Takes in one note: its widths are folded into the running maximums
    /// and it joins the index, unless it is hidden, when nothing changes.
    pub fn add_entry(&mut self, e: ListEntry)
        requires
            old(self).wf(),
        ensures
            final(self).wf(),
            final(self).widths() == fold_widths(old(self).widths(), e),
            is_hidden(e) ==> final(self).entries_view() == old(self).entries_view(),
            !is_hidden(e) ==> final(self).entries_view().to_multiset() == old(
                self,
            ).entries_view().to_multiset().insert(e),
            final(self).details_view() == old(self).details_view(),
            final(self).path_view() == old(self).path_view(),
            final(self).filter_view() == old(self).filter_view(),
            final(self).hide_root_view() == old(self).hide_root_view(),
    {
        let (n, t) = compute_name_and_tag_widths(
            e.path.as_str(),
            &e.frontmatter,
            self.namelen,
            self.taglen,
        );
        self.namelen = n;
        self.taglen = t;
        if !e.frontmatter.notes_metadata.hidden {
            let ghost before = self.entries@;
            self.entries.push(e);
            proof {
                let p = choose|p: int| 0 <= p <= before.len() && self.entries@ == before.insert(p, e);
                assert forall|i: int| 0 <= i < self.entries@.len() implies !is_hidden(
                    #[trigger] self.entries@[i],
                ) by {
                    if i < p {
                        assert(self.entries@[i] == before[i]);
                    } else if i > p {
                        assert(self.entries@[i] == before[i - 1]);
                    }
                }
            }
        }
    }

    /// Takes in the notes `es` in order, as `add_entry` takes in each.
    pub fn add_entries(&mut self, es: Vec<ListEntry>)
        requires
            old(self).wf(),
        ensures
            final(self).wf(),
            final(self).widths() == fold_from(old(self).widths(), es@),
            final(self).entries_view().to_multiset() == old(self).entries_view().to_multiset().add(
                visible(es@).to_multiset(),
            ),
            final(self).details_view() == old(self).details_view(),
            final(self).path_view() == old(self).path_view(),
            final(self).filter_view() == old(self).filter_view(),
            final(self).hide_root_view() == old(self).hide_root_view(),
    {
        let ghost all = es@;
        let mut es = es;
        proof {
            assert(es@ =~= all.skip(0));
            assert(all.take(0) =~= Seq::<ListEntry>::empty());
            assert(old(self).entries_view().to_multiset().add(
                visible(all.take(0)).to_multiset(),
            ) =~= old(self).entries_view().to_multiset());
        }
        let mut taken: usize = 0;
        let n = es.len();
        while es.len() > 0
            invariant
                self.wf(),
                taken + es.len() == n,
                n == all.len(),
                es@ == all.skip(taken as int),
                self.widths() == fold_from(old(self).widths(), all.take(taken as int)),
                self.entries_view().to_multiset() == old(self).entries_view().to_multiset().add(
                    visible(all.take(taken as int)).to_multiset(),
                ),
                self.details_view() == old(self).details_view(),
                self.path_view() == old(self).path_view(),
                self.filter_view() == old(self).filter_view(),
                self.hide_root_view() == old(self).hide_root_view(),
            decreases es.len(),
        {
            let e = es.remove(0);
            proof {
                assert(e == all[taken as int]);
                assert(es@ =~= all.skip(taken + 1));
                let t = all.take(taken + 1);
                assert(t.drop_last() =~= all.take(taken as int));
                assert(t.last() == e);
            }
            let ghost before = self.entries_view().to_multiset();
            self.add_entry(e);
            taken = taken + 1;
            proof {
                let t = all.take(taken as int);
                let v0 = visible(t.drop_last());
                if !is_hidden(e) {
                    assert(visible(t) == v0.push(e));
                    vstd::seq_lib::to_multiset_build(v0, e);
                    assert(self.entries_view().to_multiset() =~= old(self).entries_view().to_multiset().add(
                        visible(t).to_multiset(),
                    ));
                } else {
                    assert(visible(t) == v0);
                }
            }
        }
        proof {
            assert(all.take(n as int) =~= all);
        }
    }

    /// Renders the listing. `data_dir` is the root that shortening
    /// abbreviates, and shortening applies only when `terminal` is set too.
    pub fn render(self, data_dir: &str, terminal: bool) -> (r: Result<Listing, NotesError>)
        requires
            self.wf(),
        ensures
            ({
                let es = self.entries_view();
                let (nlen, taglen) = self.widths();
                let root = if self.hide_root_view() && terminal {
                    Some(data_dir@)
                } else {
                    None
                };
                match self.details_view() {
                    Some(Opts::Root) => r matches Ok(Listing::Lines(ls)) && views(ls@) == seq![
                        self.path_view(),
                    ],
                    Some(Opts::Categories) => r matches Ok(Listing::Lines(ls)) && views(ls@).to_set()
                        == visible_categories(es) && views(ls@).no_duplicates(),
                    None => r matches Ok(Listing::Lines(ls)) && views(ls@) == default_lines(es, root),
                    Some(Opts::Short) => {
                        &&& r is Err <==> exists|i: int|
                            0 <= i < visible(es).len() && !parses_as_datetime(
                                #[trigger] visible(es)[i].frontmatter.date@,
                            )
                        &&& r matches Ok(l) ==> l matches Listing::Short(ls) && are_short_lines(
                            ls@,
                            visible(es),
                            nlen,
                            taglen,
                        )
                    },
                    Some(Opts::Full) => {
                        &&& r is Err <==> exists|i: int|
                            0 <= i < visible(es).len() && !parses_as_datetime(
                                #[trigger] visible(es)[i].frontmatter.date@,
                            )
                        &&& r matches Ok(l) ==> l matches Listing::Full(ns) && are_full_notes(
                            ns@,
                            visible(es),
                            root,
                        )
                    },
                }
            }),
    {
        let root: Option<String> = if self.hide_root && terminal {
            Some(copy_text(data_dir))
        } else {
            None
        };
        let nlen = self.namelen;
        let taglen = self.taglen;
        let details = self.details;
        let path = self.path;
        let entries = self.entries.into_sorted();
        match details {
            Some(Opts::Root) => {
                let mut v: Vec<String> = Vec::new();
                v.push(path);
                proof {
                    assert(views(v@) =~= seq![v@[0]@]);
                }
                Ok(Listing::Lines(v))
            },
            Some(Opts::Categories) => Ok(Listing::Lines(categories(&entries))),
            None => Ok(Listing::Lines(crate::render::default(&entries, &root))),
            Some(Opts::Short) => match short(&entries, nlen, taglen) {
                Ok(ls) => Ok(Listing::Short(ls)),
                Err(e) => Err(e),
            },
            Some(Opts::Full) => match full(&entries, &root) {
                Ok(ns) => Ok(Listing::Full(ns)),
                Err(e) => Err(e),
            },
        }
    }
}

} // verus!

verus! {

broadcast use vstd::seq_lib::group_to_multiset_ensures;

proof fn lemma_widths_bounds(es: Seq<ListEntry>)
    ensures
        widths_of(es).0 >= 0,
        widths_of(es).1 >= 0,
        forall|i: int|
            0 <= i < es.len() && !is_hidden(es[i]) ==> clamp(name_width(#[trigger] es[i].path@))
                <= widths_of(es).0 && clamp(tag_width(opt_views(es[i].frontmatter.tags)))
                <= widths_of(es).1,
        widths_of(es).0 == 0 || exists|i: int|
            0 <= i < es.len() && !is_hidden(es[i]) && widths_of(es).0 == clamp(
                name_width(#[trigger] es[i].path@),
            ),
        widths_of(es).1 == 0 || exists|i: int|
            0 <= i < es.len() && !is_hidden(es[i]) && widths_of(es).1 == clamp(
                tag_width(opt_views(#[trigger] es[i].frontmatter.tags)),
            ),
    decreases es.len(),
{
    if es.len() > 0 {
        let init = es.drop_last();
        lemma_widths_bounds(init);
        let n = es.len() - 1;
        assert forall|i: int| 0 <= i < n implies #[trigger] es[i] == init[i] by {}
        if widths_of(es).0 != 0 && widths_of(es).0 != widths_of(init).0 {
            assert(widths_of(es).0 == clamp(name_width(es[n].path@)));
        }
        if widths_of(es).0 != 0 && widths_of(es).0 == widths_of(init).0 {
            let i = choose|i: int|
                0 <= i < init.len() && !is_hidden(init[i]) && widths_of(init).0 == clamp(
                    name_width(#[trigger] init[i].path@),
                );
            assert(es[i] == init[i]);
        }
        if widths_of(es).1 != 0 && widths_of(es).1 != widths_of(init).1 {
            assert(widths_of(es).1 == clamp(tag_width(opt_views(es[n].frontmatter.tags))));
        }
        if widths_of(es).1 != 0 && widths_of(es).1 == widths_of(init).1 {
            let i = choose|i: int|
                0 <= i < init.len() && !is_hidden(init[i]) && widths_of(init).1 == clamp(
                    tag_width(opt_views(#[trigger] init[i].frontmatter.tags)),
                );
            assert(es[i] == init[i]);
        }
    }
}

/// Folding from `(0, 0)` gives the widths of the entries.
pub proof fn lemma_fold_from_zero(es: Seq<ListEntry>)
    ensures
        fold_from((0, 0), es) == widths_of(es),
    decreases es.len(),
{
    if es.len() > 0 {
        lemma_fold_from_zero(es.drop_last());
    }
}

/// Folding the widths of the same entries in any order gives the same
/// (name width, tag width) pair.
pub proof fn lemma_widths_order_independent(a: Seq<ListEntry>, b: Seq<ListEntry>)
    requires
        a.to_multiset() == b.to_multiset(),
    ensures
        widths_of(a) == widths_of(b),
{
    lemma_widths_bounds(a);
    lemma_widths_bounds(b);
    assert forall|x: ListEntry| a.contains(x) <==> b.contains(x) by {
        assert(a.contains(x) <==> a.to_multiset().count(x) > 0);
        assert(b.contains(x) <==> b.to_multiset().count(x) > 0);
    }
    if widths_of(b).0 != 0 {
        let i = choose|i: int|
            0 <= i < b.len() && !is_hidden(b[i]) && widths_of(b).0 == clamp(
                name_width(#[trigger] b[i].path@),
            );
        assert(b.contains(b[i]));
        let j = choose|j: int| 0 <= j < a.len() && a[j] == b[i];
        assert(clamp(name_width(a[j].path@)) <= widths_of(a).0);
    }
    if widths_of(a).0 != 0 {
        let i = choose|i: int|
            0 <= i < a.len() && !is_hidden(a[i]) && widths_of(a).0 == clamp(
                name_width(#[trigger] a[i].path@),
            );
        assert(a.contains(a[i]));
        let j = choose|j: int| 0 <= j < b.len() && b[j] == a[i];
        assert(clamp(name_width(b[j].path@)) <= widths_of(b).0);
    }
    if widths_of(b).1 != 0 {
        let i = choose|i: int|
            0 <= i < b.len() && !is_hidden(b[i]) && widths_of(b).1 == clamp(
                tag_width(opt_views(#[trigger] b[i].frontmatter.tags)),
            );
        assert(b.contains(b[i]));
        let j = choose|j: int| 0 <= j < a.len() && a[j] == b[i];
        assert(clamp(name_width(a[j].path@)) <= widths_of(a).0);
        assert(clamp(tag_width(opt_views(a[j].frontmatter.tags))) <= widths_of(a).1);
    }
    if widths_of(a).1 != 0 {
        let i = choose|i: int|
            0 <= i < a.len() && !is_hidden(a[i]) && widths_of(a).1 == clamp(
                tag_width(opt_views(#[trigger] a[i].frontmatter.tags)),
            );
        assert(a.contains(a[i]));
        let j = choose|j: int| 0 <= j < b.len() && b[j] == a[i];
        assert(clamp(name_width(b[j].path@)) <= widths_of(b).0);
        assert(clamp(tag_width(opt_views(b[j].frontmatter.tags))) <= widths_of(b).1);
    }
}

/// A hidden note adds nothing: the widths, the visible entries, the default
/// lines and the categories are those without it, and no visible entry is
/// hidden, so neither the short nor the full mode shows it.
pub proof fn lemma_hidden_note_is_silent(es: Seq<ListEntry>, e: ListEntry, root: Option<Seq<char>>)
    requires
        is_hidden(e),
    ensures
        widths_of(es.push(e)) == widths_of(es),
        visible(es.push(e)) == visible(es),
        default_lines(es.push(e), root) == default_lines(es, root),
        visible_categories(es.push(e)) == visible_categories(es),
        forall|i: int| 0 <= i < visible(es).len() ==> !is_hidden(#[trigger] visible(es)[i]),
{
    let s = es.push(e);
    assert(s.drop_last() =~= es);
    lemma_visible_all_shown(es);
    assert(visible_categories(s) =~= visible_categories(es)) by {
        assert forall|c: Seq<char>| #[trigger] visible_categories(s).contains(c) implies visible_categories(
            es,
        ).contains(c) by {
            let i = choose|i: int|
                0 <= i < s.len() && !is_hidden(#[trigger] s[i]) && opt_view(
                    s[i].frontmatter.notes_metadata.category,
                ) == Some(c);
            assert(s[i] == es[i]);
        }
        assert forall|c: Seq<char>| #[trigger] visible_categories(es).contains(c) implies visible_categories(
            s,
        ).contains(c) by {
            let i = choose|i: int|
                0 <= i < es.len() && !is_hidden(#[trigger] es[i]) && opt_view(
                    es[i].frontmatter.notes_metadata.category,
                ) == Some(c);
            assert(s[i] == es[i]);
        }
    }
}

proof fn lemma_visible_all_shown(es: Seq<ListEntry>)
    ensures
        forall|i: int| 0 <= i < visible(es).len() ==> !is_hidden(#[trigger] visible(es)[i]),
        forall|x: ListEntry| #[trigger] visible(es).contains(x) <==> (es.contains(x) && !is_hidden(x)),
    decreases es.len(),
{
    if es.len() > 0 {
        let init = es.drop_last();
        let last = es.last();
        lemma_visible_all_shown(init);
        assert(es =~= init.push(last));
        assert forall|x: ListEntry| es.contains(x) <==> (init.contains(x) || x == last) by {
            if es.contains(x) {
                let j = choose|j: int| 0 <= j < es.len() && es[j] == x;
                if j < init.len() {
                    assert(init[j] == x);
                }
            }
            if init.contains(x) {
                let j = choose|j: int| 0 <= j < init.len() && init[j] == x;
                assert(es[j] == x);
            }
            if x == last {
                assert(es[es.len() - 1] == x);
            }
        }
        if is_hidden(last) {
            assert(visible(es) == visible(init));
        } else {
            let v = visible(init).push(last);
            assert(visible(es) == v);
            assert forall|x: ListEntry| v.contains(x) <==> (visible(init).contains(x) || x == last) by {
                if v.contains(x) {
                    let j = choose|j: int| 0 <= j < v.len() && v[j] == x;
                    if j < visible(init).len() {
                        assert(visible(init)[j] == x);
                    }
                }
                if visible(init).contains(x) {
                    let j = choose|j: int| 0 <= j < visible(init).len() && visible(init)[j] == x;
                    assert(v[j] == x);
                }
                if x == last {
                    assert(v[v.len() - 1] == x);
                }
            }
            assert forall|i: int| 0 <= i < v.len() implies !is_hidden(#[trigger] v[i]) by {
                if i < visible(init).len() {
                    assert(v[i] == visible(init)[i]);
                }
            }
        }
    }
}

proof fn lemma_default_lines_paths(q: Seq<ListEntry>)
    ensures
        forall|p: Seq<char>| #[trigger] default_lines(q, None).contains(p) <==> exists|i: int|
            0 <= i < q.len() && !is_hidden(q[i]) && (#[trigger] q[i]).path@ == p,
    decreases q.len(),
{
    if q.len() > 0 {
        let init = q.drop_last();
        lemma_default_lines_paths(init);
        assert forall|p: Seq<char>| #[trigger] default_lines(q, None).contains(p) <==> exists|i: int|
            0 <= i < q.len() && !is_hidden(q[i]) && (#[trigger] q[i]).path@ == p by {
            if default_lines(q, None).contains(p) {
                let j = choose|j: int| 0 <= j < default_lines(q, None).len() && default_lines(q, None)[j] == p;
                if j < default_lines(init, None).len() {
                    assert(default_lines(init, None)[j] == p);
                    assert(default_lines(init, None).contains(p));
                    let i = choose|i: int| 0 <= i < init.len() && !is_hidden(init[i]) && (#[trigger] init[i]).path@ == p;
                    assert(q[i] == init[i]);
                } else {
                    assert(q[q.len() - 1].path@ == p);
                }
            }
            if exists|i: int| 0 <= i < q.len() && !is_hidden(q[i]) && (#[trigger] q[i]).path@ == p {
                let i = choose|i: int| 0 <= i < q.len() && !is_hidden(q[i]) && (#[trigger] q[i]).path@ == p;
                if i < q.len() - 1 {
                    assert(init[i] == q[i]);
                    assert(default_lines(init, None).contains(p));
                    let j = choose|j: int| 0 <= j < default_lines(init, None).len() && default_lines(init, None)[j] == p;
                    assert(default_lines(q, None)[j] == p);
                } else {
                    assert(default_lines(q, None).last() == p);
                }
            }
        }
    }
}

} // verus!

verus! {

/// The default mode lists exactly the visible notes among those a walk
/// keeps, and a walk keeps exactly the note files of the directories it
/// read whose path without extension contains the filter: so for every
/// filter, the default output is the visible notes that pass it.
pub proof fn lemma_default_lists_filtered(
    listings: Seq<Seq<Child>>,
    filter: Option<Seq<char>>,
    es: Seq<ListEntry>,
    q: Seq<ListEntry>,
)
    requires
        es.map_values(|e: ListEntry| e.path@) == walk_notes(listings, filter),
        q.to_multiset() == visible(es).to_multiset(),
    ensures
        forall|p: Seq<char>| #[trigger] default_lines(q, None).contains(p) <==> exists|i: int|
            0 <= i < es.len() && !is_hidden(es[i]) && (#[trigger] es[i]).path@ == p,
        forall|p: Seq<char>|
            (exists|i: int| 0 <= i < es.len() && (#[trigger] es[i]).path@ == p) <==> #[trigger] walk_notes(
                listings,
                filter,
            ).contains(p),
        forall|p: Seq<char>| #[trigger] walk_notes(listings, filter).contains(p) <==> exists|k: int, i: int|
            0 <= k < listings.len() && 0 <= i < listings[k].len() && !listings[k][i].is_dir
                && (#[trigger] listings[k][i]).path@ == p && is_note_path(p) && passes_filter(p, filter),
{
    lemma_walk_notes_members(listings, filter);
    lemma_default_lines_paths(q);
    lemma_visible_all_shown(es);
    let ps = es.map_values(|e: ListEntry| e.path@);
    assert forall|x: ListEntry| q.contains(x) <==> visible(es).contains(x) by {
        assert(q.contains(x) <==> q.to_multiset().count(x) > 0);
        assert(visible(es).contains(x) <==> visible(es).to_multiset().count(x) > 0);
    }
    assert forall|p: Seq<char>| #[trigger] default_lines(q, None).contains(p) <==> exists|i: int|
        0 <= i < es.len() && !is_hidden(es[i]) && (#[trigger] es[i]).path@ == p by {
        if default_lines(q, None).contains(p) {
            let k = choose|k: int| 0 <= k < q.len() && !is_hidden(q[k]) && (#[trigger] q[k]).path@ == p;
            assert(q.contains(q[k]));
            assert(visible(es).contains(q[k]));
            assert(es.contains(q[k]));
            let i = choose|i: int| 0 <= i < es.len() && es[i] == q[k];
            assert(es[i].path@ == p);
        }
        if exists|i: int| 0 <= i < es.len() && !is_hidden(es[i]) && (#[trigger] es[i]).path@ == p {
            let i = choose|i: int| 0 <= i < es.len() && !is_hidden(es[i]) && (#[trigger] es[i]).path@ == p;
            assert(es.contains(es[i]));
            assert(visible(es).contains(es[i]));
            assert(q.contains(es[i]));
            let k = choose|k: int| 0 <= k < q.len() && q[k] == es[i];
            assert(!is_hidden(q[k]) && q[k].path@ == p);
        }
    }
    assert forall|p: Seq<char>|
        (exists|i: int| 0 <= i < es.len() && (#[trigger] es[i]).path@ == p) <==> #[trigger] walk_notes(
            listings,
            filter,
        ).contains(p) by {
        if exists|i: int| 0 <= i < es.len() && (#[trigger] es[i]).path@ == p {
            let i = choose|i: int| 0 <= i < es.len() && (#[trigger] es[i]).path@ == p;
            assert(ps[i] == p);
        }
        if walk_notes(listings, filter).contains(p) {
            let j = choose|j: int| 0 <= j < ps.len() && ps[j] == p;
            assert(es[j].path@ == p);
        }
    }
}

} // verus!
