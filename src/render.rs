//! The render modes: what each one prints for the entries of the index,
//! drained greatest first. Colour and the writing itself are the caller's.

use vstd::prelude::*;
use crate::error::NotesError;
use crate::list::{clamp, is_hidden, ListEntry};
use crate::text::{
    chars_of, copy_text, join, joined, opt_view, opt_views, pad_right, pieces, push_char,
    push_text, spaces, split_text, string_of, views,
};

verus! {

/// Whether chrono reads `s` as a date and time (relaxed RFC 3339).
pub uninterp spec fn parses_as_datetime(s: Seq<char>) -> bool;

/// Relies on chrono: `str::parse::<DateTime<Local>>` reads the date, which
/// succeeds exactly when reading it as a `DateTime<FixedOffset>` does, and
/// `DateTime::format` renders it in the machine's time zone, so the text is
/// not stated. The two calls stand together because Verus refuses a
/// declaration of chrono's `DateTime` (its `TimeZone` bound).
#[verifier::external_body]
fn display_date(date: &str) -> (r: Option<String>)
    ensures
        r is Some <==> parses_as_datetime(date@),
{
    match date.parse::<chrono::DateTime<chrono::Local>>() {
        Ok(dt) => Some(dt.format("%d-%b-%Y %H:%M:%S %P %z").to_string()),
        Err(_) => None,
    }
}

/// The abbreviation of a root directory: each separator that is not the
/// last character, followed by the character after it.
pub open spec fn abbreviated_upto(root: Seq<char>, i: int) -> Seq<char>
    decreases i,
{
    if i <= 0 {
        Seq::empty()
    } else {
        let k = i - 1;
        abbreviated_upto(root, k) + if root[k] == '/' && k != root.len() - 1 {
            seq![root[k], root[k + 1]]
        } else {
            Seq::empty()
        }
    }
}

pub open spec fn abbreviated(root: Seq<char>) -> Seq<char> {
    abbreviated_upto(root, root.len() as int)
}

/// A path as listed: unchanged, or with the root prefix abbreviated.
pub open spec fn shown_path(path: Seq<char>, root: Option<Seq<char>>) -> Seq<char> {
    match root {
        None => path,
        Some(r) => abbreviated(r) + if r.is_prefix_of(path) {
            path.skip(r.len() as int)
        } else {
            path
        },
    }
}

/// Abbreviates each directory of `root` to its first letter.
pub fn abbreviate(root: &str) -> (r: String)
    ensures
        r@ == abbreviated(root@),
{
    let v = chars_of(root);
    let mut out = String::new();
    let mut i: usize = 0;
    while i < v.len()
        invariant
            i <= v.len(),
            v@ == root@,
            out@ == abbreviated_upto(v@, i as int),
        decreases v.len() - i,
    {
        if v[i] == '/' && i != v.len() - 1 {
            push_char(&mut out, v[i]);
            push_char(&mut out, v[i + 1]);
        }
        i = i + 1;
        proof {
            assert(out@ =~= abbreviated_upto(v@, i as int));
        }
    }
    out
}

/// The path of a note as listed, abbreviating `root` when one is given.
pub fn show_path(path: &str, root: &Option<String>) -> (r: String)
    ensures
        r@ == shown_path(path@, opt_view(*root)),
{
    match root {
        None => copy_text(path),
        Some(rt) => {
            let mut out = abbreviate(rt.as_str());
            let p = chars_of(path);
            let q = chars_of(rt.as_str());
            let mut prefix = q.len() <= p.len();
            let mut i: usize = 0;
            while prefix && i < q.len()
                invariant
                    i <= q.len(),
                    prefix ==> q.len() <= p.len(),
                    prefix ==> forall|k: int| 0 <= k < i ==> q@[k] == p@[k],
                    !prefix ==> !q@.is_prefix_of(p@),
                decreases q.len() - i + if prefix { 1int } else { 0int },
            {
                if q[i] != p[i] {
                    prefix = false;
                } else {
                    i = i + 1;
                }
            }
            if prefix {
                proof {
                    assert(q@.is_prefix_of(p@)) by {
                        assert(p@.subrange(0, q@.len() as int) =~= q@);
                    }
                }
                let mut rest: Vec<char> = Vec::new();
                let mut j: usize = q.len();
                while j < p.len()
                    invariant
                        q.len() <= j <= p.len(),
                        rest@ == p@.subrange(q.len() as int, j as int),
                    decreases p.len() - j,
                {
                    rest.push(p[j]);
                    j = j + 1;
                    proof {
                        assert(rest@ =~= p@.subrange(q.len() as int, j as int));
                    }
                }
                let tail = string_of(&rest);
                push_text(&mut out, tail.as_str());
                proof {
                    assert(p@.subrange(q.len() as int, p.len() as int) =~= p@.skip(q.len() as int));
                }
            } else {
                push_text(&mut out, path);
            }
            out
        },
    }
}

/// The lines of the default mode: the listed path of each visible entry.
pub open spec fn default_lines(es: Seq<ListEntry>, root: Option<Seq<char>>) -> Seq<Seq<char>>
    decreases es.len(),
{
    if es.len() == 0 {
        Seq::empty()
    } else if is_hidden(es.last()) {
        default_lines(es.drop_last(), root)
    } else {
        default_lines(es.drop_last(), root).push(shown_path(es.last().path@, root))
    }
}

/// The default mode: one path per visible entry, in index order.
pub fn default(entries: &Vec<ListEntry>, root: &Option<String>) -> (r: Vec<String>)
    ensures
        views(r@) == default_lines(entries@, opt_view(*root)),
{
    let mut out: Vec<String> = Vec::new();
    let mut i: usize = 0;
    while i < entries.len()
        invariant
            i <= entries.len(),
            views(out@) == default_lines(entries@.take(i as int), opt_view(*root)),
        decreases entries.len() - i,
    {
        let e = &entries[i];
        let ghost before = out@;
        proof {
            assert(entries@.take(i + 1).drop_last() =~= entries@.take(i as int));
            assert(entries@.take(i + 1).last() == *e);
        }
        if !e.frontmatter.notes_metadata.hidden {
            let line = show_path(e.path.as_str(), root);
            out.push(line);
            proof {
                assert(views(out@) =~= views(before).push(line@));
            }
        }
        i = i + 1;
    }
    proof {
        assert(entries@.take(entries.len() as int) =~= entries@);
    }
    out
}

} // verus!

verus! {

/// The entries that are not hidden, in order.
pub open spec fn visible(es: Seq<ListEntry>) -> Seq<ListEntry>
    decreases es.len(),
{
    if es.len() == 0 {
        Seq::empty()
    } else if is_hidden(es.last()) {
        visible(es.drop_last())
    } else {
        visible(es.drop_last()).push(es.last())
    }
}

/// The last segment of a path.
pub open spec fn file_name(p: Seq<char>) -> Seq<char> {
    pieces(p, '/').last()
}

/// Each segment preceded by a separator.
pub open spec fn slashed(segs: Seq<Seq<char>>) -> Seq<char>
    decreases segs.len(),
{
    if segs.len() == 0 {
        Seq::empty()
    } else {
        slashed(segs.drop_last()) + seq!['/'] + segs.last()
    }
}

/// The subcategories of an entry, none when absent.
pub open spec fn subcategories_of(e: ListEntry) -> Seq<Seq<char>> {
    match opt_views(e.frontmatter.notes_metadata.subcategories) {
        Some(s) => s,
        None => Seq::empty(),
    }
}

/// The directory column of the short mode: `/category/sub.../`, or `/`.
pub open spec fn location(e: ListEntry) -> Seq<char> {
    match opt_view(e.frontmatter.notes_metadata.category) {
        Some(c) => seq!['/'] + c + slashed(subcategories_of(e)) + seq!['/'],
        None => seq!['/'],
    }
}

/// The width the file name is padded to: what the name width leaves after
/// the directory column.
pub open spec fn name_gap(e: ListEntry, nlen: int) -> int {
    match opt_view(e.frontmatter.notes_metadata.category) {
        Some(c) => nlen - c.len() - slashed(subcategories_of(e)).len(),
        None => nlen + 1,
    }
}

/// The tags joined with commas; empty without tags.
pub open spec fn tag_text(e: ListEntry) -> Seq<char> {
    match opt_views(e.frontmatter.tags) {
        Some(t) => joined(t, seq![',']),
        None => Seq::empty(),
    }
}

/// One line of the short mode, in its coloured columns.
pub struct ShortLine {
    pub location: String,
    pub name: String,
    pub tags: String,
    pub date: String,
}

/// `l` is the short line of `e` with the widths `nlen`, `taglen` and the
/// displayed date `date`.
pub open spec fn is_short_line(l: ShortLine, e: ListEntry, nlen: int, taglen: int, date: Seq<char>) -> bool {
    let f = file_name(e.path@);
    let t = tag_text(e);
    &&& l.location@ == location(e)
    &&& l.name@ == f + spaces(f.len() as int, clamp(name_gap(e, nlen)))
    &&& l.tags@ == seq![' '] + t + spaces(t.len() as int, clamp(taglen + 2))
    &&& l.date@ == date
}

fn comma() -> (r: String)
    ensures
        r@ == seq![','],
{
    let v = vec![','];
    string_of(&v)
}

fn tags_text(tags: &Option<Vec<String>>) -> (r: String)
    ensures
        r@ == match opt_views(*tags) {
            Some(t) => joined(t, seq![',']),
            None => Seq::empty(),
        },
{
    match tags {
        Some(t) => {
            let sep = comma();
            join(t, sep.as_str())
        },
        None => String::new(),
    }
}

/// The subcategories written each after a separator.
fn slashed_text(subs: &Option<Vec<String>>) -> (r: String)
    ensures
        r@ == slashed(
            match opt_views(*subs) {
                Some(s) => s,
                None => Seq::empty(),
            },
        ),
{
    let mut out = String::new();
    match subs {
        None => {},
        Some(s) => {
            let mut i: usize = 0;
            while i < s.len()
                invariant
                    i <= s.len(),
                    out@ == slashed(views(s@).take(i as int)),
                decreases s.len() - i,
            {
                push_char(&mut out, '/');
                push_text(&mut out, s[i].as_str());
                proof {
                    let t = views(s@).take(i + 1);
                    assert(t.drop_last() =~= views(s@).take(i as int));
                    assert(t.last() == s@[i as int]@);
                    assert(out@ =~= slashed(t));
                }
                i = i + 1;
            }
            proof {
                assert(views(s@).take(i as int) =~= views(s@));
            }
        },
    }
    out
}

fn last_piece(path: &str) -> (r: String)
    ensures
        r@ == file_name(path@),
{
    let ps = split_text(path, '/');
    proof {
        crate::text::lemma_pieces_nonempty(path@, '/');
        assert(views(ps@).last() == ps@[ps.len() - 1]@);
    }
    copy_text(ps[ps.len() - 1].as_str())
}

/// The short line of one entry, given its displayed date.
pub fn short_line(e: &ListEntry, nlen: usize, taglen: usize, date: String) -> (r: ShortLine)
    ensures
        is_short_line(r, *e, nlen as int, taglen as int, date@),
{
    let meta = &e.frontmatter.notes_metadata;
    let subs = slashed_text(&meta.subcategories);
    let mut loc = String::new();
    push_char(&mut loc, '/');
    let gap: usize = match &meta.category {
        Some(c) => {
            push_text(&mut loc, c.as_str());
            push_text(&mut loc, subs.as_str());
            push_char(&mut loc, '/');
            nlen.saturating_sub(c.unicode_len()).saturating_sub(subs.unicode_len())
        },
        None => nlen.saturating_add(1),
    };
    let f = last_piece(e.path.as_str());
    let name = pad_right(f.as_str(), gap);
    let t = tags_text(&e.frontmatter.tags);
    let padded = pad_right(t.as_str(), taglen.saturating_add(2));
    let mut tags = String::new();
    push_char(&mut tags, ' ');
    push_text(&mut tags, padded.as_str());
    let r = ShortLine { location: loc, name, tags, date };
    proof {
        assert(r.location@ =~= location(*e));
        assert(spaces(f@.len() as int, gap as int) =~= spaces(
            f@.len() as int,
            clamp(name_gap(*e, nlen as int)),
        ));
        assert(r.tags@ =~= seq![' '] + t@ + spaces(t@.len() as int, clamp(taglen + 2)));
    }
    r
}

/// `ls` are the short lines of `es`, one each, whatever text their dates display as.
pub open spec fn are_short_lines(ls: Seq<ShortLine>, es: Seq<ListEntry>, nlen: int, taglen: int) -> bool {
    &&& ls.len() == es.len()
    &&& forall|i: int| 0 <= i < ls.len() ==> is_short_line_of(#[trigger] ls[i], es[i], nlen, taglen)
}

/// `l` is the short line of `e` for some displayed date.
pub open spec fn is_short_line_of(l: ShortLine, e: ListEntry, nlen: int, taglen: int) -> bool {
    exists|d: Seq<char>| is_short_line(l, e, nlen, taglen, d)
}

/// The short mode: one line per visible entry, in index order, with the
/// name and tag columns padded to the widths of the whole listing. Fails
/// when a visible entry's date cannot be read.
pub fn short(entries: &Vec<ListEntry>, nlen: usize, taglen: usize) -> (r: Result<
    Vec<ShortLine>,
    NotesError,
>)
    ensures
        r is Err <==> exists|i: int|
            0 <= i < visible(entries@).len() && !parses_as_datetime(
                #[trigger] visible(entries@)[i].frontmatter.date@,
            ),
        r matches Ok(ls) ==> are_short_lines(ls@, visible(entries@), nlen as int, taglen as int),
{
    let mut out: Vec<ShortLine> = Vec::new();
    let ghost mut dates: Seq<Seq<char>> = Seq::empty();
    let mut i: usize = 0;
    while i < entries.len()
        invariant
            i <= entries.len(),
            out@.len() == visible(entries@.take(i as int)).len(),
            dates.len() == out@.len(),
            forall|k: int| 0 <= k < visible(entries@.take(i as int)).len() ==> parses_as_datetime(
                #[trigger] visible(entries@.take(i as int))[k].frontmatter.date@,
            ),
            forall|k: int|
                0 <= k < out@.len() ==> is_short_line(
                    #[trigger] out@[k],
                    visible(entries@.take(i as int))[k],
                    nlen as int,
                    taglen as int,
                    dates[k],
                ),
        decreases entries.len() - i,
    {
        let e = &entries[i];
        let ghost pre = visible(entries@.take(i as int));
        proof {
            assert(entries@.take(i + 1).drop_last() =~= entries@.take(i as int));
            assert(entries@.take(i + 1).last() == *e);
        }
        if !e.frontmatter.notes_metadata.hidden {
            match display_date(e.frontmatter.date.as_str()) {
                None => {
                    proof {
                        lemma_visible_prefix(entries@, i + 1);
                        let v = visible(entries@);
                        let w = visible(entries@.take(i + 1));
                        assert(w.last() == *e);
                        assert(v[w.len() - 1] == *e);
                    }
                    return Err(NotesError::MalformedFrontMatter(copy_text(e.frontmatter.date.as_str())));
                },
                Some(d) => {
                    let line = short_line(e, nlen, taglen, d);
                    let ghost before = out@;
                    out.push(line);
                    proof {
                        dates = dates.push(line.date@);
                        let post = visible(entries@.take(i + 1));
                        assert(post == pre.push(*e));
                        assert forall|k: int| 0 <= k < out@.len() implies is_short_line(
                            #[trigger] out@[k],
                            post[k],
                            nlen as int,
                            taglen as int,
                            dates[k],
                        ) by {
                            if k < before.len() {
                                assert(out@[k] == before[k]);
                                assert(post[k] == pre[k]);
                            }
                        }
                    }
                },
            }
        } else {
            proof {
                assert(visible(entries@.take(i + 1)) == pre);
            }
        }
        i = i + 1;
    }
    proof {
        assert(entries@.take(entries.len() as int) =~= entries@);
        assert forall|k: int| 0 <= k < out@.len() implies is_short_line_of(
            #[trigger] out@[k],
            visible(entries@)[k],
            nlen as int,
            taglen as int,
        ) by {
            assert(is_short_line(out@[k], visible(entries@)[k], nlen as int, taglen as int, dates[k]));
        }
        assert(are_short_lines(out@, visible(entries@), nlen as int, taglen as int));
    }
    Ok(out)
}

proof fn lemma_visible_prefix(es: Seq<ListEntry>, n: int)
    requires
        0 <= n <= es.len(),
    ensures
        visible(es.take(n)).len() <= visible(es).len(),
        forall|k: int| 0 <= k < visible(es.take(n)).len() ==> #[trigger] visible(es)[k] == visible(es.take(n))[k],
    decreases es.len() - n,
{
    if n < es.len() {
        lemma_visible_prefix(es, n + 1);
        assert(es.take(n + 1).drop_last() =~= es.take(n));
    } else {
        assert(es.take(n) =~= es);
    }
}

} // verus!

verus! {

/// The header block of one note in the full mode, followed by its body.
pub struct FullNote {
    pub path: String,
    pub category: String,
    pub tags: String,
    pub date: String,
    pub body: Vec<String>,
}

/// Five spaces, the padding before the tags and the date values.
pub open spec fn five_spaces() -> Seq<char> {
    seq![' ', ' ', ' ', ' ', ' ']
}

/// `n` is the full block of `e`, its path listed under `root`, its date
/// displayed as `date`.
pub open spec fn is_full_note(n: FullNote, e: ListEntry, root: Option<Seq<char>>, date: Seq<char>) -> bool {
    &&& n.path@ == shown_path(e.path@, root)
    &&& n.category@ == match opt_view(e.frontmatter.notes_metadata.category) {
        Some(c) => seq![' '] + c,
        None => Seq::empty(),
    }
    &&& n.tags@ == match opt_views(e.frontmatter.tags) {
        Some(t) => five_spaces() + joined(t, seq![',']),
        None => Seq::empty(),
    }
    &&& n.date@ == five_spaces() + date
    &&& views(n.body@) == views(e.contents@)
}

pub open spec fn is_full_note_of(n: FullNote, e: ListEntry, root: Option<Seq<char>>) -> bool {
    exists|d: Seq<char>| is_full_note(n, e, root, d)
}

/// `ns` are the full blocks of `es`, one each.
pub open spec fn are_full_notes(ns: Seq<FullNote>, es: Seq<ListEntry>, root: Option<Seq<char>>) -> bool {
    &&& ns.len() == es.len()
    &&& forall|i: int| 0 <= i < ns.len() ==> is_full_note_of(#[trigger] ns[i], es[i], root)
}

fn push_five_spaces(s: &mut String)
    ensures
        final(s)@ == old(s)@ + five_spaces(),
{
    push_char(s, ' ');
    push_char(s, ' ');
    push_char(s, ' ');
    push_char(s, ' ');
    push_char(s, ' ');
    proof {
        assert(s@ =~= old(s)@ + five_spaces());
    }
}

/// The full block of one entry, given its displayed date.
pub fn full_note(e: &ListEntry, root: &Option<String>, date: &str) -> (r: FullNote)
    ensures
        is_full_note(r, *e, opt_view(*root), date@),
{
    let path = show_path(e.path.as_str(), root);
    let mut category = String::new();
    if let Some(c) = &e.frontmatter.notes_metadata.category {
        push_char(&mut category, ' ');
        push_text(&mut category, c.as_str());
    }
    let mut tags = String::new();
    if e.frontmatter.tags.is_some() {
        push_five_spaces(&mut tags);
        let t = tags_text(&e.frontmatter.tags);
        push_text(&mut tags, t.as_str());
    }
    let mut shown = String::new();
    push_five_spaces(&mut shown);
    push_text(&mut shown, date);
    let body = crate::text::copy_strings(&e.contents);
    let r = FullNote { path, category, tags, date: shown, body };
    proof {
        assert(r.category@ =~= match opt_view(e.frontmatter.notes_metadata.category) {
            Some(c) => seq![' '] + c,
            None => Seq::empty(),
        });
        assert(r.tags@ =~= match opt_views(e.frontmatter.tags) {
            Some(t) => five_spaces() + joined(t, seq![',']),
            None => Seq::empty(),
        });
    }
    r
}

/// The full mode: a block per visible entry, in index order. Fails when a
/// visible entry's date cannot be read.
pub fn full(entries: &Vec<ListEntry>, root: &Option<String>) -> (r: Result<Vec<FullNote>, NotesError>)
    ensures
        r is Err <==> exists|i: int|
            0 <= i < visible(entries@).len() && !parses_as_datetime(
                #[trigger] visible(entries@)[i].frontmatter.date@,
            ),
        r matches Ok(ns) ==> are_full_notes(ns@, visible(entries@), opt_view(*root)),
{
    let mut out: Vec<FullNote> = Vec::new();
    let ghost mut dates: Seq<Seq<char>> = Seq::empty();
    let mut i: usize = 0;
    while i < entries.len()
        invariant
            i <= entries.len(),
            out@.len() == visible(entries@.take(i as int)).len(),
            dates.len() == out@.len(),
            forall|k: int| 0 <= k < visible(entries@.take(i as int)).len() ==> parses_as_datetime(
                #[trigger] visible(entries@.take(i as int))[k].frontmatter.date@,
            ),
            forall|k: int|
                0 <= k < out@.len() ==> is_full_note(
                    #[trigger] out@[k],
                    visible(entries@.take(i as int))[k],
                    opt_view(*root),
                    dates[k],
                ),
        decreases entries.len() - i,
    {
        let e = &entries[i];
        let ghost pre = visible(entries@.take(i as int));
        proof {
            assert(entries@.take(i + 1).drop_last() =~= entries@.take(i as int));
            assert(entries@.take(i + 1).last() == *e);
        }
        if !e.frontmatter.notes_metadata.hidden {
            match display_date(e.frontmatter.date.as_str()) {
                None => {
                    proof {
                        lemma_visible_prefix(entries@, i + 1);
                        let v = visible(entries@);
                        let w = visible(entries@.take(i + 1));
                        assert(w.last() == *e);
                        assert(v[w.len() - 1] == *e);
                    }
                    return Err(NotesError::MalformedFrontMatter(copy_text(e.frontmatter.date.as_str())));
                },
                Some(d) => {
                    let note = full_note(e, root, d.as_str());
                    let ghost before = out@;
                    out.push(note);
                    proof {
                        dates = dates.push(d@);
                        let post = visible(entries@.take(i + 1));
                        assert(post == pre.push(*e));
                        assert forall|k: int| 0 <= k < out@.len() implies is_full_note(
                            #[trigger] out@[k],
                            post[k],
                            opt_view(*root),
                            dates[k],
                        ) by {
                            if k < before.len() {
                                assert(out@[k] == before[k]);
                                assert(post[k] == pre[k]);
                            }
                        }
                    }
                },
            }
        } else {
            proof {
                assert(visible(entries@.take(i + 1)) == pre);
            }
        }
        i = i + 1;
    }
    proof {
        assert(entries@.take(entries.len() as int) =~= entries@);
        assert forall|k: int| 0 <= k < out@.len() implies is_full_note_of(
            #[trigger] out@[k],
            visible(entries@)[k],
            opt_view(*root),
        ) by {
            assert(is_full_note(out@[k], visible(entries@)[k], opt_view(*root), dates[k]));
        }
        assert(are_full_notes(out@, visible(entries@), opt_view(*root)));
    }
    Ok(out)
}

/// The categories of the visible entries.
pub open spec fn visible_categories(es: Seq<ListEntry>) -> Set<Seq<char>> {
    Set::new(
        |c: Seq<char>|
            exists|i: int|
                0 <= i < es.len() && !is_hidden(#[trigger] es[i]) && opt_view(
                    es[i].frontmatter.notes_metadata.category,
                ) == Some(c),
    )
}

/// The distinct categories of the visible entries, each once.
pub fn categories(entries: &Vec<ListEntry>) -> (r: Vec<String>)
    ensures
        views(r@).to_set() == visible_categories(entries@),
        views(r@).no_duplicates(),
{
    let mut out: Vec<String> = Vec::new();
    let mut i: usize = 0;
    while i < entries.len()
        invariant
            i <= entries.len(),
            views(out@).to_set() == visible_categories(entries@.take(i as int)),
            views(out@).no_duplicates(),
        decreases entries.len() - i,
    {
        let e = &entries[i];
        let ghost before = views(out@);
        proof {
            assert(entries@.take(i + 1)[i as int] == *e);
        }
        if !e.frontmatter.notes_metadata.hidden {
            if let Some(c) = &e.frontmatter.notes_metadata.category {
                let mut seen = false;
                let mut k: usize = 0;
                while k < out.len()
                    invariant
                        k <= out.len(),
                        before == views(out@),
                        seen <==> exists|m: int| 0 <= m < k && before[m] == c@,
                    decreases out.len() - k,
                {
                    proof {
                        assert(before[k as int] == out@[k as int]@);
                    }
                    if out[k] == *c {
                        seen = true;
                    }
                    k = k + 1;
                }
                if !seen {
                    let copy = copy_text(c.as_str());
                    out.push(copy);
                    proof {
                        assert(views(out@) =~= before.push(c@));
                        assert(views(out@).to_set() =~= visible_categories(entries@.take(i + 1))) by {
                            assert forall|x: Seq<char>| #[trigger] visible_categories(entries@.take(i + 1)).contains(x)
                                implies views(out@).to_set().contains(x) by {
                                let j = choose|j: int|
                                    0 <= j < i + 1 && !is_hidden(#[trigger] entries@.take(i + 1)[j])
                                        && opt_view(entries@.take(i + 1)[j].frontmatter.notes_metadata.category) == Some(x);
                                if j < i {
                                    assert(entries@.take(i as int)[j] == entries@.take(i + 1)[j]);
                                    assert(visible_categories(entries@.take(i as int)).contains(x));
                                    assert(before.to_set().contains(x));
                                    let m = choose|m: int| 0 <= m < before.len() && before[m] == x;
                                    assert(views(out@)[m] == x);
                                } else {
                                    assert(views(out@)[before.len() as int] == x);
                                }
                            }
                            assert forall|x: Seq<char>| #[trigger] views(out@).to_set().contains(x)
                                implies visible_categories(entries@.take(i + 1)).contains(x) by {
                                let m = choose|m: int| 0 <= m < views(out@).len() && views(out@)[m] == x;
                                if m < before.len() {
                                    assert(before.to_set().contains(x));
                                    assert(visible_categories(entries@.take(i as int)).contains(x));
                                    let j = choose|j: int|
                                        0 <= j < i && !is_hidden(#[trigger] entries@.take(i as int)[j])
                                            && opt_view(entries@.take(i as int)[j].frontmatter.notes_metadata.category) == Some(x);
                                    assert(entries@.take(i as int)[j] == entries@.take(i + 1)[j]);
                                } else {
                                    assert(entries@.take(i + 1)[i as int] == *e);
                                }
                            }
                        }
                        assert forall|a: int, b: int| 0 <= a < b < views(out@).len() implies views(out@)[a]
                            != views(out@)[b] by {
                            if b == before.len() {
                                assert(views(out@)[b] == c@);
                                assert(before[a] != c@);
                            }
                        }
                    }
                } else {
                    proof {
                        let m = choose|m: int| 0 <= m < k && before[m] == c@;
                        assert(views(out@).to_set() =~= visible_categories(entries@.take(i + 1))) by {
                            assert forall|x: Seq<char>| #[trigger] visible_categories(entries@.take(i + 1)).contains(x)
                                implies views(out@).to_set().contains(x) by {
                                let j = choose|j: int|
                                    0 <= j < i + 1 && !is_hidden(#[trigger] entries@.take(i + 1)[j])
                                        && opt_view(entries@.take(i + 1)[j].frontmatter.notes_metadata.category) == Some(x);
                                if j < i {
                                    assert(entries@.take(i as int)[j] == entries@.take(i + 1)[j]);
                                    assert(visible_categories(entries@.take(i as int)).contains(x));
                                } else {
                                    assert(before[m] == x);
                                }
                            }
                            assert forall|x: Seq<char>| #[trigger] views(out@).to_set().contains(x)
                                implies visible_categories(entries@.take(i + 1)).contains(x) by {
                                assert(visible_categories(entries@.take(i as int)).contains(x));
                                let j = choose|j: int|
                                    0 <= j < i && !is_hidden(#[trigger] entries@.take(i as int)[j])
                                        && opt_view(entries@.take(i as int)[j].frontmatter.notes_metadata.category) == Some(x);
                                assert(entries@.take(i as int)[j] == entries@.take(i + 1)[j]);
                            }
                        }
                    }
                }
            } else {
                proof {
                    lemma_categories_step(entries@, i as int);
                }
            }
        } else {
            proof {
                lemma_categories_step(entries@, i as int);
            }
        }
        i = i + 1;
    }
    proof {
        assert(entries@.take(entries.len() as int) =~= entries@);
    }
    out
}

/// An entry that is hidden or has no category adds no category.
proof fn lemma_categories_step(es: Seq<ListEntry>, i: int)
    requires
        0 <= i < es.len(),
        is_hidden(es[i]) || es[i].frontmatter.notes_metadata.category is None,
    ensures
        visible_categories(es.take(i + 1)) == visible_categories(es.take(i)),
{
    assert(visible_categories(es.take(i + 1)) =~= visible_categories(es.take(i))) by {
        assert forall|x: Seq<char>| #[trigger] visible_categories(es.take(i + 1)).contains(x)
            implies visible_categories(es.take(i)).contains(x) by {
            let j = choose|j: int|
                0 <= j < i + 1 && !is_hidden(#[trigger] es.take(i + 1)[j]) && opt_view(
                    es.take(i + 1)[j].frontmatter.notes_metadata.category,
                ) == Some(x);
            assert(es.take(i + 1)[j] == es[j]);
            assert(es.take(i)[j] == es[j]);
        }
        assert forall|x: Seq<char>| #[trigger] visible_categories(es.take(i)).contains(x)
            implies visible_categories(es.take(i + 1)).contains(x) by {
            let j = choose|j: int|
                0 <= j < i && !is_hidden(#[trigger] es.take(i)[j]) && opt_view(
                    es.take(i)[j].frontmatter.notes_metadata.category,
                ) == Some(x);
            assert(es.take(i + 1)[j] == es[j]);
        }
    }
}

} // verus!
