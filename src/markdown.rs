//! The structured header of a note and the data needed to create one.

use vstd::prelude::*;
use crate::text::{
    chars_of, copy_text, keep_nonempty, lemma_pieces_nonempty, nonempty_only, opt_view, opt_views, pieces,
    split_text, string_of, views,
};

verus! {

/// The notes-specific part of the header.
pub struct Metadata {
    pub category: Option<String>,
    pub subcategories: Option<Vec<String>>,
    pub hidden: bool,
}

/// The leading category of a slash-separated category argument.
pub open spec fn category_head(s: Seq<char>) -> Seq<char> {
    pieces(s, '/')[0]
}

/// The further non-empty segments of a slash-separated category argument.
pub open spec fn category_tail(s: Seq<char>) -> Seq<Seq<char>> {
    nonempty_only(pieces(s, '/').drop_first())
}

impl Metadata {
    /// Splits `category` at `/` into a leading category and the non-empty
    /// segments that follow it; a new note is never hidden.
    pub fn new(category: Option<&str>) -> (r: Self)
        ensures
            !r.hidden,
            category is None ==> r.category is None && r.subcategories is None,
            category matches Some(s) ==> {
                &&& opt_view(r.category) == Some(category_head(s@))
                &&& opt_views(r.subcategories) == Some(category_tail(s@))
            },
    {
        match category {
            None => Metadata { category: None, subcategories: None, hidden: false },
            Some(s) => {
                let parts = split_text(s, '/');
                proof {
                    lemma_pieces_nonempty(s@, '/');
                    assert(views(parts@)[0] == parts@[0]@);
                }
                let head = copy_text(parts[0].as_str());
                let tail = keep_nonempty(&parts, 1);
                proof {
                    assert(views(parts@).skip(1) =~= pieces(s@, '/').drop_first());
                }
                Metadata { category: Some(head), subcategories: Some(tail), hidden: false }
            },
        }
    }
}

/// The header at the top of each note.
pub struct NotesFrontMatter {
    pub title: String,
    pub date: String,
    pub tags: Option<Vec<String>>,
    pub notes_metadata: Metadata,
}

impl NotesFrontMatter {
    /// A header for a new note; the category argument is split as
    /// `Metadata::new` splits it.
    pub fn new(title: String, category: Option<&str>, tags: Option<Vec<String>>, date: String) -> (r: Self)
        ensures
            r.title == title,
            r.date == date,
            r.tags == tags,
            !r.notes_metadata.hidden,
            category is None ==> r.notes_metadata.category is None
                && r.notes_metadata.subcategories is None,
            category matches Some(s) ==> {
                &&& opt_view(r.notes_metadata.category) == Some(category_head(s@))
                &&& opt_views(r.notes_metadata.subcategories) == Some(category_tail(s@))
            },
    {
        NotesFrontMatter { title, tags, date, notes_metadata: Metadata::new(category) }
    }
}

} // verus!

verus! {

/// Whether chrono reads `s` as an RFC 3339 date and time.
pub uninterp spec fn rfc3339(s: Seq<char>) -> bool;

/// Relies on chrono's `DateTime::parse_from_rfc3339`: whether `s` reads as
/// an RFC 3339 date and time, which depends on the text alone.
#[verifier::external_body]
fn is_rfc3339(s: &str) -> (r: bool)
    ensures
        r == rfc3339(s@),
{
    chrono::DateTime::parse_from_rfc3339(s).is_ok()
}

/// `s` with each dash turned into a space.
pub open spec fn dashes_to_spaces(s: Seq<char>) -> Seq<char> {
    s.map_values(|c: char| if c == '-' { ' ' } else { c })
}

/// The title of a note named `name`: the name itself when it is a
/// timestamp, else the name with dashes read as spaces.
pub open spec fn title_of(name: Seq<char>, timestamp: bool) -> Seq<char> {
    if timestamp {
        name
    } else {
        dashes_to_spaces(name)
    }
}

/// The title for `name`, given whether it is a timestamp.
pub fn title_from(name: &str, timestamp: bool) -> (r: String)
    ensures
        r@ == title_of(name@, timestamp),
{
    if timestamp {
        return copy_text(name);
    }
    let v = chars_of(name);
    let mut out: Vec<char> = Vec::new();
    let mut i: usize = 0;
    while i < v.len()
        invariant
            i <= v.len(),
            v@ == name@,
            out@ == dashes_to_spaces(v@.take(i as int)),
        decreases v.len() - i,
    {
        out.push(if v[i] == '-' { ' ' } else { v[i] });
        i = i + 1;
        proof {
            assert(out@ =~= dashes_to_spaces(v@.take(i as int)));
        }
    }
    proof {
        assert(v@.take(v.len() as int) =~= v@);
    }
    string_of(&out)
}

/// A note to be created: its name, where it goes, its category argument
/// and its tags.
pub struct File {
    name: String,
    path: String,
    category: Option<String>,
    tags: Option<Vec<String>>,
}

impl File {
    pub closed spec fn name_view(&self) -> Seq<char> {
        self.name@
    }

    pub closed spec fn path_view(&self) -> Seq<char> {
        self.path@
    }

    pub closed spec fn category_view(&self) -> Option<Seq<char>> {
        opt_view(self.category)
    }

    pub closed spec fn tags_view(&self) -> Option<Seq<Seq<char>>> {
        opt_views(self.tags)
    }

    pub fn new(name: String, path: String, category: Option<String>, tags: Option<Vec<String>>) -> (r: Self)
        ensures
            r.name_view() == name@,
            r.path_view() == path@,
            r.category_view() == opt_view(category),
            r.tags_view() == opt_views(tags),
    {
        File { name, path, category, tags }
    }

    /// Where the note is written.
    pub fn path(&self) -> (r: &str)
        ensures
            r@ == self.path_view(),
    {
        self.path.as_str()
    }

    /// The title the note gets.
    pub fn title(&self) -> (r: String)
        ensures
            r@ == title_of(self.name_view(), rfc3339(self.name_view())),
    {
        let stamp = is_rfc3339(self.name.as_str());
        title_from(self.name.as_str(), stamp)
    }

    /// The header of the note, dated `date`: its title, its tags, and its
    /// category argument split as `Metadata::new` splits it.
    pub fn frontmatter(&self, date: String) -> (r: NotesFrontMatter)
        ensures
            r.title@ == title_of(self.name_view(), rfc3339(self.name_view())),
            r.date == date,
            opt_views(r.tags) == self.tags_view(),
            !r.notes_metadata.hidden,
            self.category_view() is None ==> r.notes_metadata.category is None
                && r.notes_metadata.subcategories is None,
            self.category_view() matches Some(s) ==> {
                &&& opt_view(r.notes_metadata.category) == Some(category_head(s))
                &&& opt_views(r.notes_metadata.subcategories) == Some(category_tail(s))
            },
    {
        let title = self.title();
        let tags = match &self.tags {
            Some(t) => Some(crate::text::copy_strings(t)),
            None => None,
        };
        let category = match &self.category {
            Some(c) => Some(c.as_str()),
            None => None,
        };
        NotesFrontMatter::new(title, category, tags, date)
    }
}

} // verus!
