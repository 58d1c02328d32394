//! Creating a note: checking its name and category, where it goes, and the
//! editor that opens it.

use vstd::prelude::*;
use crate::cli::Commands;
use crate::error::NotesError;
use crate::markdown::File;
use crate::system::Configuration;
use crate::text::{
    all_ascii, chars_of, copy_strings, copy_text, first_non_ascii, opt_view, opt_views,
    push_char, push_decimal, push_text, string_of, };

verus! {

/// The editor used when none is configured or chosen.
pub open spec fn default_editor() -> Seq<char> {
    seq!['v', 'i', 'm']
}

pub open spec fn nvim() -> Seq<char> {
    seq!['n', 'v', 'i', 'm']
}

pub open spec fn glow() -> Seq<char> {
    seq!['g', 'l', 'o', 'w']
}

/// The editor that opens a new note: none when quiet; else the configured
/// one; else the one `NOTES_EDITOR` names if it is `nvim`, or `glow` when
/// `EDITOR` is set too; else the default.
pub open spec fn editor_choice(
    quiet: bool,
    configured: Option<Seq<char>>,
    notes_editor: Option<Seq<char>>,
    editor_set: bool,
) -> Option<Seq<char>> {
    if quiet {
        None
    } else if configured is Some {
        configured
    } else if notes_editor == Some(nvim()) {
        Some(nvim())
    } else if notes_editor == Some(glow()) && editor_set {
        Some(glow())
    } else {
        Some(default_editor())
    }
}

fn text_of(v: Vec<char>) -> (r: String)
    ensures
        r@ == v@,
{
    string_of(&v)
}

/// Picks the editor for a new note.
pub fn choose_editor(
    quiet: bool,
    configured: &Option<String>,
    notes_editor: &Option<String>,
    editor_set: bool,
) -> (r: Option<String>)
    ensures
        opt_view(r) == editor_choice(quiet, opt_view(*configured), opt_view(*notes_editor), editor_set),
{
    if quiet {
        return None;
    }
    if let Some(c) = configured {
        return Some(copy_text(c.as_str()));
    }
    let n = text_of(vec!['n', 'v', 'i', 'm']);
    let g = text_of(vec!['g', 'l', 'o', 'w']);
    if let Some(e) = notes_editor {
        if *e == n {
            return Some(n);
        }
        if *e == g && editor_set {
            return Some(g);
        }
    }
    Some(text_of(vec!['v', 'i', 'm']))
}

/// `base` with `comp` pushed on as a path component: `comp` itself when it
/// is absolute, else after a separator unless `base` ends with one.
pub open spec fn path_push(base: Seq<char>, comp: Seq<char>) -> Seq<char> {
    if comp.len() > 0 && comp[0] == '/' {
        comp
    } else if base.len() == 0 || base.last() == '/' {
        base + comp
    } else {
        base + seq!['/'] + comp
    }
}

/// Pushes `comp` onto `base` as `PathBuf::push` does.
pub fn push_component(base: &str, comp: &str) -> (r: String)
    ensures
        r@ == path_push(base@, comp@),
{
    let c = chars_of(comp);
    if c.len() > 0 && c[0] == '/' {
        return copy_text(comp);
    }
    let b = chars_of(base);
    let mut r = copy_text(base);
    if !(b.len() == 0 || b[b.len() - 1] == '/') {
        push_char(&mut r, '/');
    }
    push_text(&mut r, comp);
    proof {
        assert(r@ =~= path_push(base@, comp@));
    }
    r
}

/// Accepts a note name made of ASCII characters only; otherwise names the
/// first other character and its position.
pub fn validate_name(name: String) -> (r: Result<String, NotesError>)
    ensures
        r is Ok <==> all_ascii(name@),
        r matches Ok(n) ==> n == name,
        r matches Err(e) ==> e is Invalid,
{
    match first_non_ascii(name.as_str()) {
        None => Ok(name),
        Some(i) => {
            let v = chars_of(name.as_str());
            let mut m = text_of(vec!['i', 'n', 'v', 'a', 'l', 'i', 'd', ' ', 'c', 'h', 'a', 'r', 'a', 'c', 't', 'e', 'r', ' ', '\'']);
            push_char(&mut m, v[i]);
            let rest = text_of(vec!['\'', ' ', 'f', 'o', 'u', 'n', 'd', ' ', 'i', 'n', ' ', 'f', 'i', 'l', 'e', 'n', 'a', 'm', 'e', ' ', 'a', 't', ' ', 'p', 'o', 's', 'i', 't', 'i', 'o', 'n', ' ']);
            push_text(&mut m, rest.as_str());
            push_decimal(&mut m, i);
            Err(NotesError::Invalid(m))
        },
    }
}

/// Accepts a category path made of ASCII characters only; otherwise names
/// the first other character and the path.
pub fn validate_path(path: &str) -> (r: Result<String, NotesError>)
    ensures
        r is Ok <==> all_ascii(path@),
        r matches Ok(p) ==> p@ == path@,
        r matches Err(e) ==> e is Invalid,
{
    match first_non_ascii(path) {
        None => Ok(copy_text(path)),
        Some(i) => {
            let v = chars_of(path);
            let mut m = text_of(vec!['i', 'n', 'v', 'a', 'l', 'i', 'd', ' ', 'c', 'h', 'a', 'r', 'a', 'c', 't', 'e', 'r', ' ', '\'']);
            push_char(&mut m, v[i]);
            let rest = text_of(vec!['\'', ' ', 'f', 'o', 'u', 'n', 'd', ' ', 'i', 'n', ' ']);
            push_text(&mut m, rest.as_str());
            push_text(&mut m, path);
            Err(NotesError::Invalid(m))
        },
    }
}

/// The `.md` suffix of a note file name.
pub open spec fn md_suffix() -> Seq<char> {
    seq!['.', 'm', 'd']
}

/// Where a new note goes: the store's path, then the category if any, then
/// the note's file name.
pub open spec fn note_path(root: Seq<char>, category: Option<Seq<char>>, name: Seq<char>) -> Seq<char> {
    let dir = match category {
        Some(c) => root + seq!['/'] + c,
        None => root,
    };
    path_push(dir, name + md_suffix())
}

/// A note about to be created.
pub struct CreateCommand {
    name: String,
    path: String,
    category: Option<String>,
    tags: Option<Vec<String>>,
    editor: Option<String>,
}

impl CreateCommand {
    pub closed spec fn name_view(&self) -> Seq<char> {
        self.name@
    }

    pub closed spec fn path_view(&self) -> Seq<char> {
        self.path@
    }

    pub closed spec fn category_view(&self) -> Option<Seq<char>> {
        opt_view(self.category)
    }

    pub closed spec fn tags_view(&self) -> Option<Seq<Seq<char>>> {
        opt_views(self.tags)
    }

    pub closed spec fn editor_view(&self) -> Option<Seq<char>> {
        opt_view(self.editor)
    }

    /// Checks the category and the name and places the note. The editor
    /// comes from the configuration, else from `notes_editor` (the value of
    /// `NOTES_EDITOR`) and `editor_set` (whether `EDITOR` is set).
    pub fn new(
        args: Commands,
        conf: &Configuration,
        notes_editor: &Option<String>,
        editor_set: bool,
    ) -> (r: Result<Self, NotesError>)
        requires
            args is Create,
        ensures
            args matches Commands::Create { quiet, category, name, tags } && {
                &&& r is Ok <==> (all_ascii(name@) && (category matches Some(c) ==> all_ascii(c@)))
                &&& r matches Ok(cmd) ==> {
                    &&& cmd.name_view() == name@
                    &&& cmd.path_view() == note_path(conf.settings.path@, opt_view(category), name@)
                    &&& cmd.category_view() == opt_view(category)
                    &&& cmd.tags_view() == opt_views(tags)
                    &&& cmd.editor_view() == editor_choice(
                        quiet,
                        opt_view(conf.settings.editor),
                        opt_view(*notes_editor),
                        editor_set,
                    )
                }
            },
    {
        match args {
            Commands::Create { quiet, category, name, tags } => {
                let dir = match &category {
                    Some(c) => {
                        let checked = match validate_path(c.as_str()) {
                            Ok(p) => p,
                            Err(e) => {
                                return Err(e);
                            },
                        };
                        let mut d = copy_text(conf.settings.path.as_str());
                        push_char(&mut d, '/');
                        push_text(&mut d, checked.as_str());
                        d
                    },
                    None => copy_text(conf.settings.path.as_str()),
                };
                let mut file_name = copy_text(name.as_str());
                let md = text_of(vec!['.', 'm', 'd']);
                push_text(&mut file_name, md.as_str());
                let path = push_component(dir.as_str(), file_name.as_str());
                let editor = choose_editor(quiet, &conf.settings.editor, notes_editor, editor_set);
                let name = match validate_name(name) {
                    Ok(n) => n,
                    Err(e) => {
                        return Err(e);
                    },
                };
                proof {
                    assert(dir@ == match opt_view(category) {
                        Some(c) => conf.settings.path@ + seq!['/'] + c,
                        None => conf.settings.path@,
                    });
                }
                Ok(CreateCommand { name, path, category, tags, editor })
            },
            _ => {
                proof {
                    assert(false);
                }
                Err(NotesError::Invalid(String::new()))
            },
        }
    }

    /// Where the note is written.
    pub fn path(&self) -> (r: &str)
        ensures
            r@ == self.path_view(),
    {
        self.path.as_str()
    }

    /// Whether the note goes into a category directory that may need creating.
    pub fn has_category(&self) -> (r: bool)
        ensures
            r == self.category_view() is Some,
    {
        self.category.is_some()
    }

    /// The editor that opens the note, if any.
    pub fn editor(&self) -> (r: Option<String>)
        ensures
            opt_view(r) == self.editor_view(),
    {
        match &self.editor {
            Some(e) => Some(copy_text(e.as_str())),
            None => None,
        }
    }

    /// The note to be written.
    pub fn file(&self) -> (r: File)
        ensures
            r.name_view() == self.name_view(),
            r.path_view() == self.path_view(),
            r.category_view() == self.category_view(),
            r.tags_view() == self.tags_view(),
    {
        let category = match &self.category {
            Some(c) => Some(copy_text(c.as_str())),
            None => None,
        };
        let tags = match &self.tags {
            Some(t) => Some(copy_strings(t)),
            None => None,
        };
        File::new(copy_text(self.name.as_str()), copy_text(self.path.as_str()), category, tags)
    }
}

} // verus!
