//! The configuration of the note store.

use vstd::prelude::*;

verus! {

/// Where notes live and how to open them.
pub struct Settings {
    pub path: String,
    pub editor: Option<String>,
}

/// Display options.
pub struct Options {
    pub hide_root: Option<String>,
}

/// The configuration file's contents.
pub struct Configuration {
    pub settings: Settings,
    pub options: Option<Options>,
}

} // verus!

verus! {

use crate::error::NotesError;
use crate::frontmatter::trim_end;
use crate::text::{copy_text, push_text, string_of};
use crate::workspace::{active_of, active_value, trimmed_end};

/// The key before the active stack's name in the `.notes` file.
pub open spec fn stack_key() -> Seq<char> {
    seq!['s', 't', 'a', 'c', 'k', ':', ' ']
}

/// The directory under the store root that holds the stacks.
pub open spec fn stacks_dir() -> Seq<char> {
    seq!['/', 's', 't', 'a', 'c', 'k', 's', '/']
}

/// The stack a fresh store starts with.
pub open spec fn main_stack() -> Seq<char> {
    seq!['m', 'a', 'i', 'n']
}

/// The path of the active stack for a store at `base`, given the text of its
/// `.notes` file, if there is one: the main stack for a fresh store, else the
/// stack that the file names; `None` when the file is blank or names none.
pub open spec fn stack_path(base: Seq<char>, notes: Option<Seq<char>>) -> Option<Seq<char>> {
    match notes {
        None => Some(base + stacks_dir() + main_stack()),
        Some(t) => if trim_end(t).len() == 0 {
            None
        } else {
            match active_value(t, stack_key()) {
                Some(s) => Some(base + stacks_dir() + s),
                None => None,
            }
        },
    }
}

fn not_in_stack() -> NotesError {
    NotesError::Invalid(
        string_of(
            &vec![
                'n', 'o', 't', ' ', 'w', 'i', 't', 'h', 'i', 'n', ' ', 'a', ' ', 'n', 'o', 't', 'e',
                ' ', 's', 't', 'a', 'c', 'k',
            ],
        ),
    )
}

/// Points the configuration at the active stack, given the text of the
/// store's `.notes` file (`None` when there is no such file).
pub fn resolve_workspace(conf: Configuration, notes: &Option<String>) -> (r: Result<
    Configuration,
    NotesError,
>)
    ensures
        r is Ok <==> stack_path(conf.settings.path@, opt_view_of(*notes)) is Some,
        r matches Ok(c) ==> Some(c.settings.path@) == stack_path(
            conf.settings.path@,
            opt_view_of(*notes),
        ) && c.settings.editor == conf.settings.editor && c.options == conf.options,
{
    let mut conf = conf;
    let dir = string_of(&vec!['/', 's', 't', 'a', 'c', 'k', 's', '/']);
    match notes {
        None => {
            let main = string_of(&vec!['m', 'a', 'i', 'n']);
            push_text(&mut conf.settings.path, dir.as_str());
            push_text(&mut conf.settings.path, main.as_str());
            Ok(conf)
        },
        Some(t) => {
            let trimmed = trimmed_end(t.as_str());
            if trimmed.unicode_len() == 0 {
                return Err(not_in_stack());
            }
            let key = string_of(&vec!['s', 't', 'a', 'c', 'k', ':', ' ']);
            match active_of(t.as_str(), key.as_str()) {
                None => Err(not_in_stack()),
                Some(s) => {
                    push_text(&mut conf.settings.path, dir.as_str());
                    push_text(&mut conf.settings.path, s.as_str());
                    Ok(conf)
                },
            }
        },
    }
}

pub open spec fn opt_view_of(o: Option<String>) -> Option<Seq<char>> {
    crate::text::opt_view(o)
}

/// What the configuration command prints.
pub struct ConfigurationCommand {
    print_path: bool,
    path: String,
    editor: Option<String>,
}

/// The configuration text: the file name, then the path and the editor
/// (`none` when unset), each on an indented line.
pub open spec fn config_text(path: Seq<char>, editor: Option<Seq<char>>) -> Seq<char> {
    seq!['n', 'o', 't', 'e', 's', '.', 't', 'o', 'm', 'l', '\n', ' ', ' ', ' ', ' ', 'p', 'a', 't', 'h', '=']
        + path + seq!['\n', ' ', ' ', ' ', ' ', 'e', 'd', 'i', 't', 'o', 'r', '='] + match editor {
        Some(e) => e,
        None => seq!['n', 'o', 'n', 'e'],
    }
}

impl ConfigurationCommand {
    pub closed spec fn print_path_view(&self) -> bool {
        self.print_path
    }

    pub closed spec fn path_view(&self) -> Seq<char> {
        self.path@
    }

    pub closed spec fn editor_view(&self) -> Option<Seq<char>> {
        crate::text::opt_view(self.editor)
    }

    pub fn new(args: crate::cli::Commands, conf: &Configuration) -> (r: Self)
        requires
            args is Config,
        ensures
            args matches crate::cli::Commands::Config { path } && r.print_path_view() == path,
            r.path_view() == conf.settings.path@,
            r.editor_view() == crate::text::opt_view(conf.settings.editor),
    {
        let print_path = match args {
            crate::cli::Commands::Config { path } => path,
            _ => {
                proof {
                    assert(false);
                }
                false
            },
        };
        let editor = match &conf.settings.editor {
            Some(e) => Some(copy_text(e.as_str())),
            None => None,
        };
        ConfigurationCommand { print_path, path: copy_text(conf.settings.path.as_str()), editor }
    }

    /// The text to print: the configuration file's path when asked for it,
    /// else the configuration.
    pub fn text(&self, config_file: &str) -> (r: String)
        ensures
            self.print_path_view() ==> r@ == config_file@,
            !self.print_path_view() ==> r@ == config_text(self.path_view(), self.editor_view()),
    {
        if self.print_path {
            return copy_text(config_file);
        }
        let mut r = string_of(
            &vec!['n', 'o', 't', 'e', 's', '.', 't', 'o', 'm', 'l', '\n', ' ', ' ', ' ', ' ', 'p', 'a', 't', 'h', '='],
        );
        push_text(&mut r, self.path.as_str());
        let mid = string_of(&vec!['\n', ' ', ' ', ' ', ' ', 'e', 'd', 'i', 't', 'o', 'r', '=']);
        push_text(&mut r, mid.as_str());
        match &self.editor {
            Some(e) => push_text(&mut r, e.as_str()),
            None => {
                let none = string_of(&vec!['n', 'o', 'n', 'e']);
                push_text(&mut r, none.as_str());
            },
        }
        proof {
            assert(r@ =~= config_text(self.path_view(), self.editor_view()));
        }
        r
    }
}

} // verus!
