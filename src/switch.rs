//! Switching the active note stack.

use vstd::prelude::*;
use crate::cli::Commands;
use crate::error::NotesError;
use crate::system::{stack_key, Configuration};
use crate::text::{copy_text, find_text, occurs_at, push_text, string_of, suffix_from, text_contains};
use crate::workspace::{opt_view_eq, parent_dir, parent_of, sibling, sibling_path};

verus! {

/// The text after the first `key` in `notes`, untrimmed.
pub open spec fn raw_value(notes: Seq<char>, key: Seq<char>) -> Option<Seq<char>> {
    if text_contains(notes, key) {
        let i = choose|i: int| occurs_at(notes, key, i) && forall|j: int| 0 <= j < i ==> !occurs_at(notes, key, j);
        Some(notes.skip(i + key.len()))
    } else {
        None
    }
}

/// The `.notes` file of the store that holds the stack at `p`.
pub open spec fn notes_file_of(p: Seq<char>) -> Option<Seq<char>> {
    match parent_of(p) {
        Some(d) => match parent_of(d) {
            Some(b) => Some(b + seq!['/', '.', 'n', 'o', 't', 'e', 's']),
            None => None,
        },
        None => None,
    }
}

/// What switching does once the target stack exists.
pub enum SwitchOutcome {
    /// The stack is already the active one.
    Already,
    /// The `.notes` file gets this text.
    Switch(String),
}

/// A switch to the stack `stack`, creating it first when asked to.
pub struct SwitchCommand {
    path: String,
    stack: String,
    create: bool,
}

impl SwitchCommand {
    pub closed spec fn path_view(&self) -> Seq<char> {
        self.path@
    }

    pub closed spec fn stack_view(&self) -> Seq<char> {
        self.stack@
    }

    pub closed spec fn create_view(&self) -> bool {
        self.create
    }

    pub fn new(args: Commands, conf: &Configuration) -> (r: Self)
        requires
            args is Switch,
        ensures
            r.path_view() == conf.settings.path@,
            args matches Commands::Switch { create, notebook } && r.stack_view() == notebook@
                && r.create_view() == create,
    {
        match args {
            Commands::Switch { create, notebook } => SwitchCommand {
                path: copy_text(conf.settings.path.as_str()),
                stack: notebook,
                create,
            },
            _ => {
                proof {
                    assert(false);
                }
                SwitchCommand { path: String::new(), stack: String::new(), create: false }
            },
        }
    }

    /// The directory of the target stack, beside the active one.
    pub fn stack_dir(&self) -> (r: Option<String>)
        ensures
            opt_view_eq(r, sibling_path(self.path_view(), self.stack_view())),
    {
        sibling(self.path.as_str(), self.stack.as_str())
    }

    /// The `.notes` file to update.
    pub fn notes_file(&self) -> (r: Option<String>)
        ensures
            opt_view_eq(r, notes_file_of(self.path_view())),
    {
        match parent_dir(self.path.as_str()) {
            None => None,
            Some(d) => match parent_dir(d.as_str()) {
                None => None,
                Some(b) => {
                    let mut f = b;
                    let name = string_of(&vec!['/', '.', 'n', 'o', 't', 'e', 's']);
                    push_text(&mut f, name.as_str());
                    Some(f)
                },
            },
        }
    }

    /// Refuses a stack that does not exist unless it is to be created.
    pub fn check_target(&self, present: bool) -> (r: Result<(), NotesError>)
        ensures
            r is Ok <==> (present || self.create_view()),
    {
        if !self.create && !present {
            let mut m = string_of(&vec!['i', 'n', 'v', 'a', 'l', 'i', 'd', ' ', 'n', 'o', 't', 'e', ' ', 's', 't', 'a', 'c', 'k', ' ', '\'']);
            push_text(&mut m, self.stack.as_str());
            let q = string_of(&vec!['\'']);
            push_text(&mut m, q.as_str());
            Err(NotesError::Invalid(m))
        } else {
            Ok(())
        }
    }

    /// Given the `.notes` text: nothing to do when it already names the
    /// stack, else the text that names it. Fails when it names no stack.
    pub fn outcome(&self, notes: &str) -> (r: Result<SwitchOutcome, NotesError>)
        ensures
            r is Err <==> raw_value(notes@, stack_key()) is None,
            r matches Ok(SwitchOutcome::Already) ==> raw_value(notes@, stack_key()) == Some(
                self.stack_view(),
            ),
            r matches Ok(SwitchOutcome::Switch(t)) ==> raw_value(notes@, stack_key()) != Some(
                self.stack_view(),
            ) && t@ == stack_key() + self.stack_view(),
    {
        let key = string_of(&vec!['s', 't', 'a', 'c', 'k', ':', ' ']);
        match find_text(notes, key.as_str()) {
            None => Err(NotesError::Invalid(copy_text(key.as_str()))),
            Some(i) => {
                let kl = key.unicode_len();
                let nv = crate::text::chars_of(notes);
                let nl = nv.len();
                proof {
                    assert(nl == notes@.len());
                    assert(occurs_at(notes@, key@, i as int));
                    let k = choose|k: int| occurs_at(notes@, key@, k) && forall|j: int| 0 <= j < k ==> !occurs_at(notes@, key@, j);
                    assert(k == i as int) by {
                        if k < i {
                            assert(!occurs_at(notes@, key@, k));
                        }
                        if k > i {
                            assert(!occurs_at(notes@, key@, i as int));
                        }
                    }
                }
                let current = suffix_from(notes, i + kl);
                if current == self.stack {
                    Ok(SwitchOutcome::Already)
                } else {
                    let mut t = copy_text(key.as_str());
                    push_text(&mut t, self.stack.as_str());
                    Ok(SwitchOutcome::Switch(t))
                }
            },
        }
    }
}

} // verus!
