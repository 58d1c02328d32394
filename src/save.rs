//! Saving the store with git.

use vstd::prelude::*;
use crate::cli::Commands;
use crate::system::Configuration;
use crate::text::{copy_text, push_text, string_of};

verus! {

/// A save of the store at `path`, pushed to a remote when asked to.
pub struct SaveCommand {
    path: String,
    remote: bool,
}

/// The prefix of each commit message.
pub open spec fn commit_prefix() -> Seq<char> {
    seq!['u', 'p', 'd', 'a', 't', 'e', ' ', 'n', 'o', 't', 'e', 's', ':', ' ']
}

impl SaveCommand {
    pub closed spec fn path_view(&self) -> Seq<char> {
        self.path@
    }

    pub closed spec fn remote_view(&self) -> bool {
        self.remote
    }

    pub fn new(args: Commands, conf: &Configuration) -> (r: Self)
        requires
            args is Save,
        ensures
            r.path_view() == conf.settings.path@,
            args matches Commands::Save { remote } && r.remote_view() == remote,
    {
        match args {
            Commands::Save { remote } => SaveCommand { path: copy_text(conf.settings.path.as_str()), remote },
            _ => {
                proof {
                    assert(false);
                }
                SaveCommand { path: String::new(), remote: false }
            },
        }
    }

    pub fn path(&self) -> (r: &str)
        ensures
            r@ == self.path_view(),
    {
        self.path.as_str()
    }

    /// The commit message for a save at time `now`.
    pub fn commit_message(&self, now: &str) -> (r: String)
        ensures
            r@ == commit_prefix() + now@,
    {
        let mut m = string_of(&vec!['u', 'p', 'd', 'a', 't', 'e', ' ', 'n', 'o', 't', 'e', 's', ':', ' ']);
        push_text(&mut m, now);
        m
    }
}

} // verus!
