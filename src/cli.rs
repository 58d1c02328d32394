//! The commands that the program is invoked with.

use vstd::prelude::*;

verus! {

/// A command and its arguments.
#[allow(inconsistent_fields)]
pub enum Commands {
    Create { quiet: bool, category: Option<String>, name: String, tags: Option<Vec<String>> },
    List {
        root: bool,
        categories: bool,
        notebooks: bool,
        full: bool,
        short: bool,
        category: Option<String>,
    },
    Config { path: bool },
    Switch { create: bool, notebook: String },
    Save { remote: bool },
    Notebook { notebooks: Option<Notebook> },
}

/// Notebook subcommands.
pub enum Notebook {
    Create { notebook: String },
    Remove { notebook: String },
}

} // verus!
