//! Stack operations: the checks that guard creating and removing one.

use vstd::prelude::*;
use crate::error::NotesError;
use crate::text::string_of;
use crate::workspace::{
    active_value, base_name, check_create, check_remove, has_extension, may_create, may_remove,
    opt_view_eq, reject_active, reject_extension, reject_missing, reject_reserved, reserved_name,
    sibling, sibling_path,
};

verus! {

/// The key before the active stack's name in the `.notes` file.
pub open spec fn active_key() -> Seq<char> {
    seq!['s', 't', 'a', 'c', 'k', ':', ' ']
}

fn key() -> (r: String)
    ensures
        r@ == active_key(),
{
    string_of(&vec!['s', 't', 'a', 'c', 'k', ':', ' '])
}

fn kind() -> String {
    string_of(&vec!['n', 'o', 't', 'e', ' ', 's', 't', 'a', 'c', 'k'])
}

/// Refuses the reserved name.
pub fn disallow_reserved_names(p: String) -> (r: Result<String, NotesError>)
    ensures
        r is Ok <==> (base_name(p@) matches Some(n) && n != reserved_name()),
        r matches Ok(q) ==> q == p,
{
    let k = kind();
    reject_reserved(p, k.as_str())
}

/// Refuses a name with an extension.
pub fn disallow_files_with_extensions(p: String) -> (r: Result<String, NotesError>)
    ensures
        r is Ok <==> !has_extension(p@),
        r matches Ok(q) ==> q == p,
{
    let k = kind();
    reject_extension(p, k.as_str())
}

/// Refuses the active stack, as the text of the `.notes` file names it.
pub fn disallow_operation_on_active_note_stack(p: String, notes: &str) -> (r: Result<String, NotesError>)
    ensures
        r is Ok <==> (active_value(notes@, active_key()) matches Some(a) && base_name(p@) matches Some(
            n,
        ) && a != n),
        r matches Ok(q) ==> q == p,
{
    let k = kind();
    let key = key();
    reject_active(p, notes, key.as_str(), k.as_str())
}

/// Refuses a stack that does not exist.
pub fn check_dir_exists(p: String, present: bool) -> (r: Result<String, NotesError>)
    ensures
        r is Ok <==> present,
        r matches Ok(q) ==> q == p,
{
    let k = kind();
    reject_missing(p, present, k.as_str())
}

/// A stack to be created.
pub struct CreateCommand {
    path: String,
}

/// A stack to be removed.
pub struct RemoveCommand {
    path: String,
}

/// Where the stack named `name` lives for the store at `conf_path`.
pub fn target(conf_path: &str, name: &str) -> (r: Option<String>)
    ensures
        opt_view_eq(r, sibling_path(conf_path@, name@)),
{
    sibling(conf_path, name)
}

impl CreateCommand {
    pub closed spec fn path_view(&self) -> Seq<char> {
        self.path@
    }

    /// Checks that the stack at `p` may be created, given the `.notes`
    /// text and whether `p` exists.
    pub fn new(p: String, notes: &str, present: bool) -> (r: Result<Self, NotesError>)
        ensures
            r is Ok <==> may_create(p@, notes@, active_key(), present),
            r matches Ok(c) ==> c.path_view() == p@,
    {
        let k = kind();
        let key = key();
        match check_create(p, notes, key.as_str(), present, k.as_str()) {
            Ok(path) => Ok(CreateCommand { path }),
            Err(e) => Err(e),
        }
    }

    pub fn path(&self) -> (r: &str)
        ensures
            r@ == self.path_view(),
    {
        self.path.as_str()
    }
}

impl RemoveCommand {
    pub closed spec fn path_view(&self) -> Seq<char> {
        self.path@
    }

    /// Checks that the stack at `p` may be removed, given the `.notes`
    /// text and whether `p` exists.
    pub fn new(p: String, notes: &str, present: bool) -> (r: Result<Self, NotesError>)
        ensures
            r is Ok <==> may_remove(p@, notes@, active_key(), present),
            r matches Ok(c) ==> c.path_view() == p@,
    {
        let k = kind();
        let key = key();
        match check_remove(p, notes, key.as_str(), present, k.as_str()) {
            Ok(path) => Ok(RemoveCommand { path }),
            Err(e) => Err(e),
        }
    }

    pub fn path(&self) -> (r: &str)
        ensures
            r@ == self.path_view(),
    {
        self.path.as_str()
    }
}

} // verus!
