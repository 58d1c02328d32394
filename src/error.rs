//! The errors of the library.

use vstd::prelude::*;

verus! {

/// Every error aborts the whole operation.
pub enum NotesError {
    /// A directory or file could not be read or written.
    Io(String),
    /// A note's header is missing, does not have the required shape, or
    /// holds a date that cannot be read.
    MalformedFrontMatter(String),
    /// A path is not valid UTF-8.
    Encoding(String),
    /// A command was given a name or path it does not accept.
    Invalid(String),
}

impl NotesError {
    /// The text of the error.
    pub fn message(&self) -> (r: String)
        ensures
            r@ == match self {
                NotesError::Io(m) => m@,
                NotesError::MalformedFrontMatter(m) => m@,
                NotesError::Encoding(m) => m@,
                NotesError::Invalid(m) => m@,
            },
    {
        match self {
            NotesError::Io(m) => crate::text::copy_text(m.as_str()),
            NotesError::MalformedFrontMatter(m) => crate::text::copy_text(m.as_str()),
            NotesError::Encoding(m) => crate::text::copy_text(m.as_str()),
            NotesError::Invalid(m) => crate::text::copy_text(m.as_str()),
        }
    }
}

} // verus!
