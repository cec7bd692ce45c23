//! An error message with the source place it was raised at.

use vstd::prelude::*;

use std::string::String;

verus! {

/// An error message with the file and line it was raised at.
pub struct ErrorTrace {
    pub message: String,
    pub file: String,
    pub line: u32,
}

impl ErrorTrace {
    /// An error raised elsewhere, with the place given by the caller.
    pub fn from_other_error(message: &str, file: &str, line: u32) -> (r: ErrorTrace)
        ensures
            r.message@ == message@,
            r.file@ == file@,
            r.line == line,
    {
        ErrorTrace { message: message.to_owned(), file: file.to_owned(), line }
    }
}

} // verus!
