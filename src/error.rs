//! The library's errors.
use vstd::prelude::*;

verus! {

/// A failure on one document, which skips that document only.
#[derive(Debug, Clone)]
pub enum Error {
    /// The source path does not exist or is not a regular file.
    NotFound(String),
}

impl Error {
    /// The message shown for the error.
    pub fn to_string(&self) -> (r: String)
        ensures
            self matches Error::NotFound(p) ==> r@ == "File not found: "@ + p@,
    {
        match self {
            Error::NotFound(p) => crate::text::concat("File not found: ", p.as_str()),
        }
    }
}

} // verus!
