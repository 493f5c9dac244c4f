//! Errors of the library.

use vstd::prelude::*;

verus! {

/// What can go wrong in the library's own logic.
#[derive(Debug)]
pub enum Error {
    /// A configuration or usage error, with its message.
    String(String),
    /// A glob pattern that does not compile, with the pattern.
    Glob(String),
    /// A template that failed to render, with the causes reported.
    Template(String),
}

impl Error {
    /// The message carried by the error.
    pub fn message(&self) -> (r: String)
        ensures
            r@ == match self {
                Error::String(m) => m@,
                Error::Glob(p) => p@,
                Error::Template(m) => m@,
            },
    {
        match self {
            Error::String(m) => m.clone(),
            Error::Glob(p) => p.clone(),
            Error::Template(m) => m.clone(),
        }
    }
}

} // verus!
