//! The failures the engine can surface.  Each one names the path or
//! identifier that could not be resolved.  A fact that is malformed for a
//! single sub-item is not an error: the builder skips it and goes on.

use vstd::prelude::*;
use vstd::string::StringExecFns;

verus! {

/// A fatal failure of the pipeline.
#[derive(Clone, Debug, PartialEq, Eq)]
pub enum Error {
    /// The program unit itself could not be resolved; carries the unit's
    /// name.
    RootUnresolved(String),
    /// The focus path matched no module node; carries the dotted path.
    PathNotFound(String),
    /// The focus path matched more than one module node; carries the
    /// dotted path.
    AmbiguousPath(String),
}

impl Error {
    /// A human-readable description; the offending identifier is always
    /// part of it.
    pub fn message(&self) -> (r: String)
        ensures
            match self {
                Error::RootUnresolved(name) => r@ == "root unit could not be resolved: "@
                    + name@,
                Error::PathNotFound(path) => r@ == "no module found for path: "@ + path@,
                Error::AmbiguousPath(path) => r@ == "more than one module found for path: "@
                    + path@,
            },
    {
        match self {
            Error::RootUnresolved(name) => String::from_str("root unit could not be resolved: ")
                .concat(name.as_str()),
            Error::PathNotFound(path) => String::from_str("no module found for path: ").concat(
                path.as_str(),
            ),
            Error::AmbiguousPath(path) => String::from_str(
                "more than one module found for path: ",
            ).concat(path.as_str()),
        }
    }
}

} // verus!
