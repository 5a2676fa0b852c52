//! What can go wrong while the versions of a component are found.

use vstd::prelude::*;
use vstd::string::StringExecFns;

verus! {

/// The kinds of failure.
#[derive(Clone, Copy, Debug, PartialEq, Eq, Structural)]
pub enum ErrorKind {
    /// A component's symlink is missing or unreadable, or its target is too short
    /// to hold the component's directory.
    PathResolutionError,
    /// A directory listing is empty or unreadable, or a path has too few parts to
    /// hold a version.
    VersionParseError,
    /// Another failure of the filesystem.
    IOError,
}

/// A failure, with the path or string it was found on.
#[derive(Clone, Debug, PartialEq, Eq)]
pub struct Failure {
    pub kind: ErrorKind,
    /// The offending path or string.
    pub path: String,
    /// What went wrong: the library's own finding, or what the filesystem reported.
    pub detail: String,
}

/// A `Failure` with its texts as sequences of characters.
pub struct FailureView {
    pub kind: ErrorKind,
    pub path: Seq<char>,
    pub detail: Seq<char>,
}

impl View for Failure {
    type V = FailureView;

    open spec fn view(&self) -> FailureView {
        FailureView { kind: self.kind, path: self.path@, detail: self.detail@ }
    }
}

/// An `Ok` or `Err` with the view of what it holds.
pub open spec fn result_view<T: View, E: View>(r: Result<T, E>) -> Result<T::V, E::V> {
    match r {
        Ok(t) => Ok(t@),
        Err(e) => Err(e@),
    }
}

impl Failure {
    /// A failure of `kind` found on `path`.
    pub fn new(kind: ErrorKind, path: &str, detail: &str) -> (r: Failure)
        ensures
            r@ == (FailureView { kind, path: path@, detail: detail@ }),
    {
        Failure { kind, path: path.to_owned(), detail: detail.to_owned() }
    }

    /// The text of `message`: the detail, a colon and the offending path.
    pub open spec fn spec_message(self) -> Seq<char> {
        self.detail@ + ": "@ + self.path@
    }

    /// A line for the user: what went wrong, and on which path.
    pub fn message(&self) -> (r: String)
        ensures
            r@ == self.spec_message(),
    {
        let mut out = self.detail.clone();
        out.append(": ");
        out.append(self.path.as_str());
        out
    }
}

} // verus!
