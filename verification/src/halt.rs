//! Why a value could not be given: something has yet to be read, or the finding
//! failed.

use crate::error::{Failure, FailureView};
use vstd::prelude::*;

verus! {

/// Why the evaluation stopped before it had its value.
#[derive(Clone, Debug, PartialEq, Eq)]
pub enum Halt {
    /// The symlink at this path has not been read yet.
    ReadLink(String),
    /// The directory at this path has not been listed yet.
    ListDir(String),
    /// The evaluation failed.
    Failed(Failure),
}

/// A `Halt` with its texts as sequences of characters.
pub enum HaltView {
    ReadLink(Seq<char>),
    ListDir(Seq<char>),
    Failed(FailureView),
}

impl View for Halt {
    type V = HaltView;

    open spec fn view(&self) -> HaltView {
        match self {
            Halt::ReadLink(path) => HaltView::ReadLink(path@),
            Halt::ListDir(path) => HaltView::ListDir(path@),
            Halt::Failed(error) => HaltView::Failed(error@),
        }
    }
}

/// A finding of the library's own as a step of the evaluation: its failure halts.
pub open spec fn or_halt<T>(r: Result<T, FailureView>) -> Result<T, HaltView> {
    match r {
        Ok(value) => Ok(value),
        Err(error) => Err(HaltView::Failed(error)),
    }
}

} // verus!
