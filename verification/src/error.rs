//! The errors of the task board.

use vstd::prelude::*;
use vstd::string::StringExecFns;

verus! {

/// Why an operation on the task board was refused.
#[derive(Debug, Clone, Copy, PartialEq, Eq, Structural)]
pub enum StoreError {
    /// No journal file was named and no default location is known.
    NoJournalFile,
    /// The journal holds content that is not a task collection.
    CorruptStore,
    /// A position is zero or lies beyond the end of the collection.
    InvalidTaskId,
}

impl StoreError {
    /// The text shown to the user for this error.
    pub open spec fn spec_message(self) -> Seq<char> {
        match self {
            StoreError::NoJournalFile => "Failed to find journal file."@,
            StoreError::CorruptStore => "Journal file is corrupt."@,
            StoreError::InvalidTaskId => "Invalid Task ID"@,
        }
    }

    /// Returns the text shown to the user for this error.
    pub fn message(&self) -> (text: String)
        ensures
            text@ == self.spec_message(),
    {
        match self {
            StoreError::NoJournalFile => String::from_str("Failed to find journal file."),
            StoreError::CorruptStore => String::from_str("Journal file is corrupt."),
            StoreError::InvalidTaskId => String::from_str("Invalid Task ID"),
        }
    }
}

} // verus!
