//! What can go wrong when a document is read.

use vstd::prelude::*;

verus! {

/// Why a document could not be used.
#[derive(Debug, Clone, Copy, PartialEq, Eq)]
pub enum VdfError {
    /// The text is not a well-formed document.
    Parse,
    /// The document is well formed but lacks a section that was expected.
    Schema,
}

impl VdfError {
    /// A sentence that says what went wrong.
    pub fn message(&self) -> (text: String)
        ensures
            text@ == match self {
                VdfError::Parse => "the text is not a well-formed key-value document"@,
                VdfError::Schema => "the document lacks an expected section"@,
            },
    {
        match self {
            VdfError::Parse => String::from_str("the text is not a well-formed key-value document"),
            VdfError::Schema => String::from_str("the document lacks an expected section"),
        }
    }
}

} // verus!
