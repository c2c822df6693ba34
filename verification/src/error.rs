//! Errors surfaced by vocabulary construction and encoding.

use vstd::prelude::*;

verus! {

/// The error taxonomy of the library.
#[derive(Debug, PartialEq, Clone)]
pub enum TokenizerError {
    /// A vocabulary path was missing or unreadable.
    FileNotFound(String),
    /// A vocabulary file's contents were malformed.
    VocabularyParsingError(String),
    /// A required special token is absent from a loaded vocabulary.
    TokenNotFound(String),
    /// Invalid arguments at encode time.
    ValueError(String),
}

impl TokenizerError {
    /// A human-readable description of the error.
    pub fn message(&self) -> (r: &str)
        ensures
            r@ == match self {
                TokenizerError::FileNotFound(m) => m@,
                TokenizerError::VocabularyParsingError(m) => m@,
                TokenizerError::TokenNotFound(m) => m@,
                TokenizerError::ValueError(m) => m@,
            },
    {
        match self {
            TokenizerError::FileNotFound(m) => m.as_str(),
            TokenizerError::VocabularyParsingError(m) => m.as_str(),
            TokenizerError::TokenNotFound(m) => m.as_str(),
            TokenizerError::ValueError(m) => m.as_str(),
        }
    }
}

} // verus!
