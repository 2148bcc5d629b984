//! The errors of block extraction.

use vstd::prelude::*;

verus! {

/// Why no blocks could be extracted from a file.
#[derive(Clone, Copy, Debug, PartialEq, Eq, Structural)]
pub enum ExtractError {
    /// No language is known for the file's extension.
    UnsupportedExtension,
    /// The parser gave no usable syntax tree for the content.
    ParseFailure,
}

impl ExtractError {
    /// The message shown for the error.
    pub fn message(&self) -> (text: String)
        ensures
            text@ == match *self {
                ExtractError::UnsupportedExtension => "unsupported file type"@,
                ExtractError::ParseFailure => "parse failed"@,
            },
    {
        match self {
            ExtractError::UnsupportedExtension => "unsupported file type".to_owned(),
            ExtractError::ParseFailure => "parse failed".to_owned(),
        }
    }
}

} // verus!
