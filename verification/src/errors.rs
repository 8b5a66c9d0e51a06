//! Error taxonomy of the engine.

use vstd::prelude::*;

verus! {

/// Everything that can go wrong while building a producer, loading a
/// target document, or configuring a cracking run.
#[derive(Clone, Copy, Debug, PartialEq, Eq, Structural)]
pub enum CrackError {
    /// The source file could not be opened or read.
    IOError,
    /// The document's structure could not be parsed.
    ParseError,
    /// The document is not encrypted, or its security handler or
    /// encryption dictionary is not one this engine understands.
    UnsupportedFormatError,
    /// A numeric or date interval has its bounds out of order, or an
    /// alphabet or length setting describes no usable space.
    InvalidRangeError,
    /// A wildcard template contains an unknown token or an unfinished
    /// escape.
    InvalidTemplateError,
    /// The cracking run itself is misconfigured (zero worker threads).
    InvalidConfigError,
}

impl CrackError {
    /// The description `message` returns for each variant.
    pub open spec fn spec_message(&self) -> Seq<char> {
        match self {
            CrackError::IOError => "could not open or read the source file"@,
            CrackError::ParseError => "could not parse the document structure"@,
            CrackError::UnsupportedFormatError => "document is not encrypted with a supported security handler"@,
            CrackError::InvalidRangeError => "interval bounds are out of order or describe an empty space"@,
            CrackError::InvalidTemplateError => "wildcard template is malformed"@,
            CrackError::InvalidConfigError => "invalid cracking configuration"@,
        }
    }

    /// A short human-readable description of the error.
    pub fn message(&self) -> (r: &'static str)
        ensures
            r@ == self.spec_message(),
    {
        match self {
            CrackError::IOError => "could not open or read the source file",
            CrackError::ParseError => "could not parse the document structure",
            CrackError::UnsupportedFormatError => "document is not encrypted with a supported security handler",
            CrackError::InvalidRangeError => "interval bounds are out of order or describe an empty space",
            CrackError::InvalidTemplateError => "wildcard template is malformed",
            CrackError::InvalidConfigError => "invalid cracking configuration",
        }
    }
}

} // verus!
