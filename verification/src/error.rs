//! The error taxonomy of the conversion pipeline.

use vstd::prelude::*;

verus! {

/// Everything that can stop a conversion.  Any failure aborts the whole
/// operation; nothing downstream of a failed stage runs.
#[derive(Clone, Copy, Debug, PartialEq, Eq, Structural)]
pub enum ConvertError {
    /// An input file could not be opened, or the output file could not be
    /// created.
    FileAccess,
    /// A required keyword line (`SERIES`, `SLOPE`, `Y_OFFSET`) is missing
    /// from the header, or a numeric token of it could not be parsed.
    HeaderFormat,
    /// The `SERIES`, `SLOPE` and `Y_OFFSET` lists have different lengths.
    HeaderConsistency,
    /// The output table could not be built or written.
    Serialization,
}

impl ConvertError {
    /// The human-readable message carried to the caller.
    pub open spec fn message_spec(self) -> Seq<char> {
        match self {
            ConvertError::FileAccess => "file access error: an input file could not be opened or the output file could not be created"@,
            ConvertError::HeaderFormat => "header format error: a required keyword line is missing or a numeric token could not be parsed"@,
            ConvertError::HeaderConsistency => "header consistency error: the SERIES, SLOPE and Y_OFFSET lists have different lengths"@,
            ConvertError::Serialization => "serialization error: the output table could not be built or written"@,
        }
    }

    /// Renders the error as its descriptive message.
    pub fn message(&self) -> (r: String)
        ensures
            r@ == self.message_spec(),
    {
        match self {
            ConvertError::FileAccess => String::from_str("file access error: an input file could not be opened or the output file could not be created"),
            ConvertError::HeaderFormat => String::from_str("header format error: a required keyword line is missing or a numeric token could not be parsed"),
            ConvertError::HeaderConsistency => String::from_str("header consistency error: the SERIES, SLOPE and Y_OFFSET lists have different lengths"),
            ConvertError::Serialization => String::from_str("serialization error: the output table could not be built or written"),
        }
    }
}

} // verus!
