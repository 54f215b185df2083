//! Errors of the configuration merge.
use vstd::prelude::*;

verus! {

/// What can go wrong while reading, parsing or writing configuration files.
#[derive(Debug)]
pub enum ConfigPatchError {
    /// The named input file could not be read.
    FileNotFound(String),
    /// The named file could not be parsed; `message` says why.
    ParseError { path: String, message: String },
    /// The format of a file could not be determined or is not supported.
    UnsupportedFormat(String),
    /// The output could not be written; the text says why.
    WriteError(String),
}

impl ConfigPatchError {
    /// The human-readable message of an error.
    pub open spec fn spec_message(&self) -> Seq<char> {
        match self {
            ConfigPatchError::FileNotFound(p) => "File not found: "@ + p@,
            ConfigPatchError::ParseError { path, message } => "Failed to parse "@ + path@ + ": "@
                + message@,
            ConfigPatchError::UnsupportedFormat(m) => "Unsupported file format: "@ + m@,
            ConfigPatchError::WriteError(m) => "Failed to write output: "@ + m@,
        }
    }

    /// The human-readable message of this error.
    pub fn to_string(&self) -> (r: String)
        ensures
            r@ == self.spec_message(),
    {
        match self {
            ConfigPatchError::FileNotFound(p) => String::from_str("File not found: ").concat(
                p.as_str(),
            ),
            ConfigPatchError::ParseError { path, message } => String::from_str(
                "Failed to parse ",
            ).concat(path.as_str()).concat(": ").concat(message.as_str()),
            ConfigPatchError::UnsupportedFormat(m) => String::from_str(
                "Unsupported file format: ",
            ).concat(m.as_str()),
            ConfigPatchError::WriteError(m) => String::from_str("Failed to write output: ").concat(
                m.as_str(),
            ),
        }
    }
}

} // verus!
