//! The import error taxonomy.
//!
//! Every failure aborts the whole batch; the variants keep the offending
//! path or the underlying cause as structured data, and `message` is the
//! one place where they flatten to the human-readable text handed across
//! the host boundary.

use vstd::prelude::*;
use vstd::string::StringExecFns;

verus! {

/// Why an import batch was aborted.
#[derive(Debug, PartialEq, Eq)]
pub enum ImportError {
    /// The project root could not be determined.
    Environment { message: String },
    /// The managed import directory could not be created.
    DirectoryCreation { message: String },
    /// A source path does not exist.
    SourceNotFound { source: String },
    /// A source path has no usable file name.
    InvalidPath { source: String },
    /// The byte copy to the resolved destination failed.
    CopyFailed { source: String, message: String },
}

impl ImportError {
    /// The human-readable message for this error.
    pub open spec fn spec_message(&self) -> Seq<char> {
        match self {
            ImportError::Environment { message } => message@,
            ImportError::DirectoryCreation { message } => message@,
            ImportError::SourceNotFound { source } => "Asset not found: "@ + source@,
            ImportError::InvalidPath { source } => "Invalid asset path: "@ + source@,
            ImportError::CopyFailed { source: _, message } => "Failed to copy asset: "@
                + message@,
        }
    }

    /// Flattens the error to its message text.
    pub fn message(&self) -> (r: String)
        ensures
            r@ == self.spec_message(),
    {
        match self {
            ImportError::Environment { message } => message.clone(),
            ImportError::DirectoryCreation { message } => message.clone(),
            ImportError::SourceNotFound { source } => {
                let mut m = "Asset not found: ".to_owned();
                m.append(source.as_str());
                m
            },
            ImportError::InvalidPath { source } => {
                let mut m = "Invalid asset path: ".to_owned();
                m.append(source.as_str());
                m
            },
            ImportError::CopyFailed { source: _, message } => {
                let mut m = "Failed to copy asset: ".to_owned();
                m.append(message.as_str());
                m
            },
        }
    }
}

} // verus!
