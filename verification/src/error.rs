//! Crate-wide error type.

use vstd::prelude::*;

verus! {

/// Errors produced by SlideForge. Every variant carries its message as
/// plain text; the I/O and YAML variants name the file concerned.
#[derive(Debug)]
pub enum Error {
    /// A filesystem operation failed while accessing `path`.
    Io { path: String, detail: String },
    /// The YAML in `path` could not be deserialized into PPTD types.
    Yaml { path: String, detail: String },
    /// The document is structurally invalid (wrong version, bad fields, ...).
    Invalid(String),
    /// The document parsed but failed semantic validation.
    Validation(String),
    /// A parsed construct the writer does not support yet.
    Unsupported(String),
    /// Packaging (ZIP) or writing the output failed.
    Zip(String),
}

} // verus!
