//! Error taxonomy of the library.
//!
//! Every fatal condition of the tool is one of these variants; each carries
//! the offending field, path or file list so that callers can render a
//! precise diagnostic.

use vstd::prelude::*;

verus! {

/// A fatal error of the run. No variant is ever retried; configuration-time
/// errors abort before any file is touched, and per-file invocation errors
/// follow the mode-dependent aggregation policy of the dispatcher.
#[derive(Debug)]
pub enum Error {
    /// One or more glob patterns failed to compile; `messages` holds one
    /// entry per failing pattern, `field` the configuration field they came
    /// from and `file` the configuration document holding that field.
    PatternCompile { field: String, file: String, messages: Vec<String> },
    /// A referenced path is missing, of the wrong type, or has the wrong
    /// name or extension.
    PathValidation { path: String, message: String },
    /// A style file was configured without a style root, or a style root
    /// without a resolvable style file.
    StyleConsistency { message: String },
    /// The formatter executable is missing or not invocable.
    CommandResolution { path: String, message: String },
    /// The formatter's version probe output held no parsable version triple.
    VersionParse { message: String },
    /// The formatter's version is below the minimum that check mode needs.
    VersionUnsupported { message: String },
    /// A pre-existing style file at the destination differs from the
    /// configured one.
    StyleFileConflict { destination: String, source: String },
    /// One or more selected files lie outside the style root.
    StrictRootViolation { outside: Vec<String>, root: String },
    /// Check mode found files that do not match the style; all of them are
    /// listed.
    CheckFailures { files: Vec<String> },
    /// The formatter returned a nonzero status or was killed by a signal
    /// for a specific file.
    PerFileInvocation { path: String, message: String },
}

impl Error {
    /// True for the variants that are configuration-time errors: they must
    /// abort the run before any file is formatted.
    pub fn is_configuration_error(&self) -> (r: bool)
        ensures
            r == !(self is CheckFailures || self is PerFileInvocation),
    {
        match self {
            Error::CheckFailures { .. } => false,
            Error::PerFileInvocation { .. } => false,
            _ => true,
        }
    }
}

} // verus!
