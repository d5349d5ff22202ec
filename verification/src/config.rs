//! The resolved configuration that the core works on.
//!
//! The configuration document and the command line are read by unverified
//! glue; the core receives their merged content as plain values in
//! [`JsonModel`] and [`Data`] and treats them as read-only thereafter.

use vstd::prelude::*;

verus! {

/// Content of the configuration document, with the two fields derived from
/// the document's location (`root`, `name`) filled in by the loader.
///
/// All paths are POSIX-style strings; relative ones are interpreted against
/// `root`, the directory of the configuration document.
pub struct JsonModel {
    /// Glob patterns selecting the files to format, relative to `root`.
    pub paths: Vec<String>,
    /// Optional glob patterns pruning whole subtrees during traversal.
    /// `None` keeps the default skip of hidden entries; `Some` (even when
    /// empty) replaces it.
    pub filter_pre: Option<Vec<String>>,
    /// Optional glob patterns excluding single files after traversal.
    pub filter_post: Option<Vec<String>>,
    /// Optional path to the style file, relative to `root`.
    pub style_file: Option<String>,
    /// Optional directory the style file is copied into while running.
    pub style_root: Option<String>,
    /// Optional path to the formatter executable, or a bare command name.
    pub command: Option<String>,
    /// Directory of the configuration document.
    pub root: String,
    /// Display name of the configuration document.
    pub name: String,
}

/// Operating mode of a run.
#[derive(Clone, Copy, PartialEq, Eq, Structural, Debug)]
pub enum Command {
    /// Edit files in place.
    Format,
    /// Report compliance without editing; requires a recent formatter.
    Check,
}

/// The merged view of the configuration document and the command-line
/// overrides. Built once at startup and read-only thereafter.
pub struct Data {
    /// Content of the configuration document.
    pub json: JsonModel,
    /// Command-line override for the style file.
    pub style: Option<String>,
    /// Command-line override for the formatter executable.
    pub command: Option<String>,
    /// Worker count: `None` and `Some(0)` both mean all available
    /// parallelism, a positive `Some(n)` at most `n` concurrent
    /// invocations.
    pub jobs: Option<u8>,
    /// Operating mode.
    pub cmd: Command,
    /// Whether every selected file must lie under the style root.
    pub strict_root: bool,
}

/// Normalizes the worker-count parameter: zero and an absent value both
/// mean "use all available parallelism" (`None`); a positive value bounds
/// the workers to exactly that many.
pub fn normalized_jobs(jobs: Option<u8>) -> (r: Option<u8>)
    ensures
        jobs is None ==> r is None,
        jobs == Some(0u8) ==> r is None,
        jobs matches Some(n) ==> (n > 0 ==> r == Some(n)),
{
    match jobs {
        None => None,
        Some(n) => if n == 0 {
            None
        } else {
            Some(n)
        },
    }
}

} // verus!
