//! Verified core of a tool that runs an external line formatter
//! (`clang-format`) over a declaratively selected set of source files.
//!
//! The library covers the logic that deserves proof: glob-driven path
//! selection with pre- and post-filtering, the style-file / style-root
//! resolution state machine, command resolution, version gating for the
//! non-mutating check mode, the placement model for the materialized style
//! file, and the mode-dependent aggregation of per-file outcomes.
//!
//! Filesystem walks and glob matching are delegated to the `globmatch`
//! crate behind a small set of trusted wrappers; everything that can be
//! stated over plain values is specified and proved here.

pub mod cmd;
pub mod config;
pub mod dispatch;
pub mod error;
pub mod globs;
pub mod paths;
pub mod place;
pub mod resolve;
pub mod strs;
pub mod utils;
pub mod version;

use vstd::prelude::*;

verus! {

/// The conventional name of the formatter's style file; the placer copies
/// the resolved style file under this name into the style root.
pub fn style_file_name() -> (r: &'static str)
    ensures
        r@ == ".clang-format"@,
{
    ".clang-format"
}

} // verus!
