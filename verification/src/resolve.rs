//! Resolution of the style file, the style root and the formatter command
//! from the configuration document and the command-line overrides.
//!
//! An override always takes precedence over a configured value. The style
//! file and the style root must be specified together or not at all; the
//! two cross cases are configuration errors and are rejected before any
//! file is touched.

use vstd::prelude::*;

use crate::config::Data;
use crate::error::Error;
use crate::paths::{has_sep, has_separator, join_of, join_path};
use crate::utils::{dir_or_err, file_with_name_or_ext, fs_is_file, name_or_ext_matches};

verus! {

/// The effective style file: the command-line override if present,
/// otherwise the configured file resolved against the document's directory
/// and validated to carry the conventional style-file name or extension,
/// otherwise nothing.
///
/// An override was already validated when the command line was read, so it
/// is taken as given; a configured value is validated here, which is late
/// enough to let an override supersede a broken configuration.
pub fn resolve_style_file(data: &Data) -> (r: Result<Option<String>, Error>)
    ensures
        data.style matches Some(s) ==> (r matches Ok(Some(p)) && p@ == s@),
        data.style is None && data.json.style_file is None ==> r matches Ok(None),
        data.json.style_file matches Some(sf) ==> (data.style is None ==> {
            &&& !name_or_ext_matches(join_of(data.json.root@, sf@), ".clang-format"@)
                ==> r is Err
            &&& r matches Ok(opt) ==> (opt matches Some(p) && p@ == join_of(
                data.json.root@,
                sf@,
            ) && name_or_ext_matches(join_of(data.json.root@, sf@), ".clang-format"@))
        }),
        r matches Err(e) ==> e is PathValidation,
{
    match &data.style {
        Some(s_cli) => Ok(Some(s_cli.clone())),
        None => match &data.json.style_file {
            None => Ok(None),
            Some(cfg) => {
                let full = join_path(data.json.root.as_str(), cfg.as_str());
                let validated = file_with_name_or_ext(full.as_str(), ".clang-format")?;
                Ok(Some(validated))
            },
        },
    }
}

/// The effective style file and style root, both or neither.
///
/// The four combinations of "style file resolved" and "style root resolved"
/// map to: neither - nothing to place, an ambient style file is assumed;
/// both - the pair to materialize; one without the other - a consistency
/// error, raised before any file is formatted.
pub fn style_and_root(data: &Data) -> (r: Result<Option<(String, String)>, Error>)
    ensures
        r matches Ok(None) ==> data.style is None && data.json.style_file is None
            && data.json.style_root is None,
        data.style is None && data.json.style_file is None && data.json.style_root is None
            ==> r matches Ok(None),
        r matches Ok(Some(pair)) ==> {
            &&& data.json.style_root matches Some(rt) && pair.1@ == join_of(
                data.json.root@,
                rt@,
            )
            &&& data.style matches Some(s) ==> pair.0@ == s@
            &&& data.style is None ==> (data.json.style_file matches Some(cfg) && pair.0@
                == join_of(data.json.root@, cfg@) && name_or_ext_matches(
                join_of(data.json.root@, cfg@),
                ".clang-format"@,
            ))
        },
        data.json.style_root is None && (data.style is Some || data.json.style_file is Some)
            ==> r is Err,
        data.json.style_root is Some && data.style is None && data.json.style_file is None
            ==> r is Err,
        data.style matches Some(_s) && data.json.style_root is None ==> (r matches Err(e)
            && e is StyleConsistency),
        r matches Err(e) ==> e is PathValidation || e is StyleConsistency,
{
    let style = resolve_style_file(data)?;
    let style_root: Option<String> = match &data.json.style_root {
        None => None,
        Some(p) => {
            let full = join_path(data.json.root.as_str(), p.as_str());
            let validated = dir_or_err(full.as_str())?;
            Some(validated)
        },
    };
    match style {
        None => match style_root {
            None => Ok(None),
            Some(_) => Err(
                Error::StyleConsistency {
                    message: "A valid style file must be specified for configurations with a style root"
                        .to_owned(),
                },
            ),
        },
        Some(style_file) => match style_root {
            Some(root) => Ok(Some((style_file, root))),
            None => Err(
                Error::StyleConsistency {
                    message: "Found a style file but no style root to place it in".to_owned(),
                },
            ),
        },
    }
}

/// The effective formatter command: the command-line override if present,
/// otherwise the configured value, otherwise the conventional name.
///
/// A configured value that is a path is resolved against the document's
/// directory and must exist as a regular file. A configured bare name must
/// resolve in the search path, which the library cannot observe: the
/// caller learns through [`configured_bare_command`] that the eager check
/// is owed and performs it against the environment before anything runs.
/// An override (and the default name) is validated only by the version
/// probe, so that a broken override fails with a uniform probe diagnostic.
pub fn command(data: &Data) -> (r: Result<String, Error>)
    ensures
        data.command matches Some(c) ==> (r matches Ok(p) && p@ == c@),
        data.command is None && data.json.command is None ==> (r matches Ok(p) && p@
            == "clang-format"@),
        data.json.command matches Some(c) ==> (data.command is None && !has_sep(c@) ==> (
        r matches Ok(p) && p@ == c@)),
        data.json.command matches Some(c) ==> (data.command is None && has_sep(c@) ==> (
        r matches Ok(p) ==> p@ == join_of(data.json.root@, c@))),
        data.json.command matches Some(c) ==> (r matches Err(e) ==> (
        e matches Error::CommandResolution { path: ep, .. } && data.command is None && has_sep(
            c@,
        ) && ep@ == join_of(data.json.root@, c@))),
        r matches Err(e) ==> e is CommandResolution,
{
    match &data.command {
        Some(cmd_cli) => Ok(cmd_cli.clone()),
        None => match &data.json.command {
            None => Ok("clang-format".to_owned()),
            Some(cmd_cfg) => {
                if !has_separator(cmd_cfg.as_str()) {
                    // a bare executable name: the caller resolves it in the
                    // search path (see `configured_bare_command`)
                    return Ok(cmd_cfg.clone());
                }
                let full = join_path(data.json.root.as_str(), cmd_cfg.as_str());
                if fs_is_file(full.as_str()) {
                    Ok(full)
                } else {
                    Err(
                        Error::CommandResolution {
                            path: full,
                            message: "The configured command is not a file".to_owned(),
                        },
                    )
                }
            },
        },
    }
}

} // verus!

verus! {

/// The configured bare command name whose search-path resolution is still
/// owed: a command that originates from the configuration (not overridden)
/// and names no path. The caller must resolve it in the search path before
/// anything runs and reject the configuration if it does not resolve; the
/// library cannot observe the environment itself.
pub fn configured_bare_command(data: &Data) -> (r: Option<String>)
    ensures
        data.command is Some ==> r is None,
        data.json.command is None ==> r is None,
        data.json.command matches Some(c) ==> (data.command is None && !has_sep(c@) ==> (
        r matches Some(n) && n@ == c@)),
        data.json.command matches Some(c) ==> (r is Some ==> (data.command is None && !has_sep(
            c@,
        ))),
{
    match &data.command {
        Some(_) => None,
        None => match &data.json.command {
            None => None,
            Some(cmd_cfg) => {
                if has_separator(cmd_cfg.as_str()) {
                    None
                } else {
                    Some(cmd_cfg.clone())
                }
            },
        },
    }
}

} // verus!
