//! Validation of referenced paths: existence, kind, and name or extension
//! conventions.
//!
//! Whether something is on disk can only be observed, never specified, so
//! the three probes are trusted and say nothing; every contract here pins
//! the textual part of the validation exactly and ties the result to the
//! probed path.

use vstd::prelude::*;

use crate::error::Error;
use crate::paths::{extension_of, extension_str, file_name_of, file_name_str};
use crate::strs::{eq_fold_spec, eq_ignore_ascii_case};

verus! {

/// Relies on `std::path::Path::exists`: whether anything is at the path at
/// the moment of the call. Purely observational, so nothing is promised.
#[verifier::external_body]
fn fs_exists(path: &str) -> bool {
    std::path::Path::new(path).exists()
}

/// Relies on `std::path::Path::is_file`: whether a regular file is at the
/// path at the moment of the call. Purely observational.
#[verifier::external_body]
pub(crate) fn fs_is_file(path: &str) -> bool {
    std::path::Path::new(path).is_file()
}

/// Relies on `std::path::Path::is_dir`: whether a directory is at the path
/// at the moment of the call. Purely observational.
#[verifier::external_body]
fn fs_is_dir(path: &str) -> bool {
    std::path::Path::new(path).is_dir()
}

/// Accepts a path only if something exists there.
pub fn path_or_err(path: &str) -> (r: Result<String, Error>)
    ensures
        r matches Ok(p) ==> p@ == path@,
        r matches Err(e) ==> (e matches Error::PathValidation { path: ep, .. } && ep@ == path@),
{
    if fs_exists(path) {
        Ok(path.to_owned())
    } else {
        Err(
            Error::PathValidation {
                path: path.to_owned(),
                message: "Path not found or permission denied".to_owned(),
            },
        )
    }
}

/// Accepts a path only if a regular file is there.
pub fn file_or_err(path: &str) -> (r: Result<String, Error>)
    ensures
        r matches Ok(p) ==> p@ == path@,
        r matches Err(e) ==> (e matches Error::PathValidation { path: ep, .. } && ep@ == path@),
{
    if fs_is_file(path) {
        Ok(path.to_owned())
    } else {
        Err(
            Error::PathValidation {
                path: path.to_owned(),
                message: "File not found or permission denied".to_owned(),
            },
        )
    }
}

/// Accepts a path only if a directory is there.
pub fn dir_or_err(path: &str) -> (r: Result<String, Error>)
    ensures
        r matches Ok(p) ==> p@ == path@,
        r matches Err(e) ==> (e matches Error::PathValidation { path: ep, .. } && ep@ == path@),
{
    if fs_is_dir(path) {
        Ok(path.to_owned())
    } else {
        Err(
            Error::PathValidation {
                path: path.to_owned(),
                message: "Directory not found".to_owned(),
            },
        )
    }
}

/// Whether the final segment of `path` equals `name` up to ASCII case.
pub open spec fn name_matches(path: Seq<char>, name: Seq<char>) -> bool {
    eq_fold_spec(file_name_of(path), name)
}

/// Accepts a regular file whose name equals `name`, compared without ASCII
/// case.
pub fn file_with_name(path: &str, name: &str) -> (r: Result<String, Error>)
    ensures
        r matches Ok(p) ==> p@ == path@ && name_matches(path@, name@),
        !name_matches(path@, name@) ==> r is Err,
        r matches Err(e) ==> (e matches Error::PathValidation { path: ep, .. } && ep@ == path@),
{
    let buf = file_or_err(path)?;
    let file_name = file_name_str(path);
    if !eq_ignore_ascii_case(file_name, name) {
        return Err(
            Error::PathValidation {
                path: path.to_owned(),
                message: "Expected a file with another name".to_owned(),
            },
        );
    }
    Ok(buf)
}

/// The extension to compare with: a leading dot is dropped unless the
/// comparison is strict.
pub open spec fn ext_adjusted(ext: Seq<char>, strict: bool) -> Seq<char> {
    if !strict && ext.len() > 0 && ext[0] == '.' {
        ext.skip(1)
    } else {
        ext
    }
}

/// Whether `path` has an extension equal to the adjusted `ext`, compared
/// without ASCII case.
pub open spec fn ext_matches(path: Seq<char>, ext: Seq<char>, strict: bool) -> bool {
    extension_of(path) matches Some(e) && eq_fold_spec(e, ext_adjusted(ext, strict))
}

/// Accepts a regular file whose extension equals `ext`, compared without
/// ASCII case; unless `strict`, a leading dot on `ext` is ignored.
pub fn file_with_ext(path: &str, ext: &str, strict: bool) -> (r: Result<String, Error>)
    ensures
        r matches Ok(p) ==> p@ == path@ && ext_matches(path@, ext@, strict),
        !ext_matches(path@, ext@, strict) ==> r is Err,
        r matches Err(e) ==> (e matches Error::PathValidation { path: ep, .. } && ep@ == path@),
{
    let buf = file_or_err(path)?;
    let elen = ext.unicode_len();
    let ext_minus = if !strict && elen > 0 && ext.get_char(0) == '.' {
        proof {
            assert(ext@.subrange(1, elen as int) =~= ext@.skip(1));
        }
        ext.substring_char(1, elen)
    } else {
        ext
    };
    match extension_str(path) {
        None => Err(
            Error::PathValidation {
                path: path.to_owned(),
                message: "Expected a file with an extension".to_owned(),
            },
        ),
        Some(file_ext) => {
            if !eq_ignore_ascii_case(ext_minus, file_ext) {
                return Err(
                    Error::PathValidation {
                        path: path.to_owned(),
                        message: "Expected a file with another extension".to_owned(),
                    },
                );
            }
            Ok(buf)
        },
    }
}

/// Whether the file is acceptable as a style file reference: its name is
/// `name_or_ext`, or its extension is `name_or_ext` without the leading
/// dot; both compared without ASCII case.
pub open spec fn name_or_ext_matches(path: Seq<char>, name_or_ext: Seq<char>) -> bool {
    name_matches(path, name_or_ext) || ext_matches(path, name_or_ext, false)
}

/// Accepts a regular file that [`name_or_ext_matches`] the given reference.
pub fn file_with_name_or_ext(path: &str, name_or_ext: &str) -> (r: Result<String, Error>)
    ensures
        r matches Ok(p) ==> p@ == path@ && name_or_ext_matches(path@, name_or_ext@),
        !name_or_ext_matches(path@, name_or_ext@) ==> r is Err,
        r matches Err(e) ==> (e matches Error::PathValidation { path: ep, .. } && ep@ == path@),
{
    let buf = file_or_err(path)?;
    let f_for_name = file_with_name(path, name_or_ext);
    if let Ok(p) = f_for_name {
        return Ok(p);
    }
    let f_for_ext = file_with_ext(path, name_or_ext, false);
    if let Ok(p) = f_for_ext {
        return Ok(p);
    }
    Err(
        Error::PathValidation {
            path: path.to_owned(),
            message: "Expected a file with the conventional name or extension".to_owned(),
        },
    )
}

} // verus!
