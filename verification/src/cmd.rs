//! The formatter runner: the resolved executable reference together with
//! its lazily learned version.
//!
//! Everything that computes is here and verified: evaluating an exit
//! status, digesting the version-probe output, rendering the version, and
//! the version gate for check mode. Spawning the subprocess itself is left
//! to the caller, which hands the probe's standard output in.

use vstd::prelude::*;

use crate::config::Command;
use crate::error::Error;
use crate::version::{parse_version, parsed_version, Version};

verus! {

/// Check mode needs at least this formatter major version: older releases
/// lack the non-mutating dry-run diagnostic.
pub const CHECK_MIN_MAJOR: u8 = 9;

/// The decimal digit character for a value below ten.
pub open spec fn digit_char(d: int) -> char {
    if d == 0 {
        '0'
    } else if d == 1 {
        '1'
    } else if d == 2 {
        '2'
    } else if d == 3 {
        '3'
    } else if d == 4 {
        '4'
    } else if d == 5 {
        '5'
    } else if d == 6 {
        '6'
    } else if d == 7 {
        '7'
    } else if d == 8 {
        '8'
    } else {
        '9'
    }
}

/// Decimal representation of a number, most significant digit first.
pub open spec fn dec_rep(n: int) -> Seq<char>
    decreases n,
{
    if n < 10 {
        seq![digit_char(n)]
    } else {
        dec_rep(n / 10) + seq![digit_char(n % 10)]
    }
}

/// The rendering of a version as `major.minor.patch`.
pub open spec fn version_rep(v: Version) -> Seq<char> {
    dec_rep(v.major as int) + seq!['.'] + dec_rep(v.minor as int) + seq!['.'] + dec_rep(
        v.patch as int,
    )
}

/// The string for one digit.
fn digit_str(d: u8) -> (r: &'static str)
    requires
        d < 10,
    ensures
        r@ == seq![digit_char(d as int)],
{
    proof {
        reveal_strlit("0");
        reveal_strlit("1");
        reveal_strlit("2");
        reveal_strlit("3");
        reveal_strlit("4");
        reveal_strlit("5");
        reveal_strlit("6");
        reveal_strlit("7");
        reveal_strlit("8");
        reveal_strlit("9");
        assert("0"@ =~= seq!['0']);
        assert("1"@ =~= seq!['1']);
        assert("2"@ =~= seq!['2']);
        assert("3"@ =~= seq!['3']);
        assert("4"@ =~= seq!['4']);
        assert("5"@ =~= seq!['5']);
        assert("6"@ =~= seq!['6']);
        assert("7"@ =~= seq!['7']);
        assert("8"@ =~= seq!['8']);
        assert("9"@ =~= seq!['9']);
    }
    if d == 0 {
        "0"
    } else if d == 1 {
        "1"
    } else if d == 2 {
        "2"
    } else if d == 3 {
        "3"
    } else if d == 4 {
        "4"
    } else if d == 5 {
        "5"
    } else if d == 6 {
        "6"
    } else if d == 7 {
        "7"
    } else if d == 8 {
        "8"
    } else {
        "9"
    }
}

/// Renders a number in decimal.
pub fn u32_to_string(n: u32) -> (r: String)
    ensures
        r@ == dec_rep(n as int),
    decreases n,
{
    if n < 10 {
        return digit_str((n % 10) as u8).to_owned();
    }
    let mut out = u32_to_string(n / 10);
    out.append(digit_str((n % 10) as u8));
    out
}

/// Renders a byte in decimal.
pub fn u8_to_string(n: u8) -> (r: String)
    ensures
        r@ == dec_rep(n as int),
{
    u32_to_string(n as u32)
}

/// Decimal representation of a possibly negative number.
pub open spec fn signed_rep(n: int) -> Seq<char> {
    if n < 0 {
        seq!['-'] + dec_rep(-n)
    } else {
        dec_rep(n)
    }
}

/// Renders a signed number in decimal.
pub fn i32_to_string(n: i32) -> (r: String)
    ensures
        r@ == signed_rep(n as int),
{
    if n >= 0 {
        u32_to_string(n as u32)
    } else {
        let mag: u32 = (-(n as i64)) as u32;
        proof {
            assert(mag as int == -(n as int));
        }
        let mut out = "-".to_owned();
        proof {
            reveal_strlit("-");
            assert("-"@ =~= seq!['-']);
        }
        let digits = u32_to_string(mag);
        out.append(digits.as_str());
        proof {
            assert(out@ =~= signed_rep(n as int));
        }
        out
    }
}

/// Renders a version as `major.minor.patch`.
pub fn version_to_string(v: &Version) -> (r: String)
    ensures
        r@ == version_rep(*v),
{
    let mut out = u8_to_string(v.major);
    proof {
        reveal_strlit(".");
        assert("."@ =~= seq!['.']);
    }
    out.append(".");
    let minor = u8_to_string(v.minor);
    out.append(minor.as_str());
    out.append(".");
    let patch = u8_to_string(v.patch);
    out.append(patch.as_str());
    proof {
        assert(out@ =~= version_rep(*v));
    }
    out
}

/// The resolved formatter command and, once probed, its version.
pub struct Runner {
    /// The executable reference: an absolute path, a relative path, or a
    /// bare name for the search path.
    pub cmd: String,
    /// The version parsed from the probe, once it ran.
    pub version: Option<Version>,
}

impl Runner {
    /// Creates a runner for the given executable reference; no version is
    /// known until the probe output is digested.
    pub fn new(path: &str) -> (r: Runner)
        ensures
            r.cmd@ == path@,
            r.version is None,
    {
        Runner { cmd: path.to_owned(), version: None }
    }

    /// The version as `major.minor.patch`, when known.
    pub fn get_version(&self) -> (r: Option<String>)
        ensures
            r is Some <==> self.version is Some,
            r matches Some(s) ==> self.version matches Some(v) && s@ == version_rep(v),
    {
        match &self.version {
            None => None,
            Some(v) => Some(version_to_string(v)),
        }
    }

    /// The parsed version itself, when known.
    pub fn version(&self) -> (r: Option<Version>)
        ensures
            r == self.version,
    {
        match &self.version {
            None => None,
            Some(v) => Some(*v),
        }
    }

    /// The executable reference.
    pub fn get_path(&self) -> (r: String)
        ensures
            r@ == self.cmd@,
    {
        self.cmd.clone()
    }

    /// Judges an exit status, given as `code` from the child's status (or
    /// `None` when a signal terminated it). The diagnostic names the exit
    /// code; the file context is the caller's to attach.
    pub fn eval_status(code: Option<i32>) -> (r: Result<(), Error>)
        ensures
            r is Ok <==> code == Some(0i32),
            r matches Err(e) ==> (e matches Error::PerFileInvocation { path, message } && path@
                == Seq::<char>::empty() && message@ == status_message(code)),
    {
        match code {
            Some(c) => {
                if c == 0 {
                    Ok(())
                } else {
                    let mut message = "Process terminated with code ".to_owned();
                    let rendered = i32_to_string(c);
                    message.append(rendered.as_str());
                    proof {
                        assert(message@ =~= status_message(Some(c)));
                    }
                    Err(Error::PerFileInvocation { path: String::new(), message })
                }
            },
            None => Err(
                Error::PerFileInvocation {
                    path: String::new(),
                    message: "Process terminated by signal".to_owned(),
                },
            ),
        }
    }

    /// Digests the standard output of the version probe: the parsed version
    /// is stored, or the probe counts as failed.
    pub fn validate_output(&mut self, stdout: &str) -> (r: Result<(), Error>)
        ensures
            final(self).cmd == old(self).cmd,
            r is Ok <==> parsed_version(stdout@) is Some,
            r is Ok ==> final(self).version == parsed_version(stdout@),
            r matches Err(e) ==> e is VersionParse && final(self).version == old(self).version,
    {
        match parse_version(stdout) {
            Some(v) => {
                self.version = Some(v);
                Ok(())
            },
            None => Err(
                Error::VersionParse {
                    message: "Failed to parse a version triple from the probe output".to_owned(),
                },
            ),
        }
    }

    /// The version gate for check mode: the version must be known and its
    /// major component at least [`CHECK_MIN_MAJOR`]. Nothing may be
    /// formatted in check mode unless this returns `Ok`.
    pub fn supports_check_or_err(&self) -> (r: Result<(), Error>)
        ensures
            r is Ok <==> (self.version matches Some(v) && v.major >= CHECK_MIN_MAJOR),
            r matches Err(e) ==> e is VersionUnsupported,
    {
        match &self.version {
            None => Err(
                Error::VersionUnsupported {
                    message: "Unknown version; the dry-run check needs a recent formatter".to_owned(),
                },
            ),
            Some(v) => {
                if v.major < CHECK_MIN_MAJOR {
                    Err(
                        Error::VersionUnsupported {
                            message: "The formatter is too old for the dry-run check".to_owned(),
                        },
                    )
                } else {
                    Ok(())
                }
            },
        }
    }
}

impl Clone for Runner {
    /// Clones the runner, keeping the command and version.
    fn clone(&self) -> (r: Runner)
        ensures
            r.cmd@ == self.cmd@,
            r.version == self.version,
    {
        Runner { cmd: self.cmd.clone(), version: self.version }
    }
}

} // verus!

verus! {

/// The diagnostic for a failed invocation: the exit code, or the signal
/// notice when none was delivered.
pub open spec fn status_message(code: Option<i32>) -> Seq<char> {
    match code {
        None => "Process terminated by signal"@,
        Some(c) => "Process terminated with code "@ + signed_rep(c as int),
    }
}

/// The fixed per-mode argument set passed to the formatter after the file
/// path: no fallback style, the ambient style file, warnings as errors, and
/// edit-in-place or the non-mutating dry run depending on the mode.
pub fn formatter_args(mode: &Command) -> (r: Vec<String>)
    ensures
        r@.len() == 4,
        r@[0]@ == "-fallback-style=none"@,
        r@[1]@ == "-style=file"@,
        r@[2]@ == "--Werror"@,
        mode is Format ==> r@[3]@ == "-i"@,
        mode is Check ==> r@[3]@ == "--dry-run"@,
{
    let mut args: Vec<String> = Vec::new();
    args.push("-fallback-style=none".to_owned());
    args.push("-style=file".to_owned());
    args.push("--Werror".to_owned());
    match mode {
        Command::Format => args.push("-i".to_owned()),
        Command::Check => args.push("--dry-run".to_owned()),
    }
    args
}

} // verus!
