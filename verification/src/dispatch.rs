//! Dispatching the formatter over the selected files and aggregating the
//! per-file outcomes.
//!
//! The dispatcher is a small state machine: the driver repeatedly asks for
//! the next file, invokes the formatter on it, and records the outcome. In
//! format mode no further file is handed out once a failure was recorded
//! (in-flight work may still finish, its outcome is simply recorded and
//! ignored); in check mode every file is processed and every failure
//! collected. Closing the dispatcher turns the record into the run's
//! result according to the mode.
//!
//! The strict-root check runs before any dispatch: every selected file must
//! lie beneath the style root.

use vstd::prelude::*;

use crate::config::Command;
use crate::error::Error;
use crate::paths::{is_under, under_of};

verus! {

/// One failed formatter invocation: the file and the diagnostic.
pub struct FileFailure {
    /// The file the invocation failed for.
    pub path: String,
    /// The diagnostic the invocation produced.
    pub message: String,
}

/// The dispatch state machine.
pub struct Dispatcher {
    /// Operating mode; fixed for the run.
    pub mode: Command,
    /// The selected files, fixed and in order.
    pub files: Vec<String>,
    /// Index of the next file to hand out.
    pub next: usize,
    /// Failures recorded so far, in recording order.
    pub failures: Vec<FileFailure>,
}

impl Dispatcher {
    /// The dispatcher's basic well-formedness.
    pub open spec fn wf(&self) -> bool {
        self.next <= self.files.len()
    }

    /// Whether no further file may be handed out: in format mode a recorded
    /// failure stops the bleeding.
    pub open spec fn stopped(&self) -> bool {
        self.mode is Format && self.failures.len() > 0
    }

    /// A fresh dispatcher over the given files.
    pub fn new(mode: Command, files: Vec<String>) -> (r: Dispatcher)
        ensures
            r.wf(),
            r.mode == mode,
            r.files == files,
            r.next == 0,
            r.failures@.len() == 0,
    {
        Dispatcher { mode, files, next: 0, failures: Vec::new() }
    }

    /// Hands out the next file to format, or nothing when the list is
    /// exhausted or a format-mode failure stopped dispatch.
    pub fn next_file(&mut self) -> (r: Option<String>)
        requires
            old(self).wf(),
        ensures
            final(self).wf(),
            final(self).mode == old(self).mode,
            final(self).files == old(self).files,
            final(self).failures == old(self).failures,
            old(self).stopped() || old(self).next == old(self).files.len() ==> r is None
                && final(self).next == old(self).next,
            !(old(self).stopped() || old(self).next == old(self).files.len()) ==> (
            r matches Some(p) && p@ == old(self).files@[old(self).next as int]@
                && final(self).next == old(self).next + 1),
    {
        let stopped = match self.mode {
            Command::Format => self.failures.len() > 0,
            Command::Check => false,
        };
        if stopped || self.next >= self.files.len() {
            return None;
        }
        let i = self.next;
        self.next = i + 1;
        Some(self.files[i].clone())
    }

    /// Records the outcome of one invocation; only failures leave a trace.
    pub fn record(&mut self, path: &str, outcome: Result<(), Error>, message: &str)
        ensures
            final(self).wf() == old(self).wf(),
            final(self).mode == old(self).mode,
            final(self).files == old(self).files,
            final(self).next == old(self).next,
            outcome is Ok ==> final(self).failures == old(self).failures,
            outcome is Err ==> {
                &&& final(self).failures@.len() == old(self).failures@.len() + 1
                &&& forall|i: int|
                    0 <= i < old(self).failures@.len() ==> final(self).failures@[i] == old(
                        self,
                    ).failures@[i]
                &&& final(self).failures@.last().path@ == path@
                &&& final(self).failures@.last().message@ == message@
            },
    {
        if outcome.is_err() {
            self.failures.push(
                FileFailure { path: path.to_owned(), message: message.to_owned() },
            );
        }
    }

    /// Closes the run: in check mode every failing file is named, in format
    /// mode the first failure alone is surfaced.
    pub fn finish(&self) -> (r: Result<(), Error>)
        ensures
            r is Ok <==> self.failures@.len() == 0,
            self.mode is Check && self.failures@.len() > 0 ==> (r matches Err(e)
                && e matches Error::CheckFailures { files } && files@.len()
                == self.failures@.len() && (forall|i: int|
                0 <= i < files@.len() ==> files@[i]@ == self.failures@[i].path@)),
            self.mode is Format && self.failures@.len() > 0 ==> (r matches Err(e)
                && e matches Error::PerFileInvocation { path, .. } && path@
                == self.failures@[0].path@),
    {
        if self.failures.len() == 0 {
            return Ok(());
        }
        match self.mode {
            Command::Format => {
                let first = &self.failures[0];
                Err(
                    Error::PerFileInvocation {
                        path: first.path.clone(),
                        message: first.message.clone(),
                    },
                )
            },
            Command::Check => {
                let mut files: Vec<String> = Vec::new();
                let mut i: usize = 0;
                while i < self.failures.len()
                    invariant
                        i <= self.failures@.len(),
                        files@.len() == i,
                        forall|j: int| 0 <= j < i ==> files@[j]@ == self.failures@[j].path@,
                    decreases self.failures@.len() - i,
                {
                    files.push(self.failures[i].path.clone());
                    i = i + 1;
                }
                Err(Error::CheckFailures { files })
            },
        }
    }
}

/// The strict-root check is only permitted when a style root was resolved:
/// without one the style file's location is unknown and no file path can
/// be judged against it.
pub fn strict_root_gate(strict_root: bool, have_style_root: bool) -> (r: Result<(), Error>)
    ensures
        r is Ok <==> (!strict_root || have_style_root),
        r matches Err(e) ==> e is StyleConsistency,
{
    if strict_root && !have_style_root {
        Err(
            Error::StyleConsistency {
                message: "Missing style root for strict root check".to_owned(),
            },
        )
    } else {
        Ok(())
    }
}

/// The files among `paths` that do not lie beneath `root`, in order.
pub open spec fn outside_root(paths: Seq<String>, root: Seq<char>) -> Seq<String> {
    paths.filter(|p: String| !under_of(p@, root))
}

/// Collects the files outside the style root, keeping their order.
pub fn strict_root_violations(paths: &Vec<String>, root: &str) -> (r: Vec<String>)
    ensures
        r@ == outside_root(paths@, root@),
{
    let mut r: Vec<String> = Vec::new();
    let mut i: usize = 0;
    proof {
        reveal(Seq::filter);
        assert(paths@.take(0).filter(|p: String| !under_of(p@, root@)) =~= Seq::<String>::empty());
    }
    while i < paths.len()
        invariant
            i <= paths@.len(),
            r@ == paths@.take(i as int).filter(|p: String| !under_of(p@, root@)),
        decreases paths@.len() - i,
    {
        let ghost pred = |p: String| !under_of(p@, root@);
        let ghost pre = paths@.take(i as int);
        if !is_under(paths[i].as_str(), root) {
            r.push(paths[i].clone());
        }
        proof {
            reveal(Seq::filter);
            let post = paths@.take(i as int + 1);
            assert(post.drop_last() =~= pre);
            assert(post.last() == paths@[i as int]);
            assert(post.filter(pred) == if pred(paths@[i as int]) {
                pre.filter(pred).push(paths@[i as int])
            } else {
                pre.filter(pred)
            });
        }
        i = i + 1;
    }
    proof {
        assert(paths@.take(paths@.len() as int) =~= paths@);
    }
    r
}

/// The strict-root check: every selected file must lie beneath the style
/// root; otherwise all offenders are named in one error.
pub fn strict_root_check(paths: &Vec<String>, root: &str) -> (r: Result<(), Error>)
    ensures
        r is Ok <==> (forall|i: int|
            0 <= i < paths@.len() ==> under_of(#[trigger] paths@[i]@, root@)),
        r matches Err(e) ==> (e matches Error::StrictRootViolation { outside, root: rt }
            && outside@ == outside_root(paths@, root@) && rt@ == root@),
{
    let mut all_under = true;
    let mut i: usize = 0;
    while i < paths.len()
        invariant
            i <= paths@.len(),
            all_under == (forall|j: int|
                0 <= j < i ==> under_of(#[trigger] paths@[j]@, root@)),
        decreases paths@.len() - i,
    {
        if !is_under(paths[i].as_str(), root) {
            all_under = false;
        }
        i = i + 1;
    }
    if all_under {
        Ok(())
    } else {
        let violations = strict_root_violations(paths, root);
        Err(Error::StrictRootViolation { outside: violations, root: root.to_owned() })
    }
}

} // verus!
