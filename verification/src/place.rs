//! Placing the resolved style file into the style root.
//!
//! The tool copies the style file to `<root>/.clang-format` before
//! dispatch, and the copy is a scoped side effect: whatever the run did,
//! the tree is left as found. A pre-existing destination is never
//! overwritten: identical content is a no-op, differing content a fatal
//! conflict. The decision logic works on observed plain values (existence
//! and byte content); reading, copying and removing the file is the
//! driver's job.

use vstd::prelude::*;

use crate::error::Error;
use crate::paths::{join_of, join_path};

verus! {

/// Destination path of the placed style file.
pub fn style_destination(root: &str) -> (r: String)
    ensures
        r@ == join_of(root@, ".clang-format"@),
{
    join_path(root, ".clang-format")
}

/// What the placer decided to do.
pub enum PlaceAction {
    /// The destination already holds the same bytes: nothing to do and
    /// nothing to clean up.
    AlreadyMatches,
    /// The destination is free: copy the style file there and remove it
    /// when the run ends.
    Copy,
}

/// The observed state of the destination: whether a file is there and, if
/// so, its bytes.
pub struct DestState {
    /// Whether a file exists at the destination.
    pub exists: bool,
    /// Its byte content when it exists; meaningless otherwise.
    pub content: Vec<u8>,
}

/// The placement transition on the abstract destination state: the new
/// state and whether this run created the file, or nothing on conflict.
pub open spec fn place_spec(exists: bool, content: Seq<u8>, src: Seq<u8>) -> Option<
    (bool, Seq<u8>, bool),
> {
    if !exists {
        Some((true, src, true))
    } else if content == src {
        Some((exists, content, false))
    } else {
        None
    }
}

/// The cleanup transition: a file this run created is removed, anything
/// else is left untouched.
pub open spec fn cleanup_spec(exists: bool, content: Seq<u8>, created: bool) -> (bool, Seq<u8>) {
    if created {
        (false, Seq::empty())
    } else {
        (exists, content)
    }
}

/// Compares two byte strings.
pub fn bytes_eq(a: &Vec<u8>, b: &Vec<u8>) -> (r: bool)
    ensures
        r == (a@ == b@),
{
    if a.len() != b.len() {
        assert(a@ != b@);
        return false;
    }
    let mut i: usize = 0;
    while i < a.len()
        invariant
            i <= a@.len(),
            a@.len() == b@.len(),
            forall|j: int| 0 <= j < i ==> a@[j] == b@[j],
        decreases a@.len() - i,
    {
        if a[i] != b[i] {
            assert(a@[i as int] != b@[i as int]);
            return false;
        }
        i = i + 1;
    }
    assert(a@ =~= b@);
    true
}

/// Decides what to do with the destination, per [`place_spec`]: copy to a
/// free destination, accept an identical file, refuse a differing one.
pub fn decide_placement(dst: &DestState, src_content: &Vec<u8>) -> (r: Result<PlaceAction, Error>)
    ensures
        r matches Ok(a) ==> {
            &&& place_spec(dst.exists, dst.content@, src_content@) is Some
            &&& a is Copy <==> !dst.exists
            &&& a is AlreadyMatches <==> dst.exists && dst.content@ == src_content@
        },
        r is Err <==> place_spec(dst.exists, dst.content@, src_content@) is None,
        r matches Err(e) ==> e is StyleFileConflict,
{
    if !dst.exists {
        return Ok(PlaceAction::Copy);
    }
    if bytes_eq(&dst.content, src_content) {
        return Ok(PlaceAction::AlreadyMatches);
    }
    Err(
        Error::StyleFileConflict {
            destination: String::new(),
            source: String::new(),
        },
    )
}

/// Applies the placement decision to the abstract state, mirroring
/// [`place_spec`]: the driver performs the same copy on disk.
pub fn place_on(dst: DestState, src_content: &Vec<u8>) -> (r: Result<(DestState, bool), Error>)
    ensures
        r matches Ok(t) ==> place_spec(dst.exists, dst.content@, src_content@) == Some(
            (t.0.exists, t.0.content@, t.1),
        ),
        r is Err <==> place_spec(dst.exists, dst.content@, src_content@) is None,
        r matches Err(e) ==> e is StyleFileConflict,
{
    let action = decide_placement(&dst, src_content)?;
    match action {
        PlaceAction::Copy => {
            let mut content: Vec<u8> = Vec::new();
            let mut i: usize = 0;
            while i < src_content.len()
                invariant
                    i <= src_content@.len(),
                    content@ == src_content@.take(i as int),
                decreases src_content@.len() - i,
            {
                content.push(src_content[i]);
                proof {
                    assert(content@ =~= src_content@.take(i as int + 1));
                }
                i = i + 1;
            }
            proof {
                assert(src_content@.take(src_content@.len() as int) =~= src_content@);
            }
            Ok((DestState { exists: true, content }, true))
        },
        PlaceAction::AlreadyMatches => Ok((dst, false)),
    }
}

/// Applies the cleanup to the abstract state, mirroring [`cleanup_spec`]:
/// the driver removes the file it created, and only that.
pub fn cleanup_on(dst: DestState, created: bool) -> (r: DestState)
    ensures
        (r.exists, r.content@) == cleanup_spec(dst.exists, dst.content@, created),
{
    if created {
        let content: Vec<u8> = Vec::new();
        proof {
            assert(content@ =~= Seq::<u8>::empty());
        }
        DestState { exists: false, content }
    } else {
        dst
    }
}

/// Placement is idempotent: placing onto a destination this run already
/// filled (or onto any byte-identical pre-existing file) succeeds, changes
/// nothing, and creates nothing to clean up - however often it is repeated.
pub proof fn lemma_place_idempotent(src: Seq<u8>)
    ensures
        place_spec(false, Seq::empty(), src) == Some((true, src, true)),
        place_spec(true, src, src) == Some((true, src, false)),
{
}

/// A placed file followed by cleanup leaves no destination file: the tree
/// is exactly as found.
pub proof fn lemma_place_cleanup_restores(content: Seq<u8>, src: Seq<u8>)
    ensures
        place_spec(false, content, src) matches Some(t) && cleanup_spec(t.0, t.1, t.2).0 == false,
        place_spec(true, src, src) matches Some(t) && cleanup_spec(t.0, t.1, t.2) == (
            true,
            src,
        ),
{
}

} // verus!
