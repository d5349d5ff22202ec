use run_clang_format::error::Error;
use run_clang_format::place::{
    bytes_eq, cleanup_on, decide_placement, place_on, style_destination, DestState, PlaceAction,
};

fn dest(exists: bool, content: &[u8]) -> DestState {
    DestState { exists, content: content.to_vec() }
}

#[test]
fn destination_is_the_conventional_name_under_the_root() {
    assert_eq!(style_destination("proj"), "proj/.clang-format".to_string());
    assert_eq!(style_destination("proj/"), "proj/.clang-format".to_string());
}

#[test]
fn placement_copies_to_a_free_destination() {
    let src = b"BasedOnStyle: LLVM\n".to_vec();
    let (state, created) = place_on(dest(false, b""), &src).expect("free destination");
    assert!(created);
    assert!(state.exists);
    assert_eq!(state.content, src);
}

#[test]
fn placement_is_idempotent_on_identical_content() {
    // placing twice onto a byte-identical file is a no-op both times
    let src = b"BasedOnStyle: LLVM\n".to_vec();
    let first = decide_placement(&dest(true, &src), &src).expect("identical");
    assert!(matches!(first, PlaceAction::AlreadyMatches));
    let (state, created) = place_on(dest(true, &src), &src).expect("identical");
    assert!(!created);
    let second = decide_placement(&state, &src).expect("still identical");
    assert!(matches!(second, PlaceAction::AlreadyMatches));
}

#[test]
fn placement_refuses_a_differing_file() {
    let src = b"BasedOnStyle: LLVM\n".to_vec();
    let r = decide_placement(&dest(true, b"BasedOnStyle: Google\n"), &src);
    assert!(matches!(r, Err(Error::StyleFileConflict { .. })));
}

#[test]
fn cleanup_removes_only_what_was_created() {
    // a placed file followed by cleanup leaves no destination file
    let src = b"x".to_vec();
    let (state, created) = place_on(dest(false, b""), &src).expect("free destination");
    let after = cleanup_on(state, created);
    assert!(!after.exists);
    // a pre-existing identical file is left alone
    let (state, created) = place_on(dest(true, b"x"), &src).expect("identical");
    let after = cleanup_on(state, created);
    assert!(after.exists);
    assert_eq!(after.content, b"x".to_vec());
}

#[test]
fn byte_comparison_is_exact() {
    assert!(bytes_eq(&b"abc".to_vec(), &b"abc".to_vec()));
    assert!(!bytes_eq(&b"abc".to_vec(), &b"abd".to_vec()));
    assert!(!bytes_eq(&b"abc".to_vec(), &b"ab".to_vec()));
    assert!(bytes_eq(&Vec::new(), &Vec::new()));
}
