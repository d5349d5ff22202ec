use run_clang_format::config::Command;
use run_clang_format::dispatch::{strict_root_check, strict_root_gate, strict_root_violations, Dispatcher};
use run_clang_format::error::Error;

fn files(names: &[&str]) -> Vec<String> {
    names.iter().map(|s| s.to_string()).collect()
}

fn fail() -> Result<(), Error> {
    Err(Error::PerFileInvocation { path: String::new(), message: String::new() })
}

#[test]
fn format_mode_stops_after_first_failure() {
    // three files, the second fails: the third is never handed out, and the
    // reported error names the second
    let mut d = Dispatcher::new(Command::Format, files(&["one.cpp", "two.cpp", "three.cpp"]));
    let f1 = d.next_file().expect("first file");
    d.record(&f1, Ok(()), "");
    let f2 = d.next_file().expect("second file");
    assert_eq!(f2, "two.cpp");
    d.record(&f2, fail(), "formatter exited with an error");
    assert_eq!(d.next_file(), None);
    match d.finish() {
        Err(Error::PerFileInvocation { path, message }) => {
            assert_eq!(path, "two.cpp");
            assert_eq!(message, "formatter exited with an error");
        },
        _ => panic!("expected the second file's failure"),
    }
}

#[test]
fn format_mode_discards_late_results_after_failure() {
    // a result recorded after the failure does not change what is reported
    let mut d = Dispatcher::new(Command::Format, files(&["one.cpp", "two.cpp"]));
    let f1 = d.next_file().expect("first file");
    let f2 = d.next_file().expect("second file");
    d.record(&f2, fail(), "bad");
    d.record(&f1, Ok(()), "");
    assert_eq!(d.next_file(), None);
    assert!(matches!(d.finish(), Err(Error::PerFileInvocation { .. })));
}

#[test]
fn check_mode_collects_every_failure() {
    // three files, the first and third fail: both are named, the second is
    // not reported as a failure
    let mut d = Dispatcher::new(Command::Check, files(&["one.cpp", "two.cpp", "three.cpp"]));
    let f1 = d.next_file().expect("first file");
    d.record(&f1, fail(), "mismatch");
    let f2 = d.next_file().expect("second file runs despite the failure");
    d.record(&f2, Ok(()), "");
    let f3 = d.next_file().expect("third file");
    d.record(&f3, fail(), "mismatch");
    assert_eq!(d.next_file(), None);
    match d.finish() {
        Err(Error::CheckFailures { files }) => {
            assert_eq!(files, vec!["one.cpp".to_string(), "three.cpp".to_string()]);
        },
        _ => panic!("expected the aggregate check failure"),
    }
}

#[test]
fn all_successes_finish_clean() {
    let mut d = Dispatcher::new(Command::Check, files(&["one.cpp"]));
    let f1 = d.next_file().expect("first file");
    d.record(&f1, Ok(()), "");
    assert_eq!(d.next_file(), None);
    assert!(d.finish().is_ok());
}

#[test]
fn strict_root_accepts_descendants() {
    let paths = files(&["/r/a.cpp", "/r/sub/b.cpp"]);
    assert!(strict_root_check(&paths, "/r").is_ok());
}

#[test]
fn strict_root_names_every_offender() {
    let paths = files(&["/r/a.cpp", "/elsewhere/b.cpp", "/rr/c.cpp"]);
    match strict_root_check(&paths, "/r") {
        Err(Error::StrictRootViolation { outside, root }) => {
            assert_eq!(outside, files(&["/elsewhere/b.cpp", "/rr/c.cpp"]));
            assert_eq!(root, "/r");
        },
        _ => panic!("expected the strict-root violation"),
    }
}

#[test]
fn strict_root_distinguishes_prefix_from_directory() {
    // "/rr" starts with the characters of "/r" but is not beneath it
    assert_eq!(strict_root_violations(&files(&["/rr/c.cpp"]), "/r"), files(&["/rr/c.cpp"]));
    assert_eq!(strict_root_violations(&files(&["/r/c.cpp"]), "/r"), Vec::<String>::new());
}

#[test]
fn strict_root_needs_a_style_root() {
    assert!(strict_root_gate(false, false).is_ok());
    assert!(strict_root_gate(false, true).is_ok());
    assert!(strict_root_gate(true, true).is_ok());
    assert!(matches!(strict_root_gate(true, false), Err(Error::StyleConsistency { .. })));
}
