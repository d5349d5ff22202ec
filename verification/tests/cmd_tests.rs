use run_clang_format::cmd::{
    formatter_args, i32_to_string, u32_to_string, u8_to_string, version_to_string, Runner,
    CHECK_MIN_MAJOR,
};
use run_clang_format::config::{normalized_jobs, Command};
use run_clang_format::error::Error;
use run_clang_format::version::{parse_version, Version};

#[test]
fn parses_plain_probe_output() {
    // example output of clang-format:
    // clang-format version 4.0.0 (tags/checker/checker-279)
    let v = parse_version("clang-format version 4.0.0 (tags/checker/checker-279)")
        .expect("well-formed triple");
    assert_eq!(v, Version { major: 4, minor: 0, patch: 0 });
}

#[test]
fn parses_decorated_probe_output() {
    let v = parse_version("Ubuntu clang-format version 14.0.6-++20220622053131+f28c006a5895")
        .expect("well-formed triple");
    assert_eq!(v, Version { major: 14, minor: 0, patch: 6 });
}

#[test]
fn rejects_output_without_marker() {
    assert_eq!(parse_version("10.0.1"), None);
}

#[test]
fn rejects_incomplete_triple() {
    assert_eq!(parse_version("version 10.0"), None);
    assert_eq!(parse_version("version ..1"), None);
    assert_eq!(parse_version("version "), None);
}

#[test]
fn rejects_oversized_component() {
    assert_eq!(parse_version("version 1000.0.0"), None);
}

#[test]
fn takes_first_announced_triple() {
    let v = parse_version("version 3.1.4 and later version 5.9.2").expect("first one");
    assert_eq!(v, Version { major: 3, minor: 1, patch: 4 });
}

#[test]
fn runner_digests_probe_output() {
    let mut r = Runner::new("clang-format");
    assert_eq!(r.get_version(), None);
    assert_eq!(r.get_path(), "clang-format".to_string());
    r.validate_output("clang-format version 12.0.1 (extra)").expect("parsable");
    assert_eq!(r.get_version(), Some("12.0.1".to_string()));
    let again = r.clone();
    assert_eq!(again.get_version(), Some("12.0.1".to_string()));
}

#[test]
fn runner_rejects_unparsable_probe_output() {
    let mut r = Runner::new("clang-format");
    let e = r.validate_output("not a formatter").unwrap_err();
    assert!(matches!(e, Error::VersionParse { .. }));
    assert_eq!(r.get_version(), None);
}

#[test]
fn check_gate_refuses_old_formatter() {
    // a formatter reporting 8.0.0 is below the documented minimum major
    // version and must be refused before any file is touched
    assert_eq!(CHECK_MIN_MAJOR, 9);
    let mut r = Runner::new("clang-format");
    r.validate_output("clang-format version 8.0.0").expect("parsable");
    assert!(matches!(r.supports_check_or_err(), Err(Error::VersionUnsupported { .. })));
}

#[test]
fn check_gate_accepts_recent_formatter() {
    let mut r = Runner::new("clang-format");
    r.validate_output("clang-format version 9.0.0").expect("parsable");
    assert!(r.supports_check_or_err().is_ok());
}

#[test]
fn check_gate_needs_a_probed_version() {
    let r = Runner::new("clang-format");
    assert!(matches!(r.supports_check_or_err(), Err(Error::VersionUnsupported { .. })));
}

#[test]
fn exit_status_evaluation() {
    assert!(Runner::eval_status(Some(0)).is_ok());
    match Runner::eval_status(Some(1)) {
        Err(Error::PerFileInvocation { path, message }) => {
            assert_eq!(path, "");
            assert_eq!(message, "Process terminated with code 1");
        },
        _ => panic!("expected a per-file invocation error"),
    }
    match Runner::eval_status(None) {
        Err(Error::PerFileInvocation { message, .. }) => {
            assert_eq!(message, "Process terminated by signal");
        },
        _ => panic!("expected a per-file invocation error"),
    }
}

#[test]
fn decimal_rendering() {
    assert_eq!(u8_to_string(0), "0".to_string());
    assert_eq!(u8_to_string(7), "7".to_string());
    assert_eq!(u8_to_string(42), "42".to_string());
    assert_eq!(u8_to_string(255), "255".to_string());
    assert_eq!(u32_to_string(100000), "100000".to_string());
    assert_eq!(i32_to_string(-17), "-17".to_string());
    assert_eq!(i32_to_string(17), "17".to_string());
    assert_eq!(i32_to_string(i32::MIN), "-2147483648".to_string());
    assert_eq!(
        version_to_string(&Version { major: 10, minor: 0, patch: 1 }),
        "10.0.1".to_string()
    );
}

#[test]
fn worker_count_normalization() {
    // zero and absent both mean all available parallelism
    assert_eq!(normalized_jobs(None), None);
    assert_eq!(normalized_jobs(Some(0)), None);
    assert_eq!(normalized_jobs(Some(6)), Some(6));
}

#[test]
fn formatter_argument_sets() {
    let fmt = formatter_args(&Command::Format);
    assert_eq!(
        fmt,
        vec![
            "-fallback-style=none".to_string(),
            "-style=file".to_string(),
            "--Werror".to_string(),
            "-i".to_string(),
        ]
    );
    let chk = formatter_args(&Command::Check);
    assert_eq!(chk[3], "--dry-run".to_string());
}
