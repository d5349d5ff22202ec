use run_clang_format::config::{Command, Data, JsonModel};
use run_clang_format::error::Error;
use run_clang_format::resolve::{command, configured_bare_command, resolve_style_file, style_and_root};
use run_clang_format::utils::{
    dir_or_err, file_or_err, file_with_ext, file_with_name, file_with_name_or_ext, path_or_err,
};

fn data(
    style_file: Option<&str>,
    style_root: Option<&str>,
    cmd: Option<&str>,
    style_cli: Option<&str>,
    cmd_cli: Option<&str>,
) -> Data {
    Data {
        json: JsonModel {
            paths: vec![],
            filter_pre: None,
            filter_post: None,
            style_file: style_file.map(|s| s.to_string()),
            style_root: style_root.map(|s| s.to_string()),
            command: cmd.map(|s| s.to_string()),
            root: ".".to_string(),
            name: "cfg.json".to_string(),
        },
        style: style_cli.map(|s| s.to_string()),
        command: cmd_cli.map(|s| s.to_string()),
        jobs: None,
        cmd: Command::Format,
        strict_root: false,
    }
}

#[test]
fn style_override_takes_precedence() {
    // configuration says S1, the command line says S2: S2 wins
    let d = data(Some("s1.clang-format"), None, None, Some("s2/.clang-format"), None);
    let r = resolve_style_file(&d).expect("override accepted as given");
    assert_eq!(r, Some("s2/.clang-format".to_string()));
}

#[test]
fn style_unspecified_resolves_to_none() {
    let d = data(None, None, None, None, None);
    assert_eq!(resolve_style_file(&d).expect("nothing to validate"), None);
    assert_eq!(style_and_root(&d).expect("nothing specified"), None);
}

#[test]
fn configured_style_must_carry_conventional_name() {
    // src/lib.rs exists but is no .clang-format reference
    let d = data(Some("src/lib.rs"), None, None, None, None);
    assert!(matches!(resolve_style_file(&d), Err(Error::PathValidation { .. })));
}

#[test]
fn style_root_without_style_file_is_inconsistent() {
    // `src` is a real directory, so the failure is the missing style file
    let d = data(None, Some("src"), None, None, None);
    assert!(matches!(style_and_root(&d), Err(Error::StyleConsistency { .. })));
}

#[test]
fn style_file_without_style_root_is_inconsistent() {
    let d = data(None, None, None, Some("s2/.clang-format"), None);
    assert!(matches!(style_and_root(&d), Err(Error::StyleConsistency { .. })));
}

#[test]
fn style_root_must_be_a_directory() {
    let d = data(None, Some("src/lib.rs"), None, Some("s2/.clang-format"), None);
    assert!(matches!(style_and_root(&d), Err(Error::PathValidation { .. })));
}

#[test]
fn style_pair_resolves_when_both_given() {
    let d = data(None, Some("src"), None, Some("s2/.clang-format"), None);
    let r = style_and_root(&d).expect("both sides given");
    assert_eq!(r, Some(("s2/.clang-format".to_string(), "./src".to_string())));
}

#[test]
fn command_defaults_to_conventional_name() {
    let d = data(None, None, None, None, None);
    assert_eq!(command(&d).expect("default"), "clang-format".to_string());
}

#[test]
fn command_override_takes_precedence() {
    let d = data(None, None, Some("tools/fmt"), None, Some("my-fmt"));
    assert_eq!(command(&d).expect("override accepted as given"), "my-fmt".to_string());
}

#[test]
fn command_bare_name_passes_through() {
    // a bare name is returned as the choice; the caller owes the eager
    // search-path resolution that configured_bare_command announces
    let d = data(None, None, Some("clang-format-15"), None, None);
    assert_eq!(command(&d).expect("bare name"), "clang-format-15".to_string());
    assert_eq!(configured_bare_command(&d), Some("clang-format-15".to_string()));
}

#[test]
fn search_check_owed_only_for_configured_bare_names() {
    // an override, a configured path, or no command at all owes no eager
    // search-path check
    assert_eq!(configured_bare_command(&data(None, None, None, None, None)), None);
    assert_eq!(
        configured_bare_command(&data(None, None, Some("tools/fmt"), None, None)),
        None
    );
    assert_eq!(
        configured_bare_command(&data(None, None, Some("fmt"), None, Some("other"))),
        None
    );
}

#[test]
fn command_path_must_exist() {
    let d = data(None, None, Some("tools/does-not-exist"), None, None);
    assert!(matches!(command(&d), Err(Error::CommandResolution { .. })));
}

#[test]
fn command_path_resolves_against_document_root() {
    // src/lib.rs is a file under the document's directory; as a path value
    // it resolves and exists (the probe would reject it later)
    let d = data(None, None, Some("src/lib.rs"), None, None);
    assert_eq!(command(&d).expect("existing file"), "./src/lib.rs".to_string());
}

#[test]
fn test_path() {
    let path = "some/path/to/.clang-format";
    let file_name = run_clang_format::paths::file_name_str(path);

    assert_eq!(".clang-format", file_name.to_lowercase());
}

#[test]
fn path_validators_observe_the_tree() {
    assert!(path_or_err("src/lib.rs").is_ok());
    assert!(matches!(
        path_or_err("no-such-path-anywhere"),
        Err(Error::PathValidation { .. })
    ));
    assert!(file_or_err("src/lib.rs").is_ok());
    assert!(file_or_err("src").is_err());
    assert!(dir_or_err("src").is_ok());
    assert!(dir_or_err("src/lib.rs").is_err());
}

#[test]
fn file_name_and_extension_checks() {
    assert!(file_with_name("src/lib.rs", "LIB.rs").is_ok());
    assert!(file_with_name("src/lib.rs", "other.rs").is_err());
    assert!(file_with_ext("src/lib.rs", "rs", true).is_ok());
    assert!(file_with_ext("src/lib.rs", ".rs", true).is_err());
    assert!(file_with_ext("src/lib.rs", ".RS", false).is_ok());
    assert!(file_with_name_or_ext("src/lib.rs", "lib.rs").is_ok());
    assert!(file_with_name_or_ext("src/lib.rs", ".rs").is_ok());
    assert!(file_with_name_or_ext("src/lib.rs", ".json").is_err());
}

#[test]
fn test_command_path() {
    let tests: Vec<(std::path::PathBuf, bool, bool, bool)> = vec![
        ("some/path/to/clang-format".into(), false, true, false),
        ("/some/path/to/clang-format".into(), true, false, false),
        ("clang-format".into(), false, true, true),
        ("clang-format.exe".into(), false, true, true),
        ("some/path/..".into(), false, true, false),
    ];

    for (path, is_absolute, is_relative, is_file) in tests.iter() {
        println!("checking {:?}", path);
        println!("  components{}", path.components().count());
        assert_eq!(*is_absolute, path.is_absolute());
        assert_eq!(*is_relative, path.is_relative());

        // one way to check that the path passed for "command" is a pure file or
        // executable name is to count the components
        assert_eq!(*is_file, path.components().count() == 1);

        // another way is to take the filename and compare it to the original path. if the
        // (complete) original path is the same, it is just a filename.
        let from_name = path
            .file_name()
            .and_then(|file_name| (path.as_os_str() == file_name).then_some(file_name))
            .is_some();

        assert_eq!(*is_file, from_name);
    }
}
