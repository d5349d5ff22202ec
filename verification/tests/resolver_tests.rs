use run_clang_format::globs::{
    build_glob_set_from, build_matchers_from, extract_patterns, match_paths, resolve_paths,
    select_paths, PathEntry, PatternWalk,
};
use run_clang_format::config::JsonModel;
use run_clang_format::error::Error;

fn entry(path: &str, is_file: bool) -> PathEntry {
    PathEntry { path: path.to_string(), is_file }
}

fn walk(root: &str, rest: &str, entries: Vec<PathEntry>) -> PatternWalk {
    PatternWalk { root: root.to_string(), rest: rest.to_string(), entries }
}

#[test]
fn test_foreach() {
    let items = vec![0u8, 1u8, 2u8];
    let filter: Vec<u8> = vec![];

    // show that an empty filter list yields all elements
    let filter_zero: Vec<_> = items
        .iter()
        .filter(|item| {
            let do_filter = filter
                .iter()
                .try_for_each(|filter_item| {
                    if *filter_item == **item {
                        None // abort on first match
                    } else {
                        Some(()) // no match, continue
                    }
                })
                .is_none(); // the value remains "Some" if no match was encountered
            !do_filter
        })
        .cloned()
        .collect();

    assert_eq!(filter_zero, items);
}

#[test]
fn select_keeps_only_files() {
    // a directory entry is never part of the result, even when it matches
    let walks = vec![walk(
        "r",
        "**/*.cpp",
        vec![entry("a", false), entry("a/x.cpp", true), entry("a/sub.cpp", false)],
    )];
    let (matched, filtered) = select_paths(&walks, &None, &None, true);
    assert_eq!(matched, vec!["r/a/x.cpp".to_string()]);
    assert!(filtered.is_empty());
}

#[test]
fn select_prunes_hidden_subtrees_by_default() {
    // without a pre-filter, nothing beneath a hidden directory survives
    let walks = vec![walk(
        "r",
        "**/*.cpp",
        vec![
            entry(".hidden", false),
            entry(".hidden/h.cpp", true),
            entry("a/x.cpp", true),
            entry("a/.y.cpp", true),
        ],
    )];
    let (matched, _) = select_paths(&walks, &None, &None, true);
    assert_eq!(matched, vec!["r/a/x.cpp".to_string()]);
}

#[test]
fn select_empty_prefilter_disables_hidden_pruning() {
    // an explicitly empty pre-filter list keeps hidden entries
    let walks = vec![walk(
        "r",
        "**/*.cpp",
        vec![entry(".hidden", false), entry(".hidden/h.cpp", true), entry("a/x.cpp", true)],
    )];
    let (matched, _) = select_paths(&walks, &Some(vec![]), &None, true);
    assert_eq!(matched, vec!["r/.hidden/h.cpp".to_string(), "r/a/x.cpp".to_string()]);
}

#[test]
fn select_prefilter_prunes_subtree() {
    // a pre-filter match on a directory prunes everything beneath it
    let walks = vec![walk(
        "r",
        "**/*.cpp",
        vec![entry("skip", false), entry("skip/in.cpp", true), entry("a/x.cpp", true)],
    )];
    let pre = Some(vec!["skip".to_string()]);
    let (matched, _) = select_paths(&walks, &pre, &None, true);
    assert_eq!(matched, vec!["r/a/x.cpp".to_string()]);
}

#[test]
fn select_postfilter_never_removes_siblings() {
    // the post-filter excludes exactly the matching leaf; the sibling stays
    let walks = vec![walk(
        "a",
        "**/*.cpp",
        vec![entry("sub/x.cpp", true), entry("sub/y.cpp", true)],
    )];
    let post = Some(vec!["x.cpp".to_string()]);
    let (matched, filtered) = select_paths(&walks, &None, &post, true);
    assert_eq!(matched, vec!["a/sub/y.cpp".to_string()]);
    assert_eq!(filtered, vec!["a/sub/x.cpp".to_string()]);
}

#[test]
fn select_is_stable_across_entry_order() {
    // the same observations in another order give identical output
    let e = || vec![entry("b/z.cpp", true), entry("a/x.cpp", true), entry("a", false)];
    let mut rev = e();
    rev.reverse();
    let walks_one = vec![walk("r", "**/*.cpp", e())];
    let walks_two = vec![walk("r", "**/*.cpp", rev)];
    let out_one = select_paths(&walks_one, &None, &None, true);
    let out_two = select_paths(&walks_two, &None, &None, true);
    assert_eq!(out_one, out_two);
    assert_eq!(out_one.0, vec!["r/a/x.cpp".to_string(), "r/b/z.cpp".to_string()]);
}

#[test]
fn select_deduplicates_across_patterns() {
    // a file reached by two patterns appears once
    let walks = vec![
        walk("r", "**/*.cpp", vec![entry("a/x.cpp", true)]),
        walk("r", "a/*.cpp", vec![entry("a/x.cpp", true)]),
    ];
    let (matched, _) = select_paths(&walks, &None, &None, true);
    assert_eq!(matched, vec!["r/a/x.cpp".to_string()]);
}

#[test]
fn match_paths_walks_real_tree() {
    // resolve against this crate's own sources: the walk, the glob match
    // and the ordering all run for real
    let matchers =
        build_matchers_from(&vec!["src/*.rs".to_string()], ".", true, "paths", "cfg.json")
            .expect("patterns must compile");
    let (matched, filtered) = match_paths(&matchers, &None, &None, true);
    assert!(matched.contains(&"./src/lib.rs".to_string()));
    assert!(matched.contains(&"./src/globs.rs".to_string()));
    assert!(filtered.is_empty());
    let mut sorted = matched.clone();
    sorted.sort();
    sorted.dedup();
    assert_eq!(matched, sorted);
}

#[test]
fn match_paths_applies_post_filter() {
    let matchers =
        build_matchers_from(&vec!["src/*.rs".to_string()], ".", true, "paths", "cfg.json")
            .expect("patterns must compile");
    let post = Some(vec!["lib.rs".to_string()]);
    let (matched, filtered) = match_paths(&matchers, &None, &post, true);
    assert!(!matched.contains(&"./src/lib.rs".to_string()));
    assert!(matched.contains(&"./src/globs.rs".to_string()));
    assert_eq!(filtered, vec!["./src/lib.rs".to_string()]);
}

#[test]
fn invalid_glob_is_a_pattern_compile_error() {
    let r = build_glob_set_from(&Some(vec!["[".to_string()]), true, "filterPre", "cfg.json");
    match r {
        Err(Error::PatternCompile { field, file, messages }) => {
            assert_eq!(field, "filterPre");
            assert_eq!(file, "cfg.json");
            assert_eq!(messages.len(), 1);
        },
        _ => panic!("expected a pattern compile error"),
    }
}

#[test]
fn all_invalid_globs_are_reported_together() {
    let r = build_glob_set_from(
        &Some(vec!["[".to_string(), "ok*.cpp".to_string(), "{".to_string()]),
        true,
        "filterPost",
        "cfg.json",
    );
    match r {
        Err(Error::PatternCompile { messages, .. }) => assert_eq!(messages.len(), 2),
        _ => panic!("expected a pattern compile error"),
    }
}

#[test]
fn resolve_paths_end_to_end() {
    let json = JsonModel {
        paths: vec!["src/*.rs".to_string()],
        filter_pre: None,
        filter_post: Some(vec!["lib.rs".to_string()]),
        style_file: None,
        style_root: None,
        command: None,
        root: ".".to_string(),
        name: "cfg.json".to_string(),
    };
    let (matched, filtered) = resolve_paths(&json, true).expect("valid configuration");
    assert!(matched.contains(&"./src/paths.rs".to_string()));
    assert!(!matched.contains(&"./src/lib.rs".to_string()));
    assert_eq!(filtered, vec!["./src/lib.rs".to_string()]);
}

#[test]
fn resolve_paths_reports_bad_path_pattern() {
    let json = JsonModel {
        paths: vec!["[".to_string()],
        filter_pre: None,
        filter_post: None,
        style_file: None,
        style_root: None,
        command: None,
        root: ".".to_string(),
        name: "cfg.json".to_string(),
    };
    let r = resolve_paths(&json, true);
    assert!(matches!(r, Err(Error::PatternCompile { .. })));
}

#[test]
fn extract_patterns_keeps_successes_in_order() {
    let candidates: Vec<Result<(String, String), String>> = vec![
        Ok(("r1".to_string(), "a/*.cpp".to_string())),
        Ok(("r2".to_string(), "b/*.cpp".to_string())),
    ];
    let v = extract_patterns(candidates, "paths", "cfg.json").expect("all succeeded");
    assert_eq!(
        v,
        vec![
            ("r1".to_string(), "a/*.cpp".to_string()),
            ("r2".to_string(), "b/*.cpp".to_string()),
        ]
    );
    let empty = extract_patterns(Vec::new(), "paths", "cfg.json").expect("nothing can fail");
    assert!(empty.is_empty());
}

#[test]
fn extract_patterns_collects_every_failure_in_order() {
    let candidates: Vec<Result<(String, String), String>> = vec![
        Err("first bad".to_string()),
        Ok(("r".to_string(), "ok".to_string())),
        Err("second bad".to_string()),
    ];
    match extract_patterns(candidates, "paths", "cfg.json") {
        Err(Error::PatternCompile { field, file, messages }) => {
            assert_eq!(field, "paths");
            assert_eq!(file, "cfg.json");
            assert_eq!(messages, vec!["first bad".to_string(), "second bad".to_string()]);
        },
        _ => panic!("expected a pattern compile error"),
    }
}

#[test]
fn degenerate_patterns_are_compile_errors() {
    // patterns that are not in component-normal text form are rejected up
    // front rather than handed to root resolution: dots and separators
    // only, empty components, interior dot components, trailing separators
    let multibyte_cases = ["\u{e9}//b", "\u{e9}b/", "a\u{e9}/./b"];
    for degenerate in [".", "./", "./.", "", "a//b", "a/./b", "a/", "a/.", "xy//b", "././a"] {
        let r = build_matchers_from(
            &vec![degenerate.to_string()],
            ".",
            true,
            "paths",
            "cfg.json",
        );
        assert!(matches!(r, Err(Error::PatternCompile { .. })), "{:?}", degenerate);
    }
    // multi-byte characters next to a denormal component would land the
    // resolver's byte arithmetic off a character boundary; they are
    // rejected by the same normal-form screen
    for degenerate in multibyte_cases {
        let r = build_matchers_from(
            &vec![degenerate.to_string()],
            ".",
            true,
            "paths",
            "cfg.json",
        );
        assert!(matches!(r, Err(Error::PatternCompile { .. })), "{:?}", degenerate);
    }
}

#[test]
fn normal_form_patterns_are_accepted() {
    // hidden-name components, parent components and a leading dot segment
    // are all in normal form
    for fine in [".hidden/*.txt", "src/../src/*.rs", "./src/*.rs", "**/*.rs", "b.c"] {
        let r = build_matchers_from(&vec![fine.to_string()], ".", true, "paths", "cfg.json");
        assert!(r.is_ok(), "{:?}", fine);
    }
}

#[test]
fn match_paths_with_no_matchers_selects_nothing() {
    let (matched, filtered) = match_paths(&Vec::new(), &None, &None, true);
    assert!(matched.is_empty());
    assert!(filtered.is_empty());
}

#[test]
fn resolve_paths_reports_bad_filter() {
    let json = JsonModel {
        paths: vec!["src/*.rs".to_string()],
        filter_pre: Some(vec!["[".to_string()]),
        filter_post: None,
        style_file: None,
        style_root: None,
        command: None,
        root: ".".to_string(),
        name: "cfg.json".to_string(),
    };
    assert!(matches!(resolve_paths(&json, true), Err(Error::PatternCompile { .. })));
}

#[test]
fn resolve_paths_owes_success_to_an_empty_selection() {
    let json = JsonModel {
        paths: vec![],
        filter_pre: None,
        filter_post: Some(vec!["*.tmp".to_string()]),
        style_file: None,
        style_root: None,
        command: None,
        root: ".".to_string(),
        name: "cfg.json".to_string(),
    };
    let (matched, filtered) = resolve_paths(&json, true).expect("nothing can fail");
    assert!(matched.is_empty());
    assert!(filtered.is_empty());
}

#[test]
fn empty_pattern_list_resolves_to_no_matchers() {
    let r = build_matchers_from(&Vec::new(), ".", true, "paths", "cfg.json")
        .expect("nothing to compile");
    assert!(r.is_empty());
}
