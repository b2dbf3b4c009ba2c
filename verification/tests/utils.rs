use tixgraft::operations::copy::plan_copies;
use tixgraft::operations::discovery::check_graft_target;
use tixgraft::utils::path::first_free_name;
use tixgraft::operations::discovery::grafts_from_walk;
use tixgraft::system::WalkEntry;
use tixgraft::error::{IoError, IoErrorKind};
use tixgraft::operations::replace::rewritten_content;
use tixgraft::operations::discovery::discover_graft_files;
use tixgraft::operations::replace::{apply_regex_replacement, apply_replacements, replace_in_content};
use tixgraft::cli::ReplacementConfig;
use tixgraft::system::mock::MockSystem;
use tixgraft::system::System;
use tixgraft::utils::fs::{binary_content, is_binary_file};
use tixgraft::utils::path::{
    common_path_prefix, depth, get_file_extension, get_unique_filename, has_extension,
    is_path_allowed, join_path_safe, normalize, to_unix, to_windows, validate_path_safety,
};

#[test]
fn normalize_resolves_dots() {
    assert_eq!(normalize("a/./b/../c"), "a/c");
    assert_eq!(normalize("../x"), "../x");
    assert_eq!(normalize("/a/b/.."), "/a");
}

#[test]
fn path_safety_refuses_traversal_and_absolute_paths() {
    validate_path_safety("src/lib").unwrap();
    validate_path_safety("a/../b").unwrap();
    assert!(validate_path_safety("../etc").unwrap_err().display().contains("unsafe directory traversal"));
    assert!(validate_path_safety("/etc/passwd").is_err());
}

#[test]
fn path_safety_refuses_every_leading_parent() {
    let e = validate_path_safety("../../etc/passwd").unwrap_err();
    assert_eq!(
        e.display(),
        "Configuration error: Path contains unsafe directory traversal: '../../etc/passwd' -> '../../etc/passwd'"
    );
    assert!(validate_path_safety("../x").is_err());
    let e = validate_path_safety("a/../../x").unwrap_err();
    assert!(e.display().contains("'a/../../x' -> '../x'"));
    validate_path_safety("a/b/../../c").unwrap();
    assert_eq!(normalize("../../etc/passwd"), "../../etc/passwd");
    assert_eq!(normalize("../../a"), "../../a");
    assert_eq!(normalize("a/../../b/./c"), "../b/c");
}

#[test]
fn depth_counts_normal_components() {
    assert_eq!(depth("/a/b/c"), 3);
    assert_eq!(depth("a"), 1);
    assert_eq!(depth("/"), 0);
}

#[test]
fn common_prefix_of_paths() {
    assert_eq!(common_path_prefix("/a/b/c", "/a/b/d"), "/a/b");
    assert_eq!(common_path_prefix("x/y", "z"), "");
}

#[test]
fn separators_convert_both_ways() {
    assert_eq!(to_unix("a\\b\\c"), "a/b/c");
    assert_eq!(to_windows("a/b/c"), "a\\b\\c");
}

#[test]
fn join_is_safe() {
    assert_eq!(join_path_safe("/base", "sub/file.txt").unwrap(), "/base/sub/file.txt");
    assert!(join_path_safe("/base", "../up").is_err());
}

#[test]
fn extensions_ignore_case() {
    assert_eq!(get_file_extension("archive.TAR.GZ"), Some("gz".to_owned()));
    assert!(has_extension("README.MD", "md"));
    assert!(!has_extension("README", "md"));
}

#[test]
fn path_patterns_allow_substrings_and_globs() {
    assert!(is_path_allowed("/repo/src/main.rs", &["src/"]));
    assert!(is_path_allowed("/repo/docs/guide.md", &["*.md"]));
    assert!(!is_path_allowed("/repo/docs/guide.txt", &["*.md", "src/"]));
    assert!(!is_path_allowed("/repo/a", &[]));
}

#[test]
fn unique_filename_counts_up() {
    let system = MockSystem::new()
        .with_file("/d/report.txt", b"x")
        .unwrap()
        .with_file("/d/report-1.txt", b"y")
        .unwrap();
    assert_eq!(get_unique_filename(&system, "/d/report.txt"), "/d/report-2.txt");
    assert_eq!(get_unique_filename(&system, "/d/new.txt"), "/d/new.txt");
}

#[test]
fn binary_detection() {
    assert!(!binary_content(b"plain text"));
    assert!(binary_content(&[b'a', 0, b'b']));
    assert!(binary_content(&[0xff, 0xfe, 0xfd]));
    assert!(!binary_content(b""));
    let system = MockSystem::new().with_file("/img.bin", &[0x89, 0x00, 0x01]).unwrap();
    assert!(is_binary_file(&system, "/img.bin").unwrap());
}

#[test]
fn replace_in_content_replaces_every_occurrence() {
    assert_eq!(replace_in_content("a {{X}} b {{X}}", "{{X}}", "y"), Some("a y b y".to_owned()));
    assert_eq!(replace_in_content("nothing", "{{X}}", "y"), None);
}

#[test]
fn replacements_apply_to_files_below_target() {
    let mut system = MockSystem::new()
        .with_file("/t/a.txt", b"name: {{NAME}}")
        .unwrap()
        .with_file("/t/sub/b.md", b"# {{NAME}}")
        .unwrap()
        .with_env("PROJECT", "demo")
        .unwrap();
    let replacements = vec![ReplacementConfig::new("{{NAME}}".to_owned(), None, Some("PROJECT".to_owned()))];
    let changed = apply_replacements(&mut system, "/t", &replacements).unwrap();
    assert_eq!(changed, 2);
    assert_eq!(system.read_to_string("/t/a.txt").unwrap(), "name: demo");
    assert_eq!(system.read_to_string("/t/sub/b.md").unwrap(), "# demo");
}

#[test]
fn missing_environment_variable_is_a_configuration_error() {
    let mut system = MockSystem::new().with_file("/t/a.txt", b"{{X}}").unwrap();
    let replacements = vec![ReplacementConfig::new("{{X}}".to_owned(), None, Some("UNSET_VAR".to_owned()))];
    let err = apply_replacements(&mut system, "/t", &replacements).unwrap_err();
    assert_eq!(err.exit_code(), 1);
}

#[test]
fn regex_replacement_rewrites_matches() {
    let mut system = MockSystem::new().with_file("/t/v.txt", b"version = 1.2.3").unwrap();
    let n = apply_regex_replacement(&mut system, "/t/v.txt", r"\d+\.\d+\.\d+", "9.9.9").unwrap();
    assert_eq!(n, 1);
    assert_eq!(system.read_to_string("/t/v.txt").unwrap(), "version = 9.9.9");
    assert!(apply_regex_replacement(&mut system, "/t/v.txt", "(", "x").is_err());
}

#[test]
fn graft_files_are_discovered_by_depth() {
    let system = MockSystem::new()
        .with_file("/t/a/b/.graft.yaml", b"")
        .unwrap()
        .with_file("/t/.graft.yaml", b"")
        .unwrap()
        .with_file("/t/a/.graft.yaml", b"")
        .unwrap()
        .with_file("/t/a/other.yaml", b"")
        .unwrap();
    let found = discover_graft_files(&system, "/t").unwrap();
    assert_eq!(found.len(), 3);
    assert_eq!(found[0].depth, 0);
    assert_eq!(found[1].depth, 1);
    assert_eq!(found[2].depth, 2);
    assert!(found[0].parent.is_none());
    assert_eq!(found[2].parent.as_ref().unwrap().directory, found[1].directory);
}

#[test]
fn discovered_grafts_follow_depth_then_walk_order() {
    let system = MockSystem::new()
        .with_file("/t/.graft.yaml", b"")
        .unwrap()
        .with_file("/t/b/c/.graft.yaml", b"")
        .unwrap()
        .with_file("/t/b/.graft.yaml", b"")
        .unwrap()
        .with_file("/t/z/.graft.yaml", b"")
        .unwrap()
        .with_file("/t/b/x.txt", b"x")
        .unwrap();
    let found = discover_graft_files(&system, "/t").unwrap();
    let dirs: Vec<&str> = found.iter().map(|g| g.directory.as_str()).collect();
    assert_eq!(dirs, vec!["/t", "/t/b", "/t/z", "/t/b/c"]);
    let depths: Vec<usize> = found.iter().map(|g| g.depth).collect();
    assert_eq!(depths, vec![0, 1, 1, 2]);
    let parents: Vec<Option<&str>> =
        found.iter().map(|g| g.parent.as_ref().map(|p| p.directory.as_str())).collect();
    assert_eq!(parents, vec![None, Some("/t"), Some("/t"), Some("/t/b")]);
    assert_eq!(found[3].path, "/t/b/c/.graft.yaml");
}

#[test]
fn discovery_refuses_missing_or_non_directory_targets() {
    let system = MockSystem::new().with_file("/f.txt", b"x").unwrap();
    let e = discover_graft_files(&system, "/nope").unwrap_err();
    assert_eq!(e.display(), "Target directory does not exist: /nope");
    let e = discover_graft_files(&system, "/f.txt").unwrap_err();
    assert_eq!(e.display(), "Target path is not a directory: /f.txt");
}

#[test]
fn grafts_from_walk_keeps_walk_order_among_equal_depths() {
    let entry = |p: &str, is_file: bool| WalkEntry { path: p.to_owned(), is_file, is_dir: !is_file };
    let entries = vec![
        entry("/r/y/.graft.yaml", true),
        entry("/r/y", false),
        entry("/r/.graft.yaml", true),
        entry("/r/a/.graft.yaml", true),
        entry("/r/a/notes.txt", true),
    ];
    let found = grafts_from_walk(&entries, "/r").unwrap();
    let paths: Vec<&str> = found.iter().map(|g| g.path.as_str()).collect();
    assert_eq!(paths, vec!["/r/.graft.yaml", "/r/y/.graft.yaml", "/r/a/.graft.yaml"]);
    assert_eq!(found[1].parent.as_ref().unwrap().directory, "/r");
    assert_eq!(found[2].parent.as_ref().unwrap().directory, "/r");
}

#[test]
fn replacement_of_read_text() {
    let r = rewritten_content(Ok("a {{X}} b".to_owned()), "f.txt", "{{X}}", "1").unwrap();
    assert_eq!(r, Some("a 1 b".to_owned()));
    let r = rewritten_content(Ok("nothing".to_owned()), "f.txt", "{{X}}", "1").unwrap();
    assert_eq!(r, None);
    let e = rewritten_content(Err(IoError::new(IoErrorKind::NotFound, "gone".to_owned())), "f.txt", "{{X}}", "1")
        .unwrap_err();
    assert_eq!(e.display(), "Failed to read file for text replacement: f.txt: gone");
}

#[test]
fn first_free_name_takes_the_least_free_number() {
    let taken = |p: &str| p == "/d/a.txt" || p == "/d/a-1.txt" || p == "/d/a-2.txt";
    assert_eq!(first_free_name("/d/a.txt", &taken), "/d/a-3.txt");
    assert_eq!(first_free_name("/d/b.txt", &taken), "/d/b.txt");
    let all = |_p: &str| true;
    assert_eq!(first_free_name("/d/c", &all), "/d/c-final");
}

#[test]
fn graft_target_check_names_the_problem() {
    check_graft_target("/t", Ok(true), Ok(true)).unwrap();
    assert_eq!(check_graft_target("/t", Ok(false), Ok(false)).unwrap_err().display(), "Target directory does not exist: /t");
    assert_eq!(check_graft_target("/t", Ok(true), Ok(false)).unwrap_err().display(), "Target path is not a directory: /t");
    let e = check_graft_target("/t", Err(IoError::new(IoErrorKind::Other, "denied".to_owned())), Ok(true)).unwrap_err();
    assert_eq!(e.display(), "denied");
}

#[test]
fn copy_plan_maps_entries_below_the_target() {
    let entry = |p: &str, is_file: bool, is_dir: bool| WalkEntry { path: p.to_owned(), is_file, is_dir };
    let plan = plan_copies(
        &[entry("/s/a", false, true), entry("/s/a/x.txt", true, false), entry("/s/y", true, false)],
        "/s",
        "/t",
    )
    .unwrap();
    assert_eq!(plan.len(), 3);
    assert_eq!(plan[0].from, None);
    assert_eq!(plan[0].to, "/t/a");
    assert_eq!(plan[1].from.as_deref(), Some("/s/a/x.txt"));
    assert_eq!(plan[1].to, "/t/a/x.txt");
    assert_eq!(plan[2].to, "/t/y");
    let e = plan_copies(&[entry("/elsewhere/z", true, false)], "/s", "/t").unwrap_err();
    assert_eq!(e.display(), "Path '/elsewhere/z' is not within base directory '/s'. Error: prefix not found");
}

#[test]
fn binary_content_follows_utf8_well_formedness() {
    assert!(!binary_content("€ ok".as_bytes()));
    assert!(!binary_content("😀".as_bytes()));
    assert!(binary_content(&[0xC0, 0x80]));
    assert!(binary_content(&[0xED, 0xA0, 0x80]));
    assert!(binary_content(&[0xF4, 0x90, 0x80, 0x80]));
    assert!(binary_content(&[0xE2, 0x82]));
}
