use tixgraft::error::{EnvVarError, IoErrorKind};
use tixgraft::system::mock::MockSystem;
use tixgraft::system::{System, TempDirHandle};

#[test]
fn builder_sets_environment_files_and_dirs() {
    let system = MockSystem::new()
        .with_env("HOME", "/home/user")
        .unwrap()
        .with_file("/test/file.txt", b"Hello, world!")
        .unwrap()
        .with_dir("/test/subdir")
        .unwrap();

    assert_eq!(system.env_var("HOME").unwrap(), "/home/user");
    assert_eq!(system.env_var("MISSING").unwrap_err(), EnvVarError::NotPresent);
    assert!(system.path_exists("/test/file.txt").unwrap());
    assert!(system.is_dir("/test").unwrap());
    assert!(system.is_dir("/test/subdir").unwrap());
    assert!(system.is_file("/test/file.txt").unwrap());
    assert!(!system.is_file("/test").unwrap());
}

#[test]
fn read_gives_back_what_write_wrote() {
    let mut system = MockSystem::new().with_dir("/data").unwrap();
    system.write("/data/a.txt", b"first").unwrap();
    system.write("/data/a.txt", b"second").unwrap();
    assert_eq!(system.read_to_string("/data/a.txt").unwrap(), "second");
    assert_eq!(system.read("/data/a.txt").unwrap(), b"second".to_vec());
    assert_eq!(system.file_len("/data/a.txt").unwrap(), 6);
}

#[test]
fn write_needs_an_existing_parent() {
    let mut system = MockSystem::new();
    let err = system.write("/nope/a.txt", b"x").unwrap_err();
    assert_eq!(err.kind, IoErrorKind::NotFound);
    assert_eq!(err.message, "Parent directory does not exist: /nope");
}

#[test]
fn read_of_missing_file_is_not_found() {
    let system = MockSystem::new();
    let err = system.read_to_string("/missing.txt").unwrap_err();
    assert_eq!(err.kind, IoErrorKind::NotFound);
    assert_eq!(err.message, "File not found: /missing.txt");
}

#[test]
fn invalid_utf8_is_invalid_data() {
    let system = MockSystem::new().with_file("/bin.dat", &[0xff, 0xfe]).unwrap();
    let err = system.read_to_string("/bin.dat").unwrap_err();
    assert_eq!(err.kind, IoErrorKind::InvalidData);
    assert!(err.message.starts_with("Invalid UTF-8: "));
}

#[test]
fn remove_dir_all_removes_everything_below() {
    let mut system = MockSystem::new()
        .with_file("/a/b/c.txt", b"c")
        .unwrap()
        .with_file("/a/d.txt", b"d")
        .unwrap()
        .with_file("/ab.txt", b"e")
        .unwrap();
    system.remove_dir_all("/a/b").unwrap();
    assert!(!system.path_exists("/a/b").unwrap());
    assert!(!system.path_exists("/a/b/c.txt").unwrap());
    assert!(system.path_exists("/a/d.txt").unwrap());
    assert!(system.path_exists("/ab.txt").unwrap());
}

#[test]
fn remove_file_of_missing_file_fails() {
    let mut system = MockSystem::new();
    let err = system.remove_file("/x").unwrap_err();
    assert_eq!(err.message, "File not found: /x");
}

#[test]
fn copy_reports_size() {
    let mut system = MockSystem::new().with_file("/a.txt", b"12345").unwrap();
    assert_eq!(system.copy("/a.txt", "/b.txt").unwrap(), 5);
    assert_eq!(system.read_to_string("/b.txt").unwrap(), "12345");
    let err = system.copy("/none", "/c.txt").unwrap_err();
    assert_eq!(err.message, "Source file not found: /none");
}

#[test]
fn canonicalize_resolves_against_current_dir() {
    let system = MockSystem::new().with_current_dir("/home").unwrap();
    assert_eq!(system.canonicalize("x/y").unwrap(), "/home/x/y");
    assert_eq!(system.canonicalize("/abs").unwrap(), "/abs");
    assert_eq!(system.current_dir().unwrap(), "/home");
}

#[test]
fn read_dir_lists_children() {
    let system = MockSystem::new()
        .with_file("/d/a.txt", b"a")
        .unwrap()
        .with_dir("/d/sub")
        .unwrap()
        .with_file("/d/sub/deep.txt", b"x")
        .unwrap();
    let mut entries = system.read_dir("/d").unwrap();
    entries.sort();
    assert_eq!(entries, vec!["/d/a.txt".to_owned(), "/d/sub".to_owned()]);
    assert!(system.read_dir("/none").is_err());
}

#[test]
fn walk_reports_everything_below_sorted() {
    let system = MockSystem::new()
        .with_file("/w/b.txt", b"b")
        .unwrap()
        .with_file("/w/a/c.txt", b"c")
        .unwrap();
    let entries = system.walk_dir("/w", false, false).unwrap();
    let paths: Vec<&str> = entries.iter().map(|e| e.path.as_str()).collect();
    assert_eq!(paths, vec!["/w/a", "/w/a/c.txt", "/w/b.txt"]);
    assert!(entries[0].is_dir && !entries[0].is_file);
    assert!(entries[1].is_file && !entries[1].is_dir);
}

#[test]
fn temp_dirs_are_created_and_distinct() {
    let mut system = MockSystem::new();
    let t1 = system.create_temp_dir().unwrap();
    let t2 = system.create_temp_dir().unwrap();
    assert_eq!(t1.path(), "/tmp/mock_0");
    assert_eq!(t2.path(), "/tmp/mock_1");
    assert!(system.is_dir("/tmp/mock_0").unwrap());
}

#[test]
fn walk_lists_each_path_once_in_path_order() {
    let system = MockSystem::new()
        .with_file("/w/b.txt", b"1")
        .unwrap()
        .with_file("/w/a/z.txt", b"2")
        .unwrap()
        .with_file("/w/b.txt", b"3")
        .unwrap()
        .with_dir("/w/a")
        .unwrap()
        .with_file("/w/a-b", b"4")
        .unwrap();
    let entries = system.walk_dir("/w", false, false).unwrap();
    let paths: Vec<&str> = entries.iter().map(|e| e.path.as_str()).collect();
    assert_eq!(paths, vec!["/w/a", "/w/a/z.txt", "/w/a-b", "/w/b.txt"]);
}
