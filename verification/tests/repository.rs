use tixgraft::error::{IoError, IoErrorKind};
use tixgraft::git::sparse_checkout::{files_listing, git_step_args, patterns_listing};
use tixgraft::git::repository::{validate_repository_access, local_source_checked, normalize_repository_url, Repository, RepositorySource};
use tixgraft::system::mock::MockSystem;

fn check_normalize() {
    assert_eq!(
        normalize_repository_url("my_organization/repo").unwrap(),
        "https://github.com/my_organization/repo.git"
    );
    assert_eq!(
        normalize_repository_url("https://github.com/my_organization/repo").unwrap(),
        "https://github.com/my_organization/repo.git"
    );
    assert_eq!(
        normalize_repository_url("https://github.com/my_organization/repo.git").unwrap(),
        "https://github.com/my_organization/repo.git"
    );
    assert_eq!(
        normalize_repository_url("git@github.com:my_organization/repo.git").unwrap(),
        "git@github.com:my_organization/repo.git"
    );
}

fn check_invalid() {
    normalize_repository_url("invalid").unwrap_err();
    normalize_repository_url("").unwrap_err();
    normalize_repository_url("too/many/slashes").unwrap_err();
}

#[test]
fn repository_normalize_repository_url_tst() {
    check_normalize();
}

#[test]
fn tests_normalize_repository_url_tst() {
    check_normalize();
}

#[test]
fn repository_invalid_repository_urls() {
    check_invalid();
}

#[test]
fn tests_invalid_repository_urls() {
    check_invalid();
}

#[test]
fn detect_git_source() {
    let system = MockSystem::new();

    let repo = Repository::new(&system, "my_organization/repo").unwrap();
    assert!(repo.is_git());
    assert!(!repo.is_local());
    assert_eq!(repo.git_url().unwrap(), "https://github.com/my_organization/repo.git");

    let repo_2 = Repository::new(&system, "https://github.com/my_organization/repo.git").unwrap();
    assert!(repo_2.is_git());
    assert!(!repo_2.is_local());

    let repo_3 = Repository::new(&system, "git@github.com:my_organization/repo.git").unwrap();
    assert!(repo_3.is_git());
    assert!(!repo_3.is_local());
}

#[test]
fn detect_local_source_with_file_prefix() {
    let system = MockSystem::new().with_dir("/tmp/source_repo").unwrap();
    let url = format!("file://{}", "/tmp/source_repo");
    let repo = Repository::new(&system, &url).unwrap();

    assert!(repo.is_local());
    assert!(!repo.is_git());
    assert!(repo.local_path().is_some());
    assert_eq!(repo.local_path().unwrap(), "/tmp/source_repo");
}

#[test]
fn detect_local_source_with_absolute_path() {
    let system = MockSystem::new().with_dir("/tmp/source_repo").unwrap();
    let path = "/tmp/source_repo";
    let url = format!("file:{path}");

    let repo = Repository::new(&system, &url).unwrap();

    assert!(repo.is_local());
    assert!(!repo.is_git());
    assert!(repo.local_path().is_some());
}

#[test]
fn detect_local_source_with_relative_path() {
    let system = MockSystem::new()
        .with_current_dir("/work")
        .unwrap()
        .with_dir("/work/checkout")
        .unwrap();
    let relative_path = format!("file:./{}", "checkout");

    let repo = Repository::new(&system, &relative_path).unwrap();

    assert!(repo.is_local());
    assert!(!repo.is_git());
    assert!(repo.local_path().is_some());
    assert_eq!(repo.local_path().unwrap(), "/work/./checkout");
}

#[test]
fn local_source_nonexistent_path() {
    let system = MockSystem::new();
    let result = Repository::new(&system, "file:///nonexistent/path/that/does/not/exist");
    assert!(result.is_err());

    let err = result.unwrap_err();
    assert!(err.display().contains("does not exist"));
}

#[test]
fn local_source_file_not_directory() {
    let system = MockSystem::new().with_file("/tmp/source_repo/test.txt", b"test").unwrap();
    let url = format!("file://{}", "/tmp/source_repo/test.txt");
    let result = Repository::new(&system, &url);

    assert!(result.is_err());
    let err = result.unwrap_err();
    assert!(err.display().contains("not a directory"));
}

#[test]
fn repository_methods() {
    let system = MockSystem::new().with_dir("/tmp/source_repo").unwrap();

    let repo = Repository::new(&system, "my_organization/repo").unwrap();
    assert_eq!(repo.original_url(), "my_organization/repo");
    assert_eq!(repo.git_url().unwrap(), "https://github.com/my_organization/repo.git");
    assert_eq!(repo.local_path(), None);

    let url = format!("file://{}", "/tmp/source_repo");
    let new_repo = Repository::new(&system, &url).unwrap();

    assert_eq!(new_repo.original_url(), &url);
    assert!(new_repo.local_path().is_some());
    assert_eq!(new_repo.local_path().unwrap(), "/tmp/source_repo");
}

#[test]
fn local_source_with_home_expansion() {
    let system = MockSystem::new()
        .with_env("HOME", "/home/user")
        .unwrap()
        .with_dir("/home/user/repo")
        .unwrap();
    let repo = Repository::new(&system, "file:~/repo").unwrap();
    assert_eq!(repo.local_path().unwrap(), "/home/user/repo");
}

#[test]
fn local_source_without_home_is_a_configuration_error() {
    let system = MockSystem::new();
    let err = Repository::new(&system, "file:~/repo").unwrap_err();
    assert_eq!(err.exit_code(), 1);
    assert!(err.display().contains("Cannot determine home directory"));
}

#[test]
fn git_url_of_local_source_fails() {
    let system = MockSystem::new().with_dir("/tmp/source_repo").unwrap();
    let repo = Repository::new(&system, "file:///tmp/source_repo").unwrap();
    assert!(repo.git_url().is_err());
}

#[test]
fn sparse_checkout_steps_fetch_only_the_requested_path() {
    let steps = git_step_args("https://github.com/o/r.git", "/tmp/x", "src/app", "v1");
    assert_eq!(steps[0], vec!["clone", "--filter=blob:none", "--no-checkout", "https://github.com/o/r.git", "/tmp/x"]);
    assert_eq!(steps[1], vec!["sparse-checkout", "init", "--cone"]);
    assert_eq!(steps[2], vec!["sparse-checkout", "set", "src/app"]);
    assert_eq!(steps[3], vec!["checkout", "v1"]);
}

#[test]
fn diagnostics_list_files_without_git() {
    let listing = files_listing(Ok(vec!["/tmp/x/.git".to_owned(), "/tmp/x/a.txt".to_owned(), "/tmp/x/docs".to_owned()]));
    assert_eq!(listing, "    - a.txt\n    - docs\n");
    assert_eq!(files_listing(Ok(vec!["/tmp/x/.git".to_owned()])), "    (empty - no files were checked out)\n");
    assert_eq!(
        files_listing(Err(IoError::new(IoErrorKind::NotFound, "gone".to_owned()))),
        "    (unable to read directory)\n"
    );
    assert_eq!(patterns_listing(None), "");
    assert_eq!(patterns_listing(Some("/*\n!/*/\n".to_owned())), "  Sparse-checkout patterns:\n    /*\n    !/*/\n");
}

#[test]
fn local_source_follows_the_system_answers() {
    let ok = local_source_checked("file:///r", "/r".to_owned(), Ok(true), Ok(true)).unwrap();
    match ok {
        RepositorySource::Local { original_path, resolved_path } => {
            assert_eq!(original_path, "file:///r");
            assert_eq!(resolved_path, "/r");
        },
        RepositorySource::Git { .. } => panic!("expected a local source"),
    }
    let e = local_source_checked("file:///r", "/r".to_owned(), Ok(false), Ok(false)).unwrap_err();
    assert_eq!(e.display(), "Source error: Local repository path does not exist: '/r'");
    assert_eq!(e.exit_code(), 2);
    let e = local_source_checked("file:///r", "/r".to_owned(), Ok(true), Ok(false)).unwrap_err();
    assert_eq!(e.display(), "Source error: Local repository path is not a directory: '/r'");
    let e = local_source_checked("file:///r", "/r".to_owned(), Err(IoError::new(IoErrorKind::Other, "denied".to_owned())), Ok(true))
        .unwrap_err();
    assert_eq!(e.display(), "denied");
}

#[test]
fn access_validation_refuses_local_sources() {
    let system = MockSystem::new().with_dir("/r").unwrap();
    let local = Repository::new(&system, "file:///r").unwrap();
    let e = validate_repository_access(&local, "main").unwrap_err();
    assert_eq!(e.exit_code(), 4);
    let git = Repository::new(&system, "my_organization/repo").unwrap();
    validate_repository_access(&git, "main").unwrap();
    assert!(validate_repository_access(&git, "").is_err());
}
