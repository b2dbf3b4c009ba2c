use tixgraft::cli::PullConfig;
use tixgraft::config::context::ContextValues;
use tixgraft::config::validation::{
    validate_child_path, validate_config, validate_path_safety, validate_repository_url,
};
use tixgraft::config::Config;
use tixgraft::system::mock::MockSystem;

fn pull(source: &str, target: &str) -> PullConfig {
    PullConfig {
        source: source.to_owned(),
        target: target.to_owned(),
        pull_type: "directory".to_owned(),
        repository: None,
        tag: None,
        reset: false,
        require_clean_target: true,
        must_succeed: true,
        commands: vec![],
        replacements: vec![],
        context: ContextValues::new(),
    }
}

#[test]
fn repository_url_formats() {
    validate_repository_url("https://github.com/my_organization/repo.git").unwrap();
    validate_repository_url("http://example.com/x/repo.git").unwrap();
    validate_repository_url("git@github.com:my_organization/repo.git").unwrap();
    validate_repository_url("my_organization/repo").unwrap();
    validate_repository_url("file:///tmp/repo").unwrap();
    let err = validate_repository_url("https://github.com/my_organization/repo").unwrap_err();
    assert!(err.display().starts_with("Invalid repository URL format: 'https://github.com/my_organization/repo'\nSupported formats:\n"));
    validate_repository_url("too/many/slashes").unwrap_err();
}

#[test]
fn target_paths_must_be_relative_and_contained() {
    validate_path_safety("vendor/lib").unwrap();
    assert!(validate_path_safety("../outside").unwrap_err().display().contains("unsafe directory traversal"));
    assert!(validate_path_safety("/abs").unwrap_err().display().contains("Absolute paths are not allowed"));
}

#[test]
fn child_paths_stay_below() {
    let system = MockSystem::new().with_file("sub/tixgraft.yaml", b"").unwrap();
    validate_child_path(&system, "sub/tixgraft.yaml", 0, None).unwrap();
    let err = validate_child_path(&system, "../x.yaml", 0, None).unwrap_err();
    assert_eq!(
        err.display(),
        "Child config #1: Child path '../x.yaml' cannot contain '..' \u{2014} children must be in subdirectories"
    );
    assert!(validate_child_path(&system, "/abs.yaml", 1, None).unwrap_err().display().contains("cannot be absolute"));
}

#[test]
fn configuration_checks() {
    let system = MockSystem::new();
    let mut config = Config::empty();
    config.repository = Some("my_organization/repo".to_owned());
    assert!(validate_config(&system, &config).is_err());
    config.pulls.push(pull("src", "dst"));
    validate_config(&system, &config).unwrap();
    config.pulls.push(pull("src", "../escape"));
    let err = validate_config(&system, &config).unwrap_err();
    assert!(err.display().contains("Pull operation #2"));
}
