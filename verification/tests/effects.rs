use tixgraft::cli::args::{PullConfig, ReplacementConfig};
use tixgraft::config::context::{ContextValues, FloatReading};
use tixgraft::config::graft_yaml::{ChoiceOption, GraftConfig, PostCommand, TestCommand};
use tixgraft::config::{Config, ConfigParser};
use tixgraft::error::{IoError, IoErrorKind};
use tixgraft::operations::commands::{execute_commands, execute_commands_interactive};
use tixgraft::operations::copy::copy_directory;
use tixgraft::operations::post_commands::{execute_post_command, execute_post_commands};
use tixgraft::operations::pull::execute_single_pull;
use tixgraft::operations::replace::apply_single_replacement;
use tixgraft::system::mock::MockSystem;
use tixgraft::system::scripted::ScriptedRunner;
use tixgraft::system::{ProcessOutput, System};
use tixgraft::utils::fs::format_file_size;
use tixgraft::utils::path::{common_path_prefix, get_unique_filename, to_unix};

fn ok_output(stdout: &str) -> Result<ProcessOutput, IoError> {
    Ok(ProcessOutput { success: true, code: Some(0), stdout: stdout.to_owned(), stderr: String::new() })
}

fn failed_output() -> Result<ProcessOutput, IoError> {
    Ok(ProcessOutput { success: false, code: Some(3), stdout: String::new(), stderr: "bad".to_owned() })
}

fn strings(items: &[&str]) -> Vec<String> {
    items.iter().map(|s| (*s).to_owned()).collect()
}

struct NoParser;

impl ConfigParser for NoParser {
    fn parse_config(&self, _text: &str) -> Result<Config, String> {
        Err("no configuration expected".to_owned())
    }

    fn parse_graft_config(&self, _text: &str) -> Result<GraftConfig, String> {
        Err("no graft configuration expected".to_owned())
    }
}

#[test]
fn commands_run_in_order_through_sh() {
    let system = MockSystem::new().with_dir("/work").unwrap();
    let mut runner = ScriptedRunner::new(false, Vec::new());
    let commands = strings(&["make", "make install"]);
    assert_eq!(execute_commands(&system, &mut runner, &commands, "/work").unwrap(), 2);
    let runs = runner.recorded();
    assert_eq!(runs.len(), 2);
    assert_eq!(runs[0].program, "sh");
    assert_eq!(runs[0].args, strings(&["-c", "make"]));
    assert_eq!(runs[0].cwd.as_deref(), Some("/work"));
    assert!(!runs[0].attached);
    assert_eq!(runs[1].args, strings(&["-c", "make install"]));
}

#[test]
fn commands_use_cmd_on_windows() {
    let system = MockSystem::new().with_dir("/work").unwrap();
    let mut runner = ScriptedRunner::new(true, Vec::new());
    let commands = strings(&["dir"]);
    assert_eq!(execute_commands(&system, &mut runner, &commands, "/work").unwrap(), 1);
    assert_eq!(runner.recorded()[0].program, "cmd");
    assert_eq!(runner.recorded()[0].args, strings(&["/C", "dir"]));
}

#[test]
fn a_failing_command_stops_the_later_ones() {
    let system = MockSystem::new().with_dir("/work").unwrap();
    let mut runner = ScriptedRunner::new(false, vec![ok_output(""), failed_output()]);
    let commands = strings(&["one", "two", "three"]);
    let err = execute_commands(&system, &mut runner, &commands, "/work").unwrap_err();
    assert!(err.display().contains("Command #2"));
    assert_eq!(runner.recorded().len(), 2);
    assert_eq!(runner.recorded()[1].args, strings(&["-c", "two"]));
}

#[test]
fn a_blank_command_is_not_run() {
    let system = MockSystem::new().with_dir("/work").unwrap();
    let mut runner = ScriptedRunner::new(false, Vec::new());
    let commands = strings(&["first", "   ", "third"]);
    let err = execute_commands(&system, &mut runner, &commands, "/work").unwrap_err();
    assert!(err.display().contains("Command #2"));
    assert_eq!(runner.recorded().len(), 1);
}

#[test]
fn nothing_runs_without_the_working_directory() {
    let system = MockSystem::new();
    let mut runner = ScriptedRunner::new(false, Vec::new());
    let commands = strings(&["echo hi"]);
    let err = execute_commands(&system, &mut runner, &commands, "/missing").unwrap_err();
    assert_eq!(err.display(), "Filesystem error: Working directory does not exist: /missing");
    assert!(runner.recorded().is_empty());
}

#[test]
fn interactive_commands_run_attached_with_the_same_outcome() {
    let system = MockSystem::new().with_dir("/work").unwrap();
    let mut plain = ScriptedRunner::new(false, vec![ok_output(""), failed_output()]);
    let mut attached = ScriptedRunner::new(false, vec![ok_output(""), failed_output()]);
    let commands = strings(&["one", "two", "three"]);
    let a = execute_commands(&system, &mut plain, &commands, "/work");
    let b = execute_commands_interactive(&system, &mut attached, &commands, "/work");
    assert_eq!(a.is_ok(), b.is_ok());
    assert_eq!(a.unwrap_err().exit_code(), b.unwrap_err().exit_code());
    assert_eq!(attached.recorded().len(), 2);
    assert!(attached.recorded()[0].attached);
    assert_eq!(attached.recorded()[1].args, plain.recorded()[1].args);
}

#[test]
fn post_command_runs_its_program_in_the_resolved_directory() {
    let system = MockSystem::new().with_dir("/graft/sub").unwrap();
    let mut runner = ScriptedRunner::new(false, vec![ok_output("done\n")]);
    let command = PostCommand::new("npm".to_owned(), strings(&["install"]), Some("sub".to_owned()));
    let result = execute_post_command(&system, &mut runner, &command, "/graft").unwrap();
    assert_eq!(result.command_type, "command");
    assert!(result.success);
    assert_eq!(result.output, "done\n");
    let runs = runner.recorded();
    assert_eq!(runs.len(), 1);
    assert_eq!(runs[0].program, "npm");
    assert_eq!(runs[0].args, strings(&["install"]));
    assert_eq!(runs[0].cwd.as_deref(), Some("/graft/sub"));
}

#[test]
fn post_command_in_a_missing_directory_runs_nothing() {
    let system = MockSystem::new().with_dir("/graft").unwrap();
    let mut runner = ScriptedRunner::new(false, Vec::new());
    let command = PostCommand::new("npm".to_owned(), Vec::new(), Some("nowhere".to_owned()));
    assert!(execute_post_command(&system, &mut runner, &command, "/graft").is_err());
    assert!(runner.recorded().is_empty());
}

fn option(test: &str, expected: &str, then: &str) -> ChoiceOption {
    ChoiceOption::new(
        TestCommand::new(test.to_owned(), Vec::new(), None),
        expected.to_owned(),
        Box::new(PostCommand::new(then.to_owned(), Vec::new(), None)),
    )
}

#[test]
fn choice_takes_the_first_matching_option_and_tests_no_further() {
    let system = MockSystem::new().with_dir("/graft").unwrap();
    let mut runner = ScriptedRunner::new(false, vec![ok_output("linux"), ok_output("version 2.1"), ok_output("ran")]);
    let choice = PostCommand::Choice {
        options: vec![
            option("uname", "^darwin", "brew"),
            option("tool", "version 2", "upgrade"),
            option("other", ".*", "never"),
        ],
    };
    let result = execute_post_command(&system, &mut runner, &choice, "/graft").unwrap();
    assert_eq!(result.command_type, "command");
    assert_eq!(result.output, "ran");
    let programs: Vec<&str> = runner.recorded().iter().map(|r| r.program.as_str()).collect();
    assert_eq!(programs, vec!["uname", "tool", "upgrade"]);
}

#[test]
fn choice_without_a_match_says_so_after_every_test() {
    let system = MockSystem::new().with_dir("/graft").unwrap();
    let mut runner = ScriptedRunner::new(false, vec![ok_output("a"), ok_output("b")]);
    let choice = PostCommand::Choice { options: vec![option("t1", "^x", "c1"), option("t2", "^y", "c2")] };
    let result = execute_post_command(&system, &mut runner, &choice, "/graft").unwrap();
    assert_eq!(result.command_type, "choice");
    assert!(result.success);
    assert_eq!(result.output, "No matching option found");
    assert!(result.error.is_none());
    assert_eq!(runner.recorded().len(), 2);
}

#[test]
fn every_post_command_is_attempted_and_recorded() {
    let system = MockSystem::new().with_dir("/graft").unwrap();
    let mut runner = ScriptedRunner::new(false, vec![Err(IoError::new(IoErrorKind::NotFound, "no such program".to_owned())), ok_output("fine")]);
    let commands = vec![
        PostCommand::new("missing".to_owned(), Vec::new(), None),
        PostCommand::new("echo".to_owned(), strings(&["hi"]), None),
    ];
    let results = execute_post_commands(&system, &mut runner, &commands, "/graft").unwrap();
    assert_eq!(results.len(), 2);
    assert!(!results[0].success);
    assert_eq!(results[0].command_type, "command");
    assert!(results[0].error.as_deref().unwrap().contains("Failed to execute command 'missing'"));
    assert!(results[1].success);
    assert_eq!(results[1].output, "fine");
    assert_eq!(runner.recorded().len(), 2);
}

#[test]
fn copied_directory_holds_the_source_files() {
    let mut system = MockSystem::new()
        .with_file("/src/a.txt", b"alpha")
        .unwrap()
        .with_file("/src/nested/b.txt", b"beta")
        .unwrap();
    let n = copy_directory(&mut system, "/src", "/dst").unwrap();
    assert_eq!(n, 2);
    assert_eq!(system.read("/dst/a.txt").unwrap(), b"alpha".to_vec());
    assert_eq!(system.read("/dst/nested/b.txt").unwrap(), b"beta".to_vec());
    assert!(system.is_dir("/dst/nested").unwrap());
}

#[test]
fn replacement_rewrites_the_file() {
    let mut system = MockSystem::new().with_file("/t/readme.md", b"name: foo, again foo").unwrap();
    assert_eq!(apply_single_replacement(&mut system, "/t/readme.md", "foo", "bar").unwrap(), 1);
    assert_eq!(system.read_to_string("/t/readme.md").unwrap(), "name: bar, again bar");
    assert_eq!(apply_single_replacement(&mut system, "/t/readme.md", "foo", "bar").unwrap(), 0);
    assert_eq!(system.read_to_string("/t/readme.md").unwrap(), "name: bar, again bar");
}

#[test]
fn unique_filename_is_the_least_free_candidate() {
    let system = MockSystem::new()
        .with_file("/d/report.txt", b"")
        .unwrap()
        .with_file("/d/report-1.txt", b"")
        .unwrap()
        .with_file("/d/report-3.txt", b"")
        .unwrap();
    assert_eq!(get_unique_filename(&system, "/d/report.txt"), "/d/report-2.txt");
    assert_eq!(get_unique_filename(&system, "/d/other.txt"), "/d/other.txt");
}

#[test]
fn file_sizes_read_like_the_float_rendering() {
    let units = ["B", "KB", "MB", "GB", "TB"];
    let samples: [u64; 14] = [
        1,
        512,
        1023,
        1024,
        1280,
        1536,
        1587,
        10239,
        1048575,
        1048576,
        5_368_709_120,
        1_099_511_627_776,
        1_649_267_441_664,
        9_007_199_254_740_991,
    ];
    for bytes in samples {
        let mut size = bytes as f64;
        let mut unit = 0;
        while size >= 1024.0 && unit < units.len() - 1 {
            size /= 1024.0;
            unit += 1;
        }
        let expected = if unit == 0 { format!("{} {}", bytes, units[unit]) } else { format!("{:.1} {}", size, units[unit]) };
        assert_eq!(format_file_size(bytes), expected, "bytes = {bytes}");
    }
    assert_eq!(format_file_size(0), "0 B");
    assert_eq!(format_file_size(1536), "1.5 KB");
    assert_eq!(format_file_size(1048576), "1.0 MB");
}

#[test]
fn common_prefix_is_symmetric_and_whole_components() {
    assert_eq!(common_path_prefix("/a/b/c", "/a/b/d"), "/a/b");
    assert_eq!(common_path_prefix("/a/b/d", "/a/b/c"), "/a/b");
    assert_eq!(common_path_prefix("/ab", "/a"), "/");
    assert_eq!(common_path_prefix("/a", "/ab"), "/");
    assert_eq!(common_path_prefix("x", "y"), "");
}

#[test]
fn unix_form_has_no_backslash_and_keeps_length() {
    for p in ["a\\b\\c", "C:\\dir\\file.txt", "mixed/and\\back", ""] {
        let u = to_unix(p);
        assert!(!u.contains('\\'));
        assert_eq!(u.chars().count(), p.chars().count());
    }
}

#[test]
fn added_file_has_its_directories() {
    let system = MockSystem::new().with_file("/a/b/c.txt", b"x").unwrap();
    assert!(system.is_dir("/a").unwrap());
    assert!(system.is_dir("/a/b").unwrap());
    assert!(system.is_file("/a/b/c.txt").unwrap());
}

#[test]
fn local_pull_copies_replaces_and_runs_commands_last() {
    let mut system = MockSystem::new().with_file("/repo/src/a.txt", b"hello foo").unwrap();
    let mut runner = ScriptedRunner::new(false, Vec::new());
    let parser = NoParser;
    let read_float = |_s: &str| FloatReading::NotANumber;
    let config = Config::empty();
    let pull = PullConfig {
        source: "src".to_owned(),
        target: "/out".to_owned(),
        pull_type: "directory".to_owned(),
        repository: None,
        tag: None,
        reset: false,
        require_clean_target: false,
        must_succeed: true,
        commands: strings(&["echo done"]),
        replacements: vec![ReplacementConfig { source: "foo".to_owned(), target: Some("bar".to_owned()), value_from_env: None }],
        context: ContextValues::new(),
    };
    let result =
        execute_single_pull(&mut system, &mut runner, &parser, &read_float, &config, &pull, "file:///repo", "main").unwrap();
    assert_eq!(result.files_copied, 1);
    assert_eq!(result.replacements_applied, 1);
    assert_eq!(result.commands_executed, 1);
    assert_eq!(system.read_to_string("/out/a.txt").unwrap(), "hello bar");
    let runs = runner.recorded();
    assert_eq!(runs.len(), 1);
    assert_eq!(runs[0].args, strings(&["-c", "echo done"]));
    assert_eq!(runs[0].cwd.as_deref(), Some("/out"));
}

#[test]
fn git_pull_asks_for_the_sparse_checkout_steps_in_order() {
    let mut system = MockSystem::new();
    let mut runner = ScriptedRunner::new(false, Vec::new());
    let parser = NoParser;
    let read_float = |_s: &str| FloatReading::NotANumber;
    let config = Config::empty();
    let pull = PullConfig {
        source: "docs".to_owned(),
        target: "/out".to_owned(),
        pull_type: "directory".to_owned(),
        repository: None,
        tag: None,
        reset: false,
        require_clean_target: false,
        must_succeed: true,
        commands: strings(&["echo never"]),
        replacements: Vec::new(),
        context: ContextValues::new(),
    };
    let err = execute_single_pull(
        &mut system,
        &mut runner,
        &parser,
        &read_float,
        &config,
        &pull,
        "https://github.com/acme/widgets.git",
        "v1.0",
    )
    .unwrap_err();
    assert!(err.display().contains("Source path 'docs' not found"));
    let runs = runner.recorded();
    assert_eq!(runs.len(), 4);
    assert!(runs.iter().all(|r| r.program == "git"));
    assert_eq!(runs[0].args[0], "clone");
    assert_eq!(runs[0].args[3], "https://github.com/acme/widgets.git");
    assert!(runs[0].cwd.is_none());
    assert_eq!(runs[1].args, strings(&["sparse-checkout", "init", "--cone"]));
    assert_eq!(runs[2].args, strings(&["sparse-checkout", "set", "docs"]));
    assert_eq!(runs[3].args, strings(&["checkout", "v1.0"]));
    assert_eq!(runs[1].cwd, runs[3].cwd);
    assert_eq!(runs[1].cwd.as_deref(), Some(runs[0].args[4].as_str()));
}

#[test]
fn nested_choice_gives_the_result_of_the_inner_one() {
    let system = MockSystem::new().with_dir("/graft").unwrap();
    let mut runner = ScriptedRunner::new(false, vec![ok_output("yes"), ok_output("nothing")]);
    let inner = PostCommand::Choice { options: vec![option("inner-test", "^match", "inner-cmd")] };
    let outer = PostCommand::Choice {
        options: vec![ChoiceOption::new(
            TestCommand::new("outer-test".to_owned(), Vec::new(), None),
            "yes".to_owned(),
            Box::new(inner),
        )],
    };
    let result = execute_post_command(&system, &mut runner, &outer, "/graft").unwrap();
    assert_eq!(result.command_type, "choice");
    assert_eq!(result.output, "No matching option found");
    let programs: Vec<&str> = runner.recorded().iter().map(|r| r.program.as_str()).collect();
    assert_eq!(programs, vec!["outer-test", "inner-test"]);
}
