use tixgraft::operations::commands::check_working_dir;
use tixgraft::operations::post_commands::{choice_decision, post_command_record};
use tixgraft::error::GraftError;
use tixgraft::error::IoErrorKind;
use tixgraft::operations::commands::{command_result, shell_invocation};
use tixgraft::operations::post_commands::execution_result;
use tixgraft::error::IoError;
use tixgraft::operations::commands::{analyze_command_safety, execute_commands, validate_commands};
use tixgraft::operations::copy::{copy_directory, copy_files, count_files_to_copy};
use tixgraft::system::mock::MockSystem;
use tixgraft::system::{HostRunner, ProcessOutput, RunBackend, System};

struct RecordingRunner {
    calls: Vec<(String, Vec<String>, Option<String>)>,
    fail: bool,
}

impl RunBackend for RecordingRunner {
    fn is_windows(&self) -> bool {
        false
    }

    fn run(&mut self, program: &str, args: &[String], cwd: Option<&str>) -> Result<ProcessOutput, IoError> {
        self.calls.push((program.to_owned(), args.to_vec(), cwd.map(|c| c.to_owned())));
        Ok(ProcessOutput {
            success: !self.fail,
            code: Some(if self.fail { 2 } else { 0 }),
            stdout: String::new(),
            stderr: if self.fail { "boom".to_owned() } else { String::new() },
        })
    }

    fn run_attached(
        &mut self,
        program: &str,
        args: &[String],
        cwd: Option<&str>,
    ) -> Result<ProcessOutput, IoError> {
        self.run(program, args, cwd)
    }
}

#[test]
fn test_command_validation() {
    let commands = vec![
        "echo hello".to_string(),
        "rm -rf /".to_string(),
        "curl http://example.com".to_string(),
    ];

    let validations = validate_commands(&commands).unwrap();

    assert_eq!(validations.len(), 3);
    assert!(validations[0].is_valid);
    assert!(validations[0].potential_issues.is_empty());

    assert!(validations[1].is_valid);
    assert!(!validations[1].potential_issues.is_empty());

    assert!(validations[2].is_valid);
    assert!(!validations[2].potential_issues.is_empty());
}

#[test]
fn execute_command_runs_through_the_shell() {
    let system = MockSystem::new().with_dir("/work").unwrap();
    let mut runner = HostRunner::new(RecordingRunner { calls: Vec::new(), fail: false });
    let commands = vec!["echo 'test' > output.txt".to_string()];

    let result = execute_commands(&system, &mut runner, &commands, "/work");
    assert!(result.is_ok());
    assert_eq!(result.unwrap(), 1);
    assert_eq!(runner.backend().calls.len(), 1);
    assert_eq!(runner.backend().calls[0].0, "sh");
    assert_eq!(runner.backend().calls[0].1, vec!["-c".to_owned(), "echo 'test' > output.txt".to_owned()]);
    assert_eq!(runner.backend().calls[0].2.as_deref(), Some("/work"));
}

#[test]
fn failing_command_stops_the_rest() {
    let system = MockSystem::new().with_dir("/work").unwrap();
    let mut runner = HostRunner::new(RecordingRunner { calls: Vec::new(), fail: true });
    let commands = vec!["false".to_string(), "echo never".to_string()];
    let err = execute_commands(&system, &mut runner, &commands, "/work").unwrap_err();
    assert_eq!(runner.backend().calls.len(), 1);
    assert_eq!(err.exit_code(), 3);
    assert!(err.display().contains("Command #1 failed"));
}

#[test]
fn missing_working_directory_is_an_error() {
    let system = MockSystem::new();
    let mut runner = HostRunner::new(RecordingRunner { calls: Vec::new(), fail: false });
    let commands = vec!["echo hi".to_string()];
    let err = execute_commands(&system, &mut runner, &commands, "/nowhere").unwrap_err();
    assert!(err.display().contains("Working directory does not exist: /nowhere"));
    assert!(runner.backend().calls.is_empty());
}

#[test]
fn blank_command_is_rejected() {
    let system = MockSystem::new().with_dir("/work").unwrap();
    let mut runner = HostRunner::new(RecordingRunner { calls: Vec::new(), fail: false });
    let commands = vec!["   ".to_string()];
    let err = execute_commands(&system, &mut runner, &commands, "/work").unwrap_err();
    assert_eq!(err.exit_code(), 3);
    assert!(runner.backend().calls.is_empty());
}

#[test]
fn safety_analysis_names_patterns() {
    let issues = analyze_command_safety("sudo rm -rf /tmp && wget http://x");
    assert!(!issues.is_empty());
    assert!(analyze_command_safety("ls -la").is_empty());
}

#[test]
fn test_copy_file() {
    let mut system = MockSystem::new().with_dir("/tmp/t").unwrap();
    system.write("/tmp/t/source.txt", b"test content\n").unwrap();

    let result = copy_files(&mut system, "/tmp/t/source.txt", "/tmp/t/target.txt", "file", false);
    assert!(result.is_ok());
    assert_eq!(result.unwrap(), 1);

    assert!(system.path_exists("/tmp/t/target.txt").unwrap());
    let content = system.read_to_string("/tmp/t/target.txt").unwrap();
    assert_eq!(content.trim(), "test content");
}

#[test]
fn test_copy_directory() {
    let mut system = MockSystem::new();
    system.create_dir_all("/tmp/t/source").unwrap();
    system.create_dir_all("/tmp/t/source/subdir").unwrap();
    system.write("/tmp/t/source/file1.txt", b"content1\n").unwrap();
    system.write("/tmp/t/source/subdir/file2.txt", b"content2\n").unwrap();

    let result = copy_directory(&mut system, "/tmp/t/source", "/tmp/t/target");
    assert!(result.is_ok());
    assert_eq!(result.unwrap(), 2);

    assert!(system.path_exists("/tmp/t/target/file1.txt").unwrap());
    assert!(system.path_exists("/tmp/t/target/subdir/file2.txt").unwrap());
    assert_eq!(system.read_to_string("/tmp/t/target/subdir/file2.txt").unwrap(), "content2\n");
}

#[test]
fn copy_of_missing_source_fails() {
    let mut system = MockSystem::new();
    let err = copy_files(&mut system, "/missing", "/out", "file", false).unwrap_err();
    assert_eq!(err.exit_code(), 2);
    assert!(err.display().contains("Source path does not exist: /missing"));
}

#[test]
fn copy_with_unknown_type_fails() {
    let mut system = MockSystem::new().with_file("/a.txt", b"x").unwrap();
    let err = copy_files(&mut system, "/a.txt", "/b.txt", "link", false).unwrap_err();
    assert_eq!(err.exit_code(), 1);
}

#[test]
fn count_files_in_directory() {
    let system = MockSystem::new()
        .with_file("/src/a.txt", b"a")
        .unwrap()
        .with_file("/src/d/b.txt", b"b")
        .unwrap();
    assert_eq!(count_files_to_copy(&system, "/src", "directory").unwrap(), 2);
    assert_eq!(count_files_to_copy(&system, "/src/a.txt", "file").unwrap(), 1);
}

#[test]
fn shell_invocation_passes_the_line_to_sh() {
    let (program, args) = shell_invocation(false, "echo hi");
    assert_eq!(program, "sh");
    assert_eq!(args, vec!["-c".to_owned(), "echo hi".to_owned()]);
    let (program, args) = shell_invocation(true, "dir");
    assert_eq!(program, "cmd");
    assert_eq!(args, vec!["/C".to_owned(), "dir".to_owned()]);
}

#[test]
fn command_result_reports_each_outcome() {
    let ok = ProcessOutput { success: true, code: Some(0), stdout: String::new(), stderr: String::new() };
    assert!(command_result(0, "true", "/w", Ok(ok)).is_ok());
    let failed = ProcessOutput { success: false, code: Some(3), stdout: "out".to_owned(), stderr: " err ".to_owned() };
    let e = command_result(1, "false", "/w", Ok(failed)).unwrap_err();
    assert_eq!(
        e.display(),
        "Command error: Command #2 failed with exit code 3: false\nError output:\nerr\nStandard output:\nout\nWorking directory: /w"
    );
    let e = command_result(0, "x", "/w", Err(IoError::new(IoErrorKind::NotFound, "no sh".to_owned()))).unwrap_err();
    assert_eq!(e.display(), "Failed to execute command #1: x");
}

#[test]
fn execution_result_keeps_output_and_error_text() {
    let out = ProcessOutput { success: false, code: Some(1), stdout: "o".to_owned(), stderr: "e".to_owned() };
    let r = execution_result("command", "command", "make", "/g", Ok(out)).unwrap();
    assert_eq!(r.command_type, "command");
    assert!(!r.success);
    assert_eq!(r.output, "o");
    assert_eq!(r.error, Some("e".to_owned()));
    let out = ProcessOutput { success: true, code: Some(0), stdout: String::new(), stderr: String::new() };
    assert_eq!(execution_result("test", "test command", "t", "/g", Ok(out)).unwrap().error, None);
    let e = execution_result("test", "test command", "t", "/g", Err(IoError::new(IoErrorKind::Other, "denied".to_owned())))
        .unwrap_err();
    assert_eq!(e.display(), "Failed to execute test command 't' in directory '/g': denied");
}

#[test]
fn execute_commands_refuses_a_missing_directory() {
    let system = MockSystem::new();
    let mut runner = HostRunner::new(RecordingRunner { calls: vec![], fail: false });
    let e = execute_commands(&system, &mut runner, &["echo hi".to_owned()], "/missing").unwrap_err();
    assert_eq!(e.display(), "Filesystem error: Working directory does not exist: /missing");
    assert!(runner.backend().calls.is_empty());
}

#[test]
fn failing_command_runs_through_sh_in_the_directory() {
    let system = MockSystem::new().with_dir("/work").unwrap();
    let mut runner = HostRunner::new(RecordingRunner { calls: vec![], fail: true });
    let e = execute_commands(&system, &mut runner, &["a".to_owned(), "b".to_owned()], "/work").unwrap_err();
    assert!(e.display().starts_with("Command error: Command #1 failed with exit code 2: a"));
    assert_eq!(runner.backend().calls.len(), 1);
    assert_eq!(runner.backend().calls[0], ("sh".to_owned(), vec!["-c".to_owned(), "a".to_owned()], Some("/work".to_owned())));
}

#[test]
fn working_directory_check_refuses_missing_ones() {
    check_working_dir("/w", Ok(true)).unwrap();
    let e = check_working_dir("/w", Ok(false)).unwrap_err();
    assert_eq!(e.display(), "Filesystem error: Working directory does not exist: /w");
    assert!(check_working_dir("/w", Err(IoError::new(IoErrorKind::Other, "x".to_owned()))).is_err());
}

#[test]
fn choice_decision_matches_anywhere_in_the_output() {
    assert!(choice_decision("v[0-9]+", "tool v12 ready").unwrap());
    assert!(!choice_decision("^v[0-9]+$", "tool v12 ready").unwrap());
    assert!(choice_decision("(", "x").unwrap_err().display().starts_with("Invalid regex pattern in expectedOutput: '('"));
}

#[test]
fn failed_post_command_is_recorded() {
    let r = post_command_record(Err(GraftError::command("boom".to_owned())));
    assert_eq!(r.command_type, "command");
    assert!(!r.success);
    assert_eq!(r.output, "");
    assert_eq!(r.error, Some("Command error: boom".to_owned()));
}
