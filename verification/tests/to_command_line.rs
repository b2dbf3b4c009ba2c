use tixgraft::command_line_of;
use tixgraft::system::mock::MockSystem;
use tixgraft::cli::{PullConfig, ReplacementConfig};
use tixgraft::config::context::ContextValues;
use tixgraft::config::Config;
use tixgraft::operations::to_command_line::{
    build_command_args, format_replacement, generate_command_line, shell_escape, OutputFormat,
};

fn pull(source: &str, target: &str, pull_type: &str) -> PullConfig {
    PullConfig {
        source: source.to_owned(),
        target: target.to_owned(),
        pull_type: pull_type.to_owned(),
        repository: None,
        tag: None,
        reset: false,
        require_clean_target: true,
        must_succeed: true,
        commands: vec![],
        replacements: vec![],
        context: ContextValues::new(),
    }
}

fn config(repository: &str, tag: Option<&str>, pulls: Vec<PullConfig>) -> Config {
    Config {
        repository: Some(repository.to_owned()),
        tag: tag.map(|t| t.to_owned()),
        context: ContextValues::new(),
        pulls,
        children: Vec::new(),
        process_children_first: false,
    }
}

#[test]
fn shell_escape_simple() {
    assert_eq!(shell_escape("simple"), "simple");
    assert_eq!(shell_escape("path/to/file"), "path/to/file");
    assert_eq!(shell_escape("file.txt"), "file.txt");
    assert_eq!(shell_escape("repo-name"), "repo-name");
}

#[test]
fn shell_escape_special_chars() {
    assert_eq!(shell_escape("has space"), r#""has space""#);
    assert_eq!(shell_escape("has$dollar"), r#""has\$dollar""#);
    assert_eq!(shell_escape(r#"has"quote"#), r#""has\"quote""#);
    assert_eq!(shell_escape("back\\slash"), r#""back\\slash""#);
}

#[test]
fn format_replacement_tst() {
    let repl_static = ReplacementConfig {
        source: "{{VAR}}".to_owned(),
        target: Some("value".to_owned()),
        value_from_env: None,
    };
    assert_eq!(format_replacement(&repl_static), "{{VAR}}=value");

    let repl_env = ReplacementConfig {
        source: "{{VAR}}".to_owned(),
        target: None,
        value_from_env: Some("MY_ENV".to_owned()),
    };
    assert_eq!(format_replacement(&repl_env), "{{VAR}}=env:MY_ENV");
}

#[test]
fn output_format_from_str() {
    assert_eq!("shell".parse::<OutputFormat>().unwrap(), OutputFormat::Shell);
    assert_eq!("json".parse::<OutputFormat>().unwrap(), OutputFormat::Json);
    assert_eq!("SHELL".parse::<OutputFormat>().unwrap(), OutputFormat::Shell);
    "invalid".parse::<OutputFormat>().unwrap_err();
}

#[test]
fn build_command_args_basic() {
    let config = config("my_organization/repo", Some("main"), vec![pull("src", "dst", "directory")]);
    let args = build_command_args(&config);
    assert_eq!(args[0], "tixgraft");
    assert!(args.contains(&"--repository".to_owned()));
    assert!(args.contains(&"my_organization/repo".to_owned()));
    assert!(args.contains(&"--tag".to_owned()));
    assert!(args.contains(&"main".to_owned()));
    assert!(args.contains(&"--pull-source".to_owned()));
    assert!(args.contains(&"src".to_owned()));
    assert!(args.contains(&"--pull-target".to_owned()));
    assert!(args.contains(&"dst".to_owned()));
}

#[test]
fn build_command_args_with_reset() {
    let mut p = pull("src", "dst", "directory");
    p.reset = true;
    let config = config("my_organization/repo", None, vec![p]);
    let args = build_command_args(&config);
    assert!(args.contains(&"--pull-reset".to_owned()));
}

#[test]
fn build_command_args_with_replacements() {
    let mut p = pull("src", "dst", "directory");
    p.replacements = vec![
        ReplacementConfig {
            source: "{{VAR1}}".to_owned(),
            target: Some("value1".to_owned()),
            value_from_env: None,
        },
        ReplacementConfig {
            source: "{{VAR2}}".to_owned(),
            target: None,
            value_from_env: Some("MY_ENV".to_owned()),
        },
    ];
    let config = config("my_organization/repo", None, vec![p]);
    let args = build_command_args(&config);
    assert!(args.contains(&"--pull-replacement".to_owned()));
    assert!(args.contains(&"{{VAR1}}=value1".to_owned()));
    assert!(args.contains(&"{{VAR2}}=env:MY_ENV".to_owned()));
}

#[test]
fn multiline_command() {
    let mut p = pull("src", "dst", "directory");
    p.commands = vec!["echo 'line1'\necho 'line2'".to_owned()];
    let config = config("repo", None, vec![p]);
    let result = generate_command_line(&config, OutputFormat::Shell);
    assert!(result.is_ok());
    let output = result.unwrap();
    assert!(output.contains("--pull-commands"));
}

#[test]
fn replacement_with_special_chars() {
    let replacement = ReplacementConfig {
        source: "{{VAR}}".to_owned(),
        target: Some(r#"value with "quotes" and $vars"#.to_owned()),
        value_from_env: None,
    };
    let formatted = format_replacement(&replacement);
    assert_eq!(formatted, r#"{{VAR}}=value with "quotes" and $vars"#);
    let escaped = shell_escape(&formatted);
    assert!(escaped.contains(r#"\""#));
    assert!(escaped.contains(r"\$"));
}

#[test]
fn replacement_with_newlines() {
    let replacement = ReplacementConfig {
        source: "{{VAR}}".to_owned(),
        target: Some("line1\nline2".to_owned()),
        value_from_env: None,
    };
    let formatted = format_replacement(&replacement);
    assert_eq!(formatted, "{{VAR}}=line1\nline2");
    let escaped = shell_escape(&formatted);
    assert!(escaped.starts_with('"'));
    assert!(escaped.ends_with('"'));
}

#[test]
fn empty_pulls_array() {
    let config = config("my_organization/repo", Some("main"), vec![]);
    let args = build_command_args(&config);
    assert_eq!(args[0], "tixgraft");
    assert!(args.contains(&"--repository".to_owned()));
    assert!(args.contains(&"my_organization/repo".to_owned()));
}

#[test]
fn path_with_spaces() {
    let config = config(
        "my_organization/repo",
        None,
        vec![pull("src with spaces", "dst with spaces", "directory")],
    );
    let result = generate_command_line(&config, OutputFormat::Shell);
    assert!(result.is_ok());
    let output = result.unwrap();
    assert!(output.contains(r#""src with spaces""#));
    assert!(output.contains(r#""dst with spaces""#));
}

#[test]
fn file_type_pull() {
    let config = config("my_organization/repo", None, vec![pull("file.txt", "output.txt", "file")]);
    let args = build_command_args(&config);
    assert!(args.contains(&"--pull-type".to_owned()));
    assert!(args.contains(&"file".to_owned()));
}

#[test]
fn per_pull_overrides() {
    let first = pull("src1", "dst1", "directory");
    let mut second = pull("src2", "dst2", "directory");
    second.repository = Some("per-pull/repo".to_owned());
    second.tag = Some("v2".to_owned());
    let config = config("global/repo", Some("v1"), vec![first, second]);
    let args = build_command_args(&config);
    assert!(args.contains(&"--pull-repository".to_owned()));
    assert!(args.contains(&"per-pull/repo".to_owned()));
    assert!(args.contains(&"--pull-tag".to_owned()));
    assert!(args.contains(&"v2".to_owned()));
}

#[test]
fn must_succeed_true_not_emitted() {
    let config = config("my_organization/repo", None, vec![pull("src", "dst", "directory")]);
    let args = build_command_args(&config);
    assert!(!args.contains(&"--pull-must-succeed".to_owned()));
}

#[test]
fn must_succeed_false_emitted() {
    let mut p = pull("src", "dst", "directory");
    p.must_succeed = false;
    let config = config("my_organization/repo", None, vec![p]);
    let args = build_command_args(&config);
    assert!(args.contains(&"--pull-must-succeed".to_owned()));
    assert!(args.contains(&"false".to_owned()));
}

#[test]
fn json_format_lists_arguments() {
    let config = config("my_organization/repo", None, vec![]);
    let output = generate_command_line(&config, OutputFormat::Json).unwrap();
    assert!(output.starts_with('['));
    assert!(output.contains("\"tixgraft\""));
    assert!(output.contains("\"--repository\""));
}

#[test]
fn shell_escape_quotes_empty_text() {
    assert_eq!(shell_escape(""), "\"\"");
}

#[test]
fn shell_escape_leaves_exclamation_unescaped() {
    assert_eq!(shell_escape("a!b"), "\"a!b\"");
    assert_eq!(shell_escape("a`b"), "\"a\\`b\"");
}

#[test]
fn reset_is_a_switch_without_value() {
    let mut p = pull("src", "dst", "directory");
    p.reset = true;
    let config = config("org/repo", None, vec![p]);
    let args = build_command_args(&config);
    assert_eq!(
        args,
        vec!["tixgraft", "--repository", "org/repo", "--pull-source", "src", "--pull-target", "dst", "--pull-reset"]
    );
    assert!(!args.contains(&"true".to_owned()));
}

#[test]
fn shell_output_quotes_values_with_special_characters() {
    let mut p = pull("a b", "$HOME/x", "directory");
    p.commands = vec!["echo \"hi\"".to_owned(), String::new()];
    let config = config("org/repo", None, vec![p]);
    let output = generate_command_line(&config, OutputFormat::Shell).unwrap();
    let expected = [
        "tixgraft",
        "  --repository \"org/repo\"",
        "  --pull-source \"a b\"",
        "  --pull-target \"\\$HOME/x\"",
        "  --pull-commands \"echo \\\"hi\\\"\"",
        "  --pull-commands \"\"",
    ]
    .join(" \\\n");
    assert_eq!(output, expected);
}

#[test]
fn shell_output_of_documented_example() {
    let mut p = pull("kubernetes/base", "./k8s", "directory");
    p.reset = true;
    p.replacements = vec![ReplacementConfig {
        source: "{{APP_NAME}}".to_owned(),
        target: Some("my-app".to_owned()),
        value_from_env: None,
    }];
    let config = config("myorg/templates", Some("v1.0.0"), vec![p]);
    let output = generate_command_line(&config, OutputFormat::Shell).unwrap();
    let expected = [
        "tixgraft",
        "  --repository \"myorg/templates\"",
        "  --tag \"v1.0.0\"",
        "  --pull-source \"kubernetes/base\"",
        "  --pull-target \"./k8s\"",
        "  --pull-reset",
        "  --pull-replacement \"{{APP_NAME}}=my-app\"",
    ]
    .join(" \\\n");
    assert_eq!(output, expected);
}

#[test]
fn json_output_is_a_pretty_array() {
    let config = config("org/repo", None, vec![]);
    let output = generate_command_line(&config, OutputFormat::Json).unwrap();
    assert_eq!(output, "[\n  \"tixgraft\",\n  \"--repository\",\n  \"org/repo\"\n]");
}

#[test]
fn execution_flags_are_never_emitted() {
    let mut p = pull("src", "dst", "directory");
    p.commands = vec!["make".to_owned()];
    let config = config("org/repo", Some("main"), vec![p]);
    let args = build_command_args(&config);
    assert!(!args.contains(&"--config".to_owned()));
    assert!(!args.contains(&"--dry-run".to_owned()));
    assert!(!args.contains(&"--verbose".to_owned()));
    assert_eq!(args.len() % 2, 1);
}

#[test]
fn command_line_of_applies_overrides_before_formatting() {
    let system = MockSystem::new();
    let config = config("org/repo", Some("main"), vec![pull("src", "dst", "directory")]);
    let out = command_line_of(&system, config, OutputFormat::Json, Some("other/repo".to_owned()), None).unwrap();
    assert!(out.contains("\"other/repo\""));
    assert!(!out.contains("\"org/repo\""));
    assert!(out.contains("\"main\""));
}

#[test]
fn json_output_escapes_quotes_backslashes_and_controls() {
    let mut p = pull("s", "t", "directory");
    p.commands = vec!["say \"hi\"\\\n\u{1}".to_owned()];
    let config = config("o/r", None, vec![p]);
    let output = generate_command_line(&config, OutputFormat::Json).unwrap();
    assert!(output.ends_with("\"--pull-commands\",\n  \"say \\\"hi\\\"\\\\\\n\\u0001\"\n]"));
}
