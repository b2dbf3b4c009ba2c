# tixgraft

A command-line tool that fetches reusable components from Git repositories
(sparse checkout of one file or directory), copies them into a workspace,
fills placeholders from static values, environment variables or context
values, and runs post-processing commands.

The library (`src/`) is verified with Verus. It reaches the outside world
only through three services that the program provides:

- `system::System` for the environment and the filesystem. An
  implementation may keep a model of the files and directories, and the
  contracts then say what each operation and each pull does to it
  (`system::mock::MockSystem`, in memory and verified, keeps one; the
  program's implementation over the real filesystem does not);
- `system::ProcessRunner` for `git` and commands: a runner keeps the runs
  asked of it, in order (`system::HostRunner` over the operating system,
  `system::scripted::ScriptedRunner` for tests), so the contracts say which
  programs run, with which arguments, where, and in which order;
- `config::ConfigParser` for YAML texts.

What the library decides (configuration checks, context validation and
coercion, replacement values, the command-line form of a configuration,
discovery of `.graft.yaml` files, the order of operations, error messages and
exit codes) is stated in contracts over mathematical models and proved for
whatever the services give back.

Layout:

- `src/cli`, `src/config`: arguments, configuration, context, `.graft.yaml`
  and their checks;
- `src/operations`: pulls, copying, replacements, commands, discovery,
  post-commands, skill files, command-line output;
- `src/git`: repository sources and sparse checkout;
- `src/path.rs`, `src/text.rs`, `src/json.rs`, `src/utils`: models of paths,
  text and JSON values with their executable counterparts;
- `src/patterns.rs`, parts of `src/json.rs`: the calls into `regex` and
  `serde_json`, each behind a wrapper whose contract names its result;
- `app/`: the program (command line with `clap`, the real filesystem and
  processes, YAML with `serde_yaml`, logging);
- `tests/`: tests of the library.
