//! Post-commands of `.graft.yaml` files: simple commands, and choices that
//! run the first option whose test output matches its pattern. Commands run
//! in the directory of the `.graft.yaml` (or a directory relative to it).

use vstd::prelude::*;
use crate::config::graft_yaml::{ChoiceOption, PostCommand, TestCommand};
use crate::error::{display_prefix, ErrorKind, GraftError, IoError};
use crate::git::repository::io_to_graft;
use crate::path::{is_absolute, join, path_is_absolute, path_join};
use crate::patterns::{regex_is_match, regex_match};
use crate::cli::args::opt_view;
use crate::system::{
    dir_view, lemma_prefix_append, lemma_prefix_trans, present, run_request, ProcessOutput, ProcessRunner, RunRequest,
    System,
};
use crate::text::{owned, string_views};

verus! {

/// Result of executing a post-command.
#[derive(Debug)]
pub struct ExecutionResult {
    pub command_type: String,
    pub success: bool,
    pub output: String,
    pub error: Option<String>,
}

/// The message of a working directory that does not exist.
pub open spec fn missing_working_dir_message(dir: Seq<char>) -> Seq<char> {
    "Working directory does not exist: "@ + dir
}

/// A relative working directory, resolved below the graft directory, given
/// whether the system says it exists (an error counts as no).
pub fn existing_working_dir(resolved: String, exists: Result<bool, IoError>) -> (r: Result<String, GraftError>)
    ensures
        exists == Ok::<bool, IoError>(true) ==> (r matches Ok(d) && d@ == resolved@),
        exists != Ok::<bool, IoError>(true) ==> (r matches Err(e) && e.is(
            ErrorKind::Configuration,
            missing_working_dir_message(resolved@),
        )),
{
    let found = match exists {
        Ok(b) => b,
        Err(_) => false,
    };
    if !found {
        let mut m = owned("Working directory does not exist: ");
        m.append(resolved.as_str());
        return Err(GraftError::configuration(m));
    }
    Ok(resolved)
}

/// The directory a post-command with working directory `cwd` runs in: the
/// graft directory when none is given, an absolute one as it is, a relative
/// one below the graft directory.
pub open spec fn post_working_dir(cwd: Option<Seq<char>>, graft_directory: Seq<char>) -> Seq<char> {
    match cwd {
        None => graft_directory,
        Some(c) => if is_absolute(c) {
            c
        } else {
            join(graft_directory, c)
        },
    }
}

/// Resolve the working directory of a command: the graft directory when
/// none is given, an absolute one as it is, a relative one below the graft
/// directory (which must exist).
pub fn resolve_working_directory<S: System>(system: &S, cwd: Option<&str>, graft_directory: &str) -> (r: Result<
    String,
    GraftError,
>)
    ensures
        r matches Ok(d) ==> d@ == post_working_dir(dir_view(cwd), graft_directory@),
        S::keeps_model() && cwd is Some && !is_absolute(cwd->Some_0@) && !present(
            system,
            join(graft_directory@, cwd->Some_0@),
        ) ==> r is Err,
        r is Err ==> cwd is Some && !is_absolute(cwd->Some_0@),
        cwd is None ==> (r matches Ok(d) && d@ == graft_directory@),
        cwd is Some && is_absolute(cwd->Some_0@) ==> (r matches Ok(d) && d@ == cwd->Some_0@),
        cwd is Some && !is_absolute(cwd->Some_0@) ==> (r matches Ok(d) && d@ == join(
            graft_directory@,
            cwd->Some_0@,
        )) || (r matches Err(e) && e.is(
            ErrorKind::Configuration,
            missing_working_dir_message(join(graft_directory@, cwd->Some_0@)),
        )),
{
    match cwd {
        Some(c) => {
            if path_is_absolute(c) {
                return Ok(owned(c));
            }
            let resolved = path_join(graft_directory, c);
            let exists = system.path_exists(resolved.as_str());
            existing_working_dir(resolved, exists)
        },
        None => Ok(owned(graft_directory)),
    }
}

/// The message of a program that could not be started.
pub open spec fn run_failure_message(label: Seq<char>, command: Seq<char>, working_dir: Seq<char>, detail: Seq<char>) -> Seq<char> {
    "Failed to execute "@ + label + " '"@ + command + "' in directory '"@ + working_dir + "': "@ + detail
}

/// The result of a post-command, given what running its program gave: its
/// success and standard output, with its error output when there is any;
/// or an error when the program could not be started.
pub fn execution_result(
    kind: &str,
    label: &str,
    command: &str,
    working_dir: &str,
    launched: Result<ProcessOutput, IoError>,
) -> (r: Result<ExecutionResult, GraftError>)
    ensures
        match launched {
            Ok(out) => r matches Ok(res) && res.command_type@ == kind@ && res.success == out.success
                && res.output@ == out.stdout@ && (if out.stderr@.len() == 0 {
                res.error is None
            } else {
                res.error matches Some(t) && t@ == out.stderr@
            }),
            Err(e) => r matches Err(g) && g.is(
                ErrorKind::Other,
                run_failure_message(label@, command@, working_dir@, e.message@),
            ),
        },
{
    match launched {
        Ok(out) => {
            let empty = out.stderr.as_str().is_empty();
            Ok(
                ExecutionResult {
                    command_type: owned(kind),
                    success: out.success,
                    output: out.stdout,
                    error: if empty {
                        None
                    } else {
                        Some(out.stderr)
                    },
                },
            )
        },
        Err(e) => {
            let mut m = owned("Failed to execute ");
            m.append(label);
            m.append(" '");
            m.append(command);
            m.append("' in directory '");
            m.append(working_dir);
            m.append("': ");
            m.append(e.message.as_str());
            Err(GraftError::other(m))
        },
    }
}

/// Run a program in a directory and collect what it left.
fn run_in<P: ProcessRunner>(
    runner: &mut P,
    kind: &str,
    label: &str,
    command: &str,
    args: &[String],
    working_dir: &str,
) -> (r: Result<ExecutionResult, GraftError>)
    ensures
        r matches Ok(res) ==> res.command_type@ == kind@,
        final(runner).requests() == old(runner).requests().push(run_request(command@, args@, Some(working_dir), false)),
        final(runner).on_windows() == old(runner).on_windows(),
{
    let launched = runner.run(command, args, Some(working_dir));
    execution_result(kind, label, command, working_dir, launched)
}

/// Execute a test command (for choice conditions).
fn execute_test_command<S: System, P: ProcessRunner>(
    system: &S,
    runner: &mut P,
    test: &TestCommand,
    graft_directory: &str,
) -> (r: Result<ExecutionResult, GraftError>)
    ensures
        r matches Ok(res) ==> res.command_type@ == "test"@,
        final(runner).requests() == old(runner).requests().push(post_request(test.command@, test.args@, test.cwd, graft_directory@))
            || (final(runner).requests() == old(runner).requests() && r is Err),
        final(runner).on_windows() == old(runner).on_windows(),
{
    let cwd: Option<&str> = match &test.cwd {
        Some(c) => Some(c.as_str()),
        None => None,
    };
    assert(dir_view(cwd) == opt_view(test.cwd));
    let working_dir = resolve_working_directory(system, cwd, graft_directory)?;
    run_in(runner, "test", "test command", test.command.as_str(), test.args.as_slice(), working_dir.as_str())
}

/// The run of a post-command program with arguments `args` and working
/// directory `cwd`, below the graft directory `dir`.
pub open spec fn post_request(program: Seq<char>, args: Seq<String>, cwd: Option<String>, dir: Seq<char>) -> RunRequest {
    (program, string_views(args), Some(post_working_dir(opt_view(cwd), dir)), false)
}

/// The runs of the tests of the options, in order.
pub open spec fn test_requests(options: Seq<ChoiceOption>, dir: Seq<char>) -> Seq<RunRequest> {
    options.map_values(|o: ChoiceOption| post_request(o.test.command@, o.test.args@, o.test.cwd, dir))
}

/// The result of a choice without a matching option.
pub open spec fn no_match_result(r: ExecutionResult) -> bool {
    r.command_type@ == "choice"@ && r.success && r.output@ == "No matching option found"@ && r.error is None
}

/// Some text makes the option's pattern answer `matched`. (Which text the
/// option's test printed is the runner's answer; this says only that the
/// pattern gives that answer on some text.)
pub open spec fn pattern_gives(o: ChoiceOption, matched: bool) -> bool {
    exists|out: Seq<char>| #[trigger] regex_match(o.expected_output@, out) == Ok::<bool, Seq<char>>(matched)
}

/// The option at `i` was taken as the first match: its pattern matched a
/// text (its test's output), and the pattern of each earlier option did not
/// match a text (that option's test output).
pub open spec fn first_match_at(options: Seq<ChoiceOption>, i: int) -> bool {
    &&& pattern_gives(options[i], true)
    &&& forall|j: int| 0 <= j < i ==> pattern_gives(#[trigger] options[j], false)
}

/// The message of an `expectedOutput` pattern that does not compile.
pub open spec fn invalid_pattern_message(pattern: Seq<char>, detail: Seq<char>) -> Seq<char> {
    "Invalid regex pattern in expectedOutput: '"@ + pattern + "': "@ + detail
}

/// Whether a choice option is taken, given what its test printed: whether
/// its `expectedOutput` pattern matches the output anywhere, or the error of
/// a pattern that does not compile.
pub fn choice_decision(expected_output: &str, test_output: &str) -> (r: Result<bool, GraftError>)
    ensures
        match regex_match(expected_output@, test_output@) {
            Ok(b) => r == Ok::<bool, GraftError>(b),
            Err(m) => r matches Err(e) && e.is(ErrorKind::Other, invalid_pattern_message(expected_output@, m)),
        },
{
    match regex_is_match(expected_output, test_output) {
        Ok(b) => Ok(b),
        Err(e) => {
            let mut m = owned("Invalid regex pattern in expectedOutput: '");
            m.append(expected_output);
            m.append("': ");
            m.append(e.as_str());
            Err(GraftError::other(m))
        },
    }
}

/// The result recorded for a post-command, given what executing it gave:
/// its result, or a failed `command` result carrying the error's text.
pub fn post_command_record(outcome: Result<ExecutionResult, GraftError>) -> (r: ExecutionResult)
    ensures
        is_record_of(r, outcome),
{
    match outcome {
        Ok(res) => res,
        Err(err) => ExecutionResult {
            command_type: owned("command"),
            success: false,
            output: String::new(),
            error: Some(err.display()),
        },
    }
}

/// What executing a post-command in the graft directory `dir` asked of the
/// runner (from the runs `before` to the runs `after`) and gave: a command
/// runs its program once in its working directory, or fails before that
/// when the directory is missing; a choice that succeeds runs the tests of
/// its options in order, and either none matched (all tests ran, and the
/// result says so) or the first that matched is taken: after the tests up
/// to it, its `onMatch` command was executed as this says of it, and gave
/// the choice's result.
pub open spec fn post_command_done(
    command: PostCommand,
    dir: Seq<char>,
    before: Seq<RunRequest>,
    after: Seq<RunRequest>,
    r: Result<ExecutionResult, GraftError>,
) -> bool
    decreases command,
{
    &&& before.is_prefix_of(after)
    &&& match command {
        PostCommand::Command { command: c, args, cwd } => (after == before.push(post_request(c@, args@, cwd, dir)) && (
        r matches Ok(res) ==> res.command_type@ == "command"@)) || (after == before && (r matches Err(e) && e.is(
            ErrorKind::Configuration,
            missing_working_dir_message(post_working_dir(opt_view(cwd), dir)),
        ))),
        PostCommand::Choice { options } => r is Ok ==> ((no_match_result(r->Ok_0) && (forall|j: int|
            0 <= j < options@.len() ==> pattern_gives(#[trigger] options@[j], false)) && after == before
            + test_requests(options@, dir)) || exists|i: int|
            0 <= i < options@.len() && #[trigger] first_match_at(options@, i) && post_command_done(
                *options@[i].on_match,
                dir,
                before + test_requests(options@.take(i + 1), dir),
                after,
                r,
            )),
    }
}

/// `record` is what is kept of a post-command that gave `outcome`: its
/// result, or a failed `command` result carrying the error's text.
pub open spec fn is_record_of(record: ExecutionResult, outcome: Result<ExecutionResult, GraftError>) -> bool {
    match outcome {
        Ok(x) => record == x,
        Err(e) => record.command_type@ == "command"@ && !record.success && record.output@.len() == 0
            && (record.error matches Some(t) && t@ == display_prefix(e.kind_of()) + e.message_of()),
    }
}

/// The post-commands ran in order: the `i`-th went from the runs `marks[i]`
/// to `marks[i + 1]`, gave `outcomes[i]`, and `results[i]` is its record.
pub open spec fn post_commands_trace(
    commands: Seq<PostCommand>,
    dir: Seq<char>,
    marks: Seq<Seq<RunRequest>>,
    outcomes: Seq<Result<ExecutionResult, GraftError>>,
    results: Seq<ExecutionResult>,
) -> bool {
    &&& marks.len() == commands.len() + 1
    &&& outcomes.len() == commands.len()
    &&& results.len() == commands.len()
    &&& forall|i: int|
        0 <= i < commands.len() ==> post_command_done(#[trigger] commands[i], dir, marks[i], marks[i + 1], outcomes[i])
            && is_record_of(results[i], outcomes[i])
}

proof fn lemma_test_requests_step(options: Seq<ChoiceOption>, dir: Seq<char>, before: Seq<RunRequest>, k: int)
    requires
        0 <= k < options.len(),
    ensures
        before + test_requests(options.take(k + 1), dir) == (before + test_requests(options.take(k), dir)).push(
            post_request(options[k].test.command@, options[k].test.args@, options[k].test.cwd, dir),
        ),
{
    assert(options.take(k + 1) =~= options.take(k).push(options[k]));
    assert(test_requests(options.take(k + 1), dir) =~= test_requests(options.take(k), dir).push(
        post_request(options[k].test.command@, options[k].test.args@, options[k].test.cwd, dir),
    ));
    assert(before + test_requests(options.take(k + 1), dir) =~= (before + test_requests(options.take(k), dir)).push(
        post_request(options[k].test.command@, options[k].test.args@, options[k].test.cwd, dir),
    ));
}

/// Execute a single post-command: a command runs in its working directory;
/// a choice runs each option's test in order and executes the `onMatch`
/// command of the first whose output matches the `expectedOutput` pattern
/// (see [`post_command_done`]).
pub fn execute_post_command<S: System, P: ProcessRunner>(
    system: &S,
    runner: &mut P,
    command: &PostCommand,
    graft_directory: &str,
) -> (r: Result<ExecutionResult, GraftError>)
    ensures
        post_command_done(*command, graft_directory@, old(runner).requests(), final(runner).requests(), r),
        final(runner).on_windows() == old(runner).on_windows(),
        command matches PostCommand::Choice { options } && options@.len() == 0 ==> (r matches Ok(res)
            && no_match_result(res)),
    decreases command,
{
    match command {
        PostCommand::Command { command, args, cwd } => {
            let c: Option<&str> = match cwd {
                Some(d) => Some(d.as_str()),
                None => None,
            };
            assert(dir_view(c) == opt_view(*cwd));
            let working_dir = match resolve_working_directory(system, c, graft_directory) {
                Ok(d) => d,
                Err(e) => {
                    proof {
                        lemma_prefix_append(runner.requests(), Seq::empty());
                        assert(runner.requests() + Seq::<RunRequest>::empty() =~= runner.requests());
                    }
                    return Err(e);
                },
            };
            let ghost before = runner.requests();
            let r = run_in(runner, "command", "command", command.as_str(), args.as_slice(), working_dir.as_str());
            proof {
                lemma_prefix_append(before, seq![post_request(command@, args@, *cwd, graft_directory@)]);
                assert(before + seq![post_request(command@, args@, *cwd, graft_directory@)] =~= before.push(
                    post_request(command@, args@, *cwd, graft_directory@),
                ));
            }
            r
        },
        PostCommand::Choice { options } => {
            let ghost start = runner.requests();
            let mut i: usize = 0;
            while i < options.len()
                invariant
                    i <= options.len(),
                    command is Choice,
                    command->options == *options,
                    forall|j: int| 0 <= j < i ==> pattern_gives(#[trigger] options@[j], false),
                    forall|j: int| 0 <= j < options.len() ==> decreases_to!(*command => (#[trigger] options@[j]).on_match),
                    start == old(runner).requests(),
                    runner.requests() == start + test_requests(options@.take(i as int), graft_directory@),
                    runner.on_windows() == old(runner).on_windows(),
                decreases options.len() - i,
            {
                let option = &options[i];
                proof {
                    lemma_test_requests_step(options@, graft_directory@, start, i as int);
                    lemma_prefix_append(start, test_requests(options@.take(i as int), graft_directory@));
                    lemma_prefix_append(start, test_requests(options@.take(i as int + 1), graft_directory@));
                }
                let test_result = match execute_test_command(system, runner, &option.test, graft_directory) {
                    Ok(t) => t,
                    Err(e) => return Err(e),
                };
                let matched = match choice_decision(option.expected_output.as_str(), test_result.output.as_str()) {
                    Ok(b) => b,
                    Err(e) => return Err(e),
                };
                if matched {
                    assert(first_match_at(options@, i as int));
                    assert(decreases_to!(*command => options@[i as int].on_match));
                    let ghost mid = runner.requests();
                    let r = execute_post_command(system, runner, &option.on_match, graft_directory);
                    proof {
                        lemma_prefix_trans(start, mid, runner.requests());
                    }
                    return r;
                }
                i = i + 1;
            }
            proof {
                assert(options@.take(i as int) =~= options@);
            }
            Ok(
                ExecutionResult {
                    command_type: owned("choice"),
                    success: true,
                    output: owned("No matching option found"),
                    error: None,
                },
            )
        },
    }
}

/// The post-commands ran in order in `dir`, from the runs `before` to the
/// runs `after` (see [`post_commands_trace`]).
pub open spec fn post_commands_ran(commands: Seq<PostCommand>, dir: Seq<char>, before: Seq<RunRequest>, after: Seq<RunRequest>) -> bool {
    exists|marks: Seq<Seq<RunRequest>>, outcomes: Seq<Result<ExecutionResult, GraftError>>, results: Seq<ExecutionResult>|
        #[trigger] post_commands_trace(commands, dir, marks, outcomes, results) && marks[0] == before
            && marks[commands.len() as int] == after
}

/// Execute all post-commands in order. Every command runs even when one
/// fails; a command that could not run gives a failed result carrying the
/// error's text (see [`post_commands_trace`]).
pub fn execute_post_commands<S: System, P: ProcessRunner>(
    system: &S,
    runner: &mut P,
    commands: &[PostCommand],
    graft_directory: &str,
) -> (r: Result<Vec<ExecutionResult>, GraftError>)
    ensures
        r matches Ok(results) && results@.len() == commands@.len(),
        r matches Ok(results) ==> exists|marks: Seq<Seq<RunRequest>>, outcomes: Seq<Result<ExecutionResult, GraftError>>|
            marks.len() == commands@.len() + 1 && marks[0] == old(runner).requests() && marks[commands@.len() as int]
                == final(runner).requests() && #[trigger] post_commands_trace(
                commands@,
                graft_directory@,
                marks,
                outcomes,
                results@,
            ),
        r matches Ok(results) ==> forall|i: int|
            0 <= i < commands@.len() && (#[trigger] commands@[i]) is Command ==> results@[i].command_type@
                == "command"@,
        final(runner).on_windows() == old(runner).on_windows(),
        old(runner).requests().is_prefix_of(final(runner).requests()),
        r is Ok ==> post_commands_ran(commands@, graft_directory@, old(runner).requests(), final(runner).requests()),
{
    let mut results: Vec<ExecutionResult> = Vec::new();
    proof {
        lemma_prefix_append(runner.requests(), Seq::empty());
        assert(runner.requests() + Seq::<RunRequest>::empty() =~= runner.requests());
    }
    let ghost mut marks: Seq<Seq<RunRequest>> = seq![runner.requests()];
    let ghost mut outcomes: Seq<Result<ExecutionResult, GraftError>> = Seq::empty();
    let mut i: usize = 0;
    while i < commands.len()
        invariant
            i <= commands.len(),
            results@.len() == i,
            marks.len() == i + 1,
            marks[0] == old(runner).requests(),
            marks[i as int] == runner.requests(),
            runner.on_windows() == old(runner).on_windows(),
            old(runner).requests().is_prefix_of(runner.requests()),
            outcomes.len() == i,
            forall|k: int|
                0 <= k < i ==> post_command_done(#[trigger] commands@[k], graft_directory@, marks[k], marks[k + 1], outcomes[k])
                    && is_record_of(results@[k], outcomes[k]),
            forall|k: int|
                0 <= k < i && (#[trigger] commands@[k]) is Command ==> results@[k].command_type@ == "command"@,
        decreases commands.len() - i,
    {
        let ghost mid = runner.requests();
        let outcome = execute_post_command(system, runner, &commands[i], graft_directory);
        proof {
            lemma_prefix_trans(old(runner).requests(), mid, runner.requests());
        }
        let ghost seen = outcome;
        let result = post_command_record(outcome);
        results.push(result);
        proof {
            marks = marks.push(runner.requests());
            outcomes = outcomes.push(seen);
        }
        i = i + 1;
    }
    assert(post_commands_trace(commands@, graft_directory@, marks, outcomes, results@));
    assert(post_commands_ran(commands@, graft_directory@, old(runner).requests(), runner.requests()));
    Ok(results)
}

} // verus!
