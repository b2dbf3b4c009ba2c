//! Running the commands of a pull in its target directory, and checking
//! commands before they run.

use vstd::prelude::*;
use crate::error::{ErrorKind, GraftError, IoError};
use crate::json::{int_number, number_text, number_to_string, JsonNumber};
use crate::system::{present, ProcessOutput, ProcessRunner, RunRequest, System};
use crate::text::{
    decimal, index_label, is_blank, lowercase, owned, seq_contains, seq_starts_with, str_contains, str_is_blank,
    string_views, to_lowercase, trim_str, trimmed,
};

verus! {

/// Information about command validation.
#[derive(Debug)]
pub struct CommandValidation {
    pub command: String,
    pub command_number: usize,
    pub is_valid: bool,
    pub potential_issues: Vec<String>,
}

/// Patterns of potentially destructive commands.
pub open spec fn danger_patterns() -> Seq<Seq<char>> {
    seq!["rm -rf"@, "rm -f"@, "format"@, "mkfs"@, "dd if="@, ":(){ :|:& };:"@, "sudo rm"@]
}

/// Patterns of commands that may reach the network.
pub open spec fn network_patterns() -> Seq<Seq<char>> {
    seq!["curl"@, "wget"@, "nc "@, "netcat"@]
}

fn danger_pattern(i: usize) -> (r: &'static str)
    requires
        i < 7,
    ensures
        r@ == danger_patterns()[i as int],
{
    if i == 0 { "rm -rf" }
    else if i == 1 { "rm -f" }
    else if i == 2 { "format" }
    else if i == 3 { "mkfs" }
    else if i == 4 { "dd if=" }
    else if i == 5 { ":(){ :|:& };:" }
    else { "sudo rm" }
}

fn network_pattern(i: usize) -> (r: &'static str)
    requires
        i < 4,
    ensures
        r@ == network_patterns()[i as int],
{
    if i == 0 { "curl" }
    else if i == 1 { "wget" }
    else if i == 2 { "nc " }
    else { "netcat" }
}

/// One issue for each destructive pattern that the lowercased command holds.
pub open spec fn danger_issues(l: Seq<char>, pats: Seq<Seq<char>>) -> Seq<Seq<char>>
    decreases pats.len(),
{
    if pats.len() == 0 {
        Seq::empty()
    } else {
        danger_issues(l, pats.drop_last()) + if seq_contains(l, lowercase(pats.last())) {
            seq!["Contains potentially destructive command: "@ + pats.last()]
        } else {
            Seq::empty()
        }
    }
}

/// Does the lowercased command hold one of the patterns?
pub open spec fn mentions_any(l: Seq<char>, pats: Seq<Seq<char>>) -> bool {
    exists|i: int| 0 <= i < pats.len() && seq_contains(l, lowercase(#[trigger] pats[i]))
}

/// The issues found in a command, in order: destructive patterns, network
/// access, script execution.
pub open spec fn safety_issues(cmd: Seq<char>) -> Seq<Seq<char>> {
    let l = lowercase(cmd);
    danger_issues(l, danger_patterns()) + (if mentions_any(l, network_patterns()) {
        seq!["Command may access network resources"@]
    } else {
        Seq::empty()
    }) + (if seq_contains(cmd, "eval"@) || seq_contains(cmd, "exec"@) {
        seq!["Command contains script execution which could be risky"@]
    } else {
        Seq::empty()
    })
}

/// Analyze a command for potential security or safety issues.
pub fn analyze_command_safety(command: &str) -> (r: Vec<String>)
    ensures
        string_views(r@) == safety_issues(command@),
{
    let mut issues: Vec<String> = Vec::new();
    let lower = to_lowercase(command);
    let mut i: usize = 0;
    while i < 7
        invariant
            i <= 7,
            lower@ == lowercase(command@),
            string_views(issues@) == danger_issues(lower@, danger_patterns().take(i as int)),
        decreases 7 - i,
    {
        let pattern = danger_pattern(i);
        let lp = to_lowercase(pattern);
        let ghost before = issues@;
        if str_contains(lower.as_str(), lp.as_str()) {
            let mut m = owned("Contains potentially destructive command: ");
            m.append(pattern);
            issues.push(m);
        }
        proof {
            assert(danger_patterns().take(i as int + 1).drop_last() =~= danger_patterns().take(i as int));
            assert(string_views(issues@) =~= danger_issues(lower@, danger_patterns().take(i as int + 1)));
        }
        i = i + 1;
    }
    assert(danger_patterns().take(7) =~= danger_patterns());
    let ghost after_danger = string_views(issues@);
    let mut hit = false;
    let mut j: usize = 0;
    while j < 4 && !hit
        invariant
            j <= 4,
            lower@ == lowercase(command@),
            hit == exists|k: int| 0 <= k < j && seq_contains(lower@, lowercase(#[trigger] network_patterns()[k])),
        decreases 4 - j,
    {
        let lp = to_lowercase(network_pattern(j));
        if str_contains(lower.as_str(), lp.as_str()) {
            hit = true;
        }
        j = j + 1;
    }
    assert(hit == mentions_any(lower@, network_patterns()));
    if hit {
        issues.push(owned("Command may access network resources"));
    }
    assert(string_views(issues@) =~= after_danger + if mentions_any(lower@, network_patterns()) {
        seq!["Command may access network resources"@]
    } else {
        Seq::empty()
    });
    let ghost after_network = string_views(issues@);
    if str_contains(command, "eval") || str_contains(command, "exec") {
        issues.push(owned("Command contains script execution which could be risky"));
    }
    assert(string_views(issues@) =~= safety_issues(command@));
    issues
}

/// Validate commands before execution (for dry run): each command's number
/// (from 1), whether it has anything besides whitespace, and its issues.
pub fn validate_commands(commands: &[String]) -> (r: Result<Vec<CommandValidation>, GraftError>)
    requires
        commands.len() < usize::MAX,
    ensures
        r matches Ok(v) && v.len() == commands.len() && forall|i: int|
            0 <= i < commands.len() ==> {
                &&& (#[trigger] v[i]).command@ == commands[i]@
                &&& v[i].command_number == i + 1
                &&& v[i].is_valid == !is_blank(commands[i]@)
                &&& string_views(v[i].potential_issues@) == safety_issues(commands[i]@)
            },
{
    let mut validations: Vec<CommandValidation> = Vec::new();
    let mut i: usize = 0;
    while i < commands.len()
        invariant
            i <= commands.len(),
            commands.len() < usize::MAX,
            validations.len() == i,
            forall|k: int|
                0 <= k < i ==> {
                    &&& (#[trigger] validations[k]).command@ == commands[k]@
                    &&& validations[k].command_number == k + 1
                    &&& validations[k].is_valid == !is_blank(commands[k]@)
                    &&& string_views(validations[k].potential_issues@) == safety_issues(commands[k]@)
                },
        decreases commands.len() - i,
    {
        let command = &commands[i];
        let validation = CommandValidation {
            command: command.clone(),
            command_number: i + 1,
            is_valid: !str_is_blank(command.as_str()),
            potential_issues: analyze_command_safety(command.as_str()),
        };
        validations.push(validation);
        i = i + 1;
    }
    Ok(validations)
}

/// The shell that runs a command line, and its arguments before the line.
pub fn shell_command(windows: bool) -> (r: (String, Vec<String>))
    ensures
        windows ==> r.0@ == "cmd"@ && string_views(r.1@) == seq!["/C"@],
        !windows ==> r.0@ == "sh"@ && string_views(r.1@) == seq!["-c"@],
{
    let mut args: Vec<String> = Vec::new();
    if windows {
        args.push(owned("/C"));
        assert(string_views(args@) =~= seq!["/C"@]);
        (owned("cmd"), args)
    } else {
        args.push(owned("-c"));
        assert(string_views(args@) =~= seq!["-c"@]);
        (owned("sh"), args)
    }
}

/// The text of an exit code, `-1` when there is none.
pub open spec fn code_text(code: Option<i32>) -> Seq<char> {
    number_text(int_number(match code { Some(c) => c as i64, None => -1i64 }))
}

fn code_to_string(code: Option<i32>) -> (r: String)
    ensures
        r@ == code_text(code),
{
    let c: i64 = match code {
        Some(c) => c as i64,
        None => -1,
    };
    number_to_string(&JsonNumber::from_i64(c))
}

/// The message of a command that failed.
pub open spec fn failure_message(
    number: nat,
    code: Option<i32>,
    command: Seq<char>,
    stderr: Seq<char>,
    stdout: Seq<char>,
    working_dir: Seq<char>,
) -> Seq<char> {
    "Command #"@ + decimal(number) + " failed with exit code "@ + code_text(code) + ": "@ + command
        + "\n"@ + (if is_blank(stderr) {
        Seq::empty()
    } else {
        "Error output:\n"@ + trimmed(stderr) + "\n"@
    }) + (if is_blank(stdout) {
        Seq::empty()
    } else {
        "Standard output:\n"@ + trimmed(stdout) + "\n"@
    }) + "Working directory: "@ + working_dir
}

/// Build the message of a command that failed.
pub fn command_failure_message(
    index: usize,
    code: Option<i32>,
    command: &str,
    stderr: &str,
    stdout: &str,
    working_dir: &str,
) -> (r: String)
    ensures
        r@ == failure_message(index as nat + 1, code, command@, stderr@, stdout@, working_dir@),
{
    let mut m = owned("Command #");
    m.append(index_label(index).as_str());
    m.append(" failed with exit code ");
    m.append(code_to_string(code).as_str());
    m.append(": ");
    m.append(command);
    m.append("\n");
    let ghost head = m@;
    if !str_is_blank(stderr) {
        m.append("Error output:\n");
        m.append(trim_str(stderr).as_str());
        m.append("\n");
    }
    let ghost with_err = m@;
    if !str_is_blank(stdout) {
        m.append("Standard output:\n");
        m.append(trim_str(stdout).as_str());
        m.append("\n");
    }
    m.append("Working directory: ");
    m.append(working_dir);
    proof {
        let e: Seq<char> = if is_blank(stderr@) { Seq::empty() } else { "Error output:\n"@ + trimmed(stderr@) + "\n"@ };
        let o: Seq<char> = if is_blank(stdout@) { Seq::empty() } else { "Standard output:\n"@ + trimmed(stdout@) + "\n"@ };
        assert(with_err =~= head + e);
        assert(m@ =~= head + e + o + "Working directory: "@ + working_dir@);
    }
    m
}

/// The message of a blank command.
pub open spec fn empty_command_message(number: nat) -> Seq<char> {
    "Command #"@ + decimal(number) + " is empty"@
}

fn empty_command_error(index: usize) -> (e: GraftError)
    ensures
        e.is(ErrorKind::Command, empty_command_message(index as nat + 1)),
{
    let mut m = owned("Command #");
    m.append(index_label(index).as_str());
    m.append(" is empty");
    GraftError::command(m)
}

fn launch_error(index: usize, command: &str) -> (e: GraftError)
    ensures
        e.is(ErrorKind::Other, "Failed to execute command #"@ + decimal(index as nat + 1) + ": "@ + command@),
{
    let mut m = owned("Failed to execute command #");
    m.append(index_label(index).as_str());
    m.append(": ");
    m.append(command);
    GraftError::other(m)
}

/// The message of a command that could not be started.
pub open spec fn launch_message(number: nat, command: Seq<char>) -> Seq<char> {
    "Failed to execute command #"@ + decimal(number) + ": "@ + command
}

/// The program and arguments that run a command line through the
/// platform's shell: `sh -c LINE`, or `cmd /C LINE` on Windows.
pub fn shell_invocation(windows: bool, command: &str) -> (r: (String, Vec<String>))
    ensures
        windows ==> r.0@ == "cmd"@ && string_views(r.1@) == seq!["/C"@, command@],
        !windows ==> r.0@ == "sh"@ && string_views(r.1@) == seq!["-c"@, command@],
{
    let (shell, mut args) = shell_command(windows);
    let ghost before = string_views(args@);
    args.push(owned(command));
    assert(string_views(args@) =~= before.push(command@));
    (shell, args)
}

/// The run that executes a command line through the platform's shell in a
/// directory.
pub open spec fn shell_request(windows: bool, command: Seq<char>, working_dir: Seq<char>, attached: bool) -> RunRequest {
    if windows {
        ("cmd"@, seq!["/C"@, command], Some(working_dir), attached)
    } else {
        ("sh"@, seq!["-c"@, command], Some(working_dir), attached)
    }
}

/// The runs that execute the command lines, in order.
pub open spec fn shell_requests(windows: bool, commands: Seq<String>, working_dir: Seq<char>, attached: bool) -> Seq<
    RunRequest,
> {
    commands.map_values(|c: String| shell_request(windows, c@, working_dir, attached))
}

/// Law: with the terminal attached, command lines ask for the same
/// programs, arguments and directories as without, in the same order; only
/// the attached flag differs.
pub proof fn attached_runs_match_plain(windows: bool, commands: Seq<String>, working_dir: Seq<char>)
    ensures
        shell_requests(windows, commands, working_dir, true).len() == shell_requests(
            windows,
            commands,
            working_dir,
            false,
        ).len(),
        forall|i: int|
            0 <= i < commands.len() ==> {
                let a = #[trigger] shell_requests(windows, commands, working_dir, true)[i];
                let p = shell_requests(windows, commands, working_dir, false)[i];
                a.0 == p.0 && a.1 == p.1 && a.2 == p.2 && a.3 && !p.3
            },
{
}

/// How many of the command lines were run when the `k`-th one (from 0)
/// failed: a blank one is not run.
pub open spec fn ran_until(commands: Seq<String>, k: int) -> int {
    if is_blank(commands[k]@) {
        k
    } else {
        k + 1
    }
}

proof fn lemma_shell_requests_step(windows: bool, commands: Seq<String>, working_dir: Seq<char>, attached: bool, k: int)
    requires
        0 <= k < commands.len(),
    ensures
        shell_requests(windows, commands.take(k + 1), working_dir, attached) == shell_requests(
            windows,
            commands.take(k),
            working_dir,
            attached,
        ).push(shell_request(windows, commands[k]@, working_dir, attached)),
{
    assert(commands.take(k + 1) =~= commands.take(k).push(commands[k]));
    assert(shell_requests(windows, commands.take(k + 1), working_dir, attached) =~= shell_requests(
        windows,
        commands.take(k),
        working_dir,
        attached,
    ).push(shell_request(windows, commands[k]@, working_dir, attached)));
}

/// What running the command numbered `number` (from 1) comes to, given what
/// starting it gave: the kind and message of its error, or success.
pub open spec fn plain_outcome(number: nat, command: Seq<char>, working_dir: Seq<char>, launched: Result<
    ProcessOutput,
    IoError,
>) -> Result<(), (ErrorKind, Seq<char>)> {
    match launched {
        Err(_) => Err((ErrorKind::Other, launch_message(number, command))),
        Ok(o) => if o.success {
            Ok(())
        } else {
            Err((ErrorKind::Command, failure_message(number, o.code, command, o.stderr@, o.stdout@, working_dir)))
        },
    }
}

/// What running the command numbered `number` with the terminal attached
/// comes to, given what starting it gave.
pub open spec fn attached_outcome(number: nat, command: Seq<char>, working_dir: Seq<char>, launched: Result<
    ProcessOutput,
    IoError,
>) -> Result<(), (ErrorKind, Seq<char>)> {
    match launched {
        Err(_) => Err((ErrorKind::Other, launch_message(number, command))),
        Ok(o) => if o.success {
            Ok(())
        } else {
            Err((ErrorKind::Command, attached_failure_message(number, o.code, command, working_dir)))
        },
    }
}

/// Law: a command with the terminal attached succeeds exactly when it would
/// succeed without, and fails with an error of the same kind naming the same
/// command number; only the failure message leaves out the output (which
/// went to the terminal).
pub proof fn attached_agrees_with_plain(number: nat, command: Seq<char>, working_dir: Seq<char>, launched: Result<
    ProcessOutput,
    IoError,
>)
    ensures
        plain_outcome(number, command, working_dir, launched) is Ok <==> attached_outcome(
            number,
            command,
            working_dir,
            launched,
        ) is Ok,
        plain_outcome(number, command, working_dir, launched) matches Err(p) ==> attached_outcome(
            number,
            command,
            working_dir,
            launched,
        ) matches Err(a) && p.0 == a.0 && seq_starts_with(p.1, "Command #"@ + decimal(number)) == seq_starts_with(
            a.1,
            "Command #"@ + decimal(number),
        ),
{
    match launched {
        Err(_) => {},
        Ok(o) => {
            if !o.success {
                let head = "Command #"@ + decimal(number);
                let f = failure_message(number, o.code, command, o.stderr@, o.stdout@, working_dir);
                let g = attached_failure_message(number, o.code, command, working_dir);
                assert(f.subrange(0, head.len() as int) =~= head);
                assert(g.subrange(0, head.len() as int) =~= head);
                assert(seq_starts_with(f, head));
                assert(seq_starts_with(g, head));
            }
        },
    }
}

/// What running the `index`-th command (counted from 0) came to, given what
/// starting it gave: an error when it could not be started, an error with
/// its exit code and output when it failed, else success.
pub fn command_result(
    index: usize,
    command: &str,
    working_dir: &str,
    launched: Result<ProcessOutput, IoError>,
) -> (r: Result<(), GraftError>)
    ensures
        match plain_outcome(index as nat + 1, command@, working_dir@, launched) {
            Ok(_) => r is Ok,
            Err((k, m)) => r matches Err(e) && e.is(k, m),
        },
{
    let output = match launched {
        Ok(o) => o,
        Err(_) => return Err(launch_error(index, command)),
    };
    if !output.success {
        let m = command_failure_message(
            index,
            output.code,
            command,
            output.stderr.as_str(),
            output.stdout.as_str(),
            working_dir,
        );
        return Err(GraftError::command(m));
    }
    Ok(())
}

/// The message of a command with the terminal attached that failed.
pub open spec fn attached_failure_message(number: nat, code: Option<i32>, command: Seq<char>, working_dir: Seq<char>) -> Seq<char> {
    "Command #"@ + decimal(number) + " failed with exit code "@ + code_text(code) + ": "@ + command
        + "\nWorking directory: "@ + working_dir
}

/// What running the `index`-th command with the terminal attached came to,
/// given what starting it gave.
pub fn attached_command_result(
    index: usize,
    command: &str,
    working_dir: &str,
    launched: Result<ProcessOutput, IoError>,
) -> (r: Result<(), GraftError>)
    ensures
        match attached_outcome(index as nat + 1, command@, working_dir@, launched) {
            Ok(_) => r is Ok,
            Err((k, m)) => r matches Err(e) && e.is(k, m),
        },
{
    let output = match launched {
        Ok(o) => o,
        Err(_) => return Err(launch_error(index, command)),
    };
    if !output.success {
        let mut m = owned("Command #");
        m.append(index_label(index).as_str());
        m.append(" failed with exit code ");
        m.append(code_to_string(output.code).as_str());
        m.append(": ");
        m.append(command);
        m.append("\nWorking directory: ");
        m.append(working_dir);
        return Err(GraftError::command(m));
    }
    Ok(())
}

/// Execute a single command through the platform's shell in the directory.
fn execute_single_command<P: ProcessRunner>(
    runner: &mut P,
    command: &str,
    working_dir: &str,
    command_index: usize,
) -> (r: Result<(), GraftError>)
    ensures
        is_blank(command@) ==> (r matches Err(e) && e.is(ErrorKind::Command, empty_command_message(command_index as nat + 1))),
        r matches Err(e) ==> command_error(e, command_index as nat, command@, working_dir@),
        is_blank(command@) ==> final(runner).requests() == old(runner).requests(),
        !is_blank(command@) ==> final(runner).requests() == old(runner).requests().push(
            shell_request(old(runner).on_windows(), command@, working_dir@, false),
        ),
        final(runner).on_windows() == old(runner).on_windows(),
{
    if str_is_blank(command) {
        return Err(empty_command_error(command_index));
    }
    let windows = runner.is_windows();
    let (shell, args) = shell_invocation(windows, command);
    let launched = runner.run(shell.as_str(), args.as_slice(), Some(working_dir));
    command_result(command_index, command, working_dir, launched)
}

/// An error that running the `k`-th command (counted from 0) can end in:
/// it is blank, could not be started, or failed with some exit code and
/// output.
pub open spec fn command_error(e: GraftError, k: nat, command: Seq<char>, working_dir: Seq<char>) -> bool {
    ||| is_blank(command) && e.is(ErrorKind::Command, empty_command_message(k + 1))
    ||| e.is(ErrorKind::Other, launch_message(k + 1, command))
    ||| exists|code: Option<i32>, stderr: Seq<char>, stdout: Seq<char>|
        e.is(ErrorKind::Command, #[trigger] failure_message(k + 1, code, command, stderr, stdout, working_dir))
}

/// The message of a missing working directory.
pub open spec fn missing_dir_message(dir: Seq<char>) -> Seq<char> {
    "Working directory does not exist: "@ + dir
}

fn missing_dir_error(dir: &str) -> (e: GraftError)
    ensures
        e.is(ErrorKind::Filesystem, missing_dir_message(dir@)),
{
    let mut m = owned("Working directory does not exist: ");
    m.append(dir);
    GraftError::filesystem(m)
}

/// Check the working directory of commands, given whether the system says it
/// exists (an error counts as no).
pub fn check_working_dir(working_dir: &str, existence: Result<bool, IoError>) -> (r: Result<(), GraftError>)
    ensures
        existence == Ok::<bool, IoError>(true) ==> r is Ok,
        existence != Ok::<bool, IoError>(true) ==> (r matches Err(e) && e.is(
            ErrorKind::Filesystem,
            missing_dir_message(working_dir@),
        )),
{
    match existence {
        Ok(true) => Ok(()),
        _ => Err(missing_dir_error(working_dir)),
    }
}

/// Execute a list of commands, in order, in the working directory; the
/// first failure stops the rest. Gives the number of commands run.
pub fn execute_commands<S: System, P: ProcessRunner>(
    system: &S,
    runner: &mut P,
    commands: &[String],
    working_dir: &str,
) -> (r: Result<usize, GraftError>)
    ensures
        commands.len() == 0 ==> r == Ok::<usize, GraftError>(0),
        final(runner).on_windows() == old(runner).on_windows(),
        r matches Ok(n) ==> n == commands.len() && (forall|i: int|
            0 <= i < commands.len() ==> !is_blank(#[trigger] commands[i]@)) && final(runner).requests()
            == old(runner).requests() + shell_requests(old(runner).on_windows(), commands@, working_dir@, false),
        commands.len() > 0 && is_blank(commands[0]@) ==> r is Err,
        S::keeps_model() && commands.len() > 0 && !present(system, working_dir@) ==> (r matches Err(e) && e.is(
            ErrorKind::Filesystem,
            missing_dir_message(working_dir@),
        )),
        r matches Err(e) ==> (e.is(ErrorKind::Filesystem, missing_dir_message(working_dir@))
            && final(runner).requests() == old(runner).requests()) || exists|k: int|
            0 <= k < commands.len() && command_error(e, k as nat, #[trigger] commands[k]@, working_dir@)
                && (forall|j: int| 0 <= j < k ==> !is_blank(#[trigger] commands[j]@))
                && final(runner).requests() == old(runner).requests() + shell_requests(
                old(runner).on_windows(),
                commands@.take(ran_until(commands@, k)),
                working_dir@,
                false,
            ),
{
    if commands.len() == 0 {
        return Ok(0);
    }
    check_working_dir(working_dir, system.path_exists(working_dir))?;
    let mut count: usize = 0;
    while count < commands.len()
        invariant
            count <= commands.len(),
            forall|i: int| 0 <= i < count ==> !is_blank(#[trigger] commands[i]@),
            runner.on_windows() == old(runner).on_windows(),
            S::keeps_model() ==> present(system, working_dir@),
            runner.requests() == old(runner).requests() + shell_requests(
                old(runner).on_windows(),
                commands@.take(count as int),
                working_dir@,
                false,
            ),
        decreases commands.len() - count,
    {
        let ghost k = count as int;
        proof {
            lemma_shell_requests_step(old(runner).on_windows(), commands@, working_dir@, false, k);
        }
        let step = execute_single_command(runner, commands[count].as_str(), working_dir, count);
        if let Err(e) = step {
            assert(command_error(e, k as nat, commands@[k]@, working_dir@));
            assert(runner.requests() =~= old(runner).requests() + shell_requests(
                old(runner).on_windows(),
                commands@.take(ran_until(commands@, k)),
                working_dir@,
                false,
            ));
            return Err(e);
        }
        count = count + 1;
    }
    assert(commands@.take(count as int) =~= commands@);
    Ok(count)
}

/// An error that running the `k`-th command (counted from 0) with the
/// terminal attached can end in: it is blank, could not be started, or
/// failed with some exit code.
pub open spec fn attached_command_error(e: GraftError, k: nat, command: Seq<char>, working_dir: Seq<char>) -> bool {
    ||| is_blank(command) && e.is(ErrorKind::Command, empty_command_message(k + 1))
    ||| e.is(ErrorKind::Other, launch_message(k + 1, command))
    ||| exists|code: Option<i32>|
        e.is(ErrorKind::Command, #[trigger] attached_failure_message(k + 1, code, command, working_dir))
}

/// Execute a single command with the terminal attached.
fn execute_single_command_attached<P: ProcessRunner>(
    runner: &mut P,
    command: &str,
    working_dir: &str,
    command_index: usize,
) -> (r: Result<(), GraftError>)
    ensures
        is_blank(command@) ==> (r matches Err(e) && e.is(ErrorKind::Command, empty_command_message(command_index as nat + 1))),
        r matches Err(e) ==> attached_command_error(e, command_index as nat, command@, working_dir@),
        is_blank(command@) ==> final(runner).requests() == old(runner).requests(),
        !is_blank(command@) ==> final(runner).requests() == old(runner).requests().push(
            shell_request(old(runner).on_windows(), command@, working_dir@, true),
        ),
        final(runner).on_windows() == old(runner).on_windows(),
{
    if str_is_blank(command) {
        return Err(empty_command_error(command_index));
    }
    let windows = runner.is_windows();
    let (shell, args) = shell_invocation(windows, command);
    let launched = runner.run_attached(shell.as_str(), args.as_slice(), Some(working_dir));
    attached_command_result(command_index, command, working_dir, launched)
}

/// Execute commands with their output going straight to the terminal (for
/// interactive commands).
pub fn execute_commands_interactive<S: System, P: ProcessRunner>(
    system: &S,
    runner: &mut P,
    commands: &[String],
    working_dir: &str,
) -> (r: Result<usize, GraftError>)
    ensures
        commands.len() == 0 ==> r == Ok::<usize, GraftError>(0),
        final(runner).on_windows() == old(runner).on_windows(),
        r matches Ok(n) ==> n == commands.len() && (forall|i: int|
            0 <= i < commands.len() ==> !is_blank(#[trigger] commands[i]@)) && final(runner).requests()
            == old(runner).requests() + shell_requests(old(runner).on_windows(), commands@, working_dir@, true),
        commands.len() > 0 && is_blank(commands[0]@) ==> r is Err,
        S::keeps_model() && commands.len() > 0 && !present(system, working_dir@) ==> (r matches Err(e) && e.is(
            ErrorKind::Filesystem,
            missing_dir_message(working_dir@),
        )),
        r matches Err(e) ==> (e.is(ErrorKind::Filesystem, missing_dir_message(working_dir@))
            && final(runner).requests() == old(runner).requests()) || exists|k: int|
            0 <= k < commands.len() && attached_command_error(e, k as nat, #[trigger] commands[k]@, working_dir@)
                && (forall|j: int| 0 <= j < k ==> !is_blank(#[trigger] commands[j]@))
                && final(runner).requests() == old(runner).requests() + shell_requests(
                old(runner).on_windows(),
                commands@.take(ran_until(commands@, k)),
                working_dir@,
                true,
            ),
{
    if commands.len() == 0 {
        return Ok(0);
    }
    check_working_dir(working_dir, system.path_exists(working_dir))?;
    let mut count: usize = 0;
    while count < commands.len()
        invariant
            count <= commands.len(),
            forall|i: int| 0 <= i < count ==> !is_blank(#[trigger] commands[i]@),
            runner.on_windows() == old(runner).on_windows(),
            S::keeps_model() ==> present(system, working_dir@),
            runner.requests() == old(runner).requests() + shell_requests(
                old(runner).on_windows(),
                commands@.take(count as int),
                working_dir@,
                true,
            ),
        decreases commands.len() - count,
    {
        let ghost k = count as int;
        proof {
            lemma_shell_requests_step(old(runner).on_windows(), commands@, working_dir@, true, k);
        }
        let step = execute_single_command_attached(runner, commands[count].as_str(), working_dir, count);
        if let Err(e) = step {
            assert(attached_command_error(e, k as nat, commands@[k]@, working_dir@));
            assert(runner.requests() =~= old(runner).requests() + shell_requests(
                old(runner).on_windows(),
                commands@.take(ran_until(commands@, k)),
                working_dir@,
                true,
            ));
            return Err(e);
        }
        count = count + 1;
    }
    assert(commands@.take(count as int) =~= commands@);
    Ok(count)
}

} // verus!
