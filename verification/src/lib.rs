//! TixGraft: fetch reusable components from Git repositories, apply text
//! replacements and run post-processing commands.
//!
//! The library works through three services that the program provides: a
//! [`system::System`] for the environment and the filesystem, a
//! [`system::ProcessRunner`] for `git` and commands, and a
//! [`config::ConfigParser`] for YAML. What the library decides is verified
//! for whatever the services give back.

pub mod cli;
pub mod config;
pub mod error;
pub mod git;
pub mod json;
pub mod operations;
pub mod path;
pub mod patterns;
pub mod system;
pub mod text;
pub mod utils;

use vstd::prelude::*;
use crate::cli::args::Args;
use crate::config::context::{reads_floats, FloatReading};
use crate::config::{Config, ConfigParser};
use crate::error::{ErrorKind, GraftError};
use crate::path::join;
use crate::config::validation::pull_statically_valid;
use crate::operations::pull::{preview_footer, pulls_ran, pulls_trace, PullOperation, PullResult};
use crate::text::string_views;
use crate::operations::skill::{
    declined_exit_code, resolve_skill_path, skill_check, skill_install, skill_question,
    skill_uninstall, SkillFile, SkillStatus,
};
use crate::operations::to_command_line::{command_line_text, generate_command_line, OutputFormat};
use crate::system::{lemma_prefix_trans, ProcessRunner, RunRequest, System};

verus! {

/// Run tixgraft: build the pull operation from the arguments and execute it
/// (a dry run adds the lines to show to `lines`). Otherwise the pulls of the
/// configuration that was built run in order (see [`pulls_ran`]): each
/// from the source that its configuration gives, copying it to its target,
/// with its commands as the last runs of the pull.
pub fn run<S: System, P: ProcessRunner, C: ConfigParser, F: Fn(&str) -> FloatReading>(
    args: Args,
    system: &mut S,
    runner: &mut P,
    parser: &C,
    read_float: &F,
    lines: &mut Vec<String>,
) -> (r: Result<(), GraftError>)
    requires
        reads_floats(*read_float),
    ensures
        !args.dry_run ==> final(lines)@ == old(lines)@,
        args.dry_run && r is Ok ==> string_views(final(lines)@).len() >= string_views(old(lines)@).len() + 5
            && string_views(final(lines)@).subrange(
            string_views(final(lines)@).len() - 2,
            string_views(final(lines)@).len() as int,
        ) == preview_footer(),
        !args.dry_run && r is Ok ==> exists|c: Config|
            #[trigger] pulls_ran::<S>(c, old(runner).on_windows(), old(runner).requests(), final(runner).requests())
                && forall|i: int|
                0 <= i < c.pulls@.len() ==> pull_statically_valid(#[trigger] c.pulls@[i], i as nat),
{
    let dry = args.dry_run;
    let operation = PullOperation::new(args, system, runner, parser)?;
    let ghost mid = runner.requests();
    let done = operation.execute(system, runner, parser, read_float, lines);
    proof {
        if !dry && done is Ok {
            let c = operation.configuration();
            let (marks, results) = choose|marks: Seq<Seq<RunRequest>>, results: Seq<PullResult>|
                #[trigger] pulls_trace::<S>(c, old(runner).on_windows(), marks, results) && mid.is_prefix_of(marks[0])
                    && marks[c.pulls@.len() as int].is_prefix_of(runner.requests());
            lemma_prefix_trans(old(runner).requests(), mid, marks[0]);
            assert(pulls_ran::<S>(c, old(runner).on_windows(), old(runner).requests(), runner.requests()));
        }
    }
    done
}

/// A configuration with the given repository and tag replacing its own.
pub open spec fn with_overrides(c: Config, repo: Option<String>, tag: Option<String>) -> Config {
    Config {
        repository: if repo is Some {
            repo
        } else {
            c.repository
        },
        tag: if tag is Some {
            tag
        } else {
            c.tag
        },
        context: c.context,
        pulls: c.pulls,
        children: c.children,
        process_children_first: c.process_children_first,
    }
}

/// The command line equivalent to a read configuration, with the given
/// repository and tag replacing its own; the configuration, so changed, is
/// checked first.
pub fn command_line_of<S: System>(
    system: &S,
    config: Config,
    format: OutputFormat,
    repo_override: Option<String>,
    tag_override: Option<String>,
) -> (r: Result<String, GraftError>)
    ensures
        r matches Ok(text) ==> text@ == command_line_text(with_overrides(config, repo_override, tag_override), format),
        with_overrides(config, repo_override, tag_override).repository is Some
            && crate::config::validation::url_check(
            with_overrides(config, repo_override, tag_override).repository->Some_0@,
        ) is Err ==> r is Err,
{
    let ghost changed = with_overrides(config, repo_override, tag_override);
    let mut config = config;
    if let Some(repo) = repo_override {
        config.repository = Some(repo);
    }
    if let Some(tag) = tag_override {
        config.tag = Some(tag);
    }
    assert(config == changed);
    config.validate(system)?;
    generate_command_line(&config, format)
}

/// The command line equivalent to a configuration file, with the given
/// repository and tag replacing the file's: [`command_line_of`] the
/// configuration that the parser read from the file.
pub fn run_to_command_line<S: System, C: ConfigParser>(
    system: &S,
    parser: &C,
    config_path: &str,
    format: OutputFormat,
    repo_override: Option<String>,
    tag_override: Option<String>,
) -> (r: Result<String, GraftError>)
    ensures
        r matches Ok(text) ==> exists|c: Config|
            #![trigger command_line_text(c, format)]
            text@ == command_line_text(c, format) && (repo_override is Some ==> c.repository
                == repo_override) && (tag_override is Some ==> c.tag == tag_override),
{
    let config = Config::load_from_file(system, parser, config_path)?;
    let ghost changed = with_overrides(config, repo_override, tag_override);
    let r = command_line_of(system, config, format, repo_override, tag_override);
    assert(r matches Ok(text) ==> text@ == command_line_text(changed, format));
    r
}

/// Install the skill (in `subdir` below the home directory when global,
/// else below the current directory); gives the directory it went to.
pub fn run_skill_install<S: System>(system: &mut S, global: bool, subdir: &str, files: &[SkillFile]) -> (r: Result<
    String,
    GraftError,
>)
    ensures
        r matches Ok(dir) ==> exists|base: Seq<char>| dir@ == join(base, subdir@),
        r matches Err(e) ==> e.kind_of() == ErrorKind::Skill,
{
    let target_dir = resolve_skill_path(system, global, subdir)?;
    skill_install(system, target_dir.as_str(), files)?;
    Ok(target_dir)
}

/// Uninstall the skill; gives its directory and whether it was installed.
pub fn run_skill_uninstall<S: System>(system: &mut S, global: bool, subdir: &str) -> (r: Result<(String, bool), GraftError>)
    ensures
        r matches Ok(res) ==> exists|base: Seq<char>| res.0@ == join(base, subdir@),
        r matches Err(e) ==> e.kind_of() == ErrorKind::Skill,
{
    let target_dir = resolve_skill_path(system, global, subdir)?;
    let existed = skill_uninstall(system, target_dir.as_str())?;
    Ok((target_dir, existed))
}

/// Test whether the skill is installed and up to date; when it is not, ask
/// (unless `auto_yes`) whether to install it. Gives the exit code: 0 when it
/// is (or now is) installed and up to date, 1 when not installed and
/// declined, 2 when outdated and declined.
pub fn run_skill_test<S: System, A: Fn(&str) -> Result<bool, GraftError>>(
    system: &mut S,
    global: bool,
    auto_yes: bool,
    subdir: &str,
    files: &[SkillFile],
    ask: &A,
) -> (r: Result<i32, GraftError>)
    requires
        forall|q: &str| #[trigger] ask.requires((q,)),
    ensures
        r matches Ok(code) ==> 0 <= code <= 2,
{
    let target_dir = resolve_skill_path(system, global, subdir)?;
    let status = skill_check(system, target_dir.as_str(), files)?;
    match skill_question(status) {
        None => Ok(0),
        Some(question) => {
            let confirmed = if auto_yes {
                true
            } else {
                ask(question)?
            };
            if confirmed {
                skill_install(system, target_dir.as_str(), files)?;
                Ok(0)
            } else {
                Ok(declined_exit_code(status))
            }
        },
    }
}

} // verus!
