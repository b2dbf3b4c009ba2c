//! Checks run on a loaded configuration before anything is pulled.

use vstd::prelude::*;
use crate::cli::args::{PullConfig, ReplacementConfig};
use crate::config::Config;
use crate::error::{ErrorKind, GraftError};
use crate::patterns::{regex_is_match, regex_match};
use crate::path::{join, path_join};
use crate::system::System;
use crate::text::{
    decimal, is_blank, owned, seq_contains, seq_starts_with, str_contains, str_eq, str_is_blank,
    str_starts_with, index_label,
};

verus! {

/// The patterns a repository URL may match: HTTPS, SSH, and the short
/// `owner/repo` form.
pub open spec fn url_patterns() -> Seq<Seq<char>> {
    seq!["^https?://.*\\.git$"@, "^git@.*\\.git$"@, "^[\\w-]+/[\\w-]+$"@]
}

fn url_pattern(i: usize) -> (r: &'static str)
    requires
        i < 3,
    ensures
        r@ == url_patterns()[i as int],
{
    if i == 0 {
        "^https?://.*\\.git$"
    } else if i == 1 {
        "^git@.*\\.git$"
    } else {
        "^[\\w-]+/[\\w-]+$"
    }
}

/// The message of a repository URL that matches no supported format.
pub open spec fn invalid_url_message(url: Seq<char>) -> Seq<char> {
    "Invalid repository URL format: '"@ + url + "'\nSupported formats:\n- Short format: my_organization/repo\n- HTTPS: https://github.com/my_organization/repo.git\n- SSH: git@github.com:my_organization/repo.git\n- Local: file:/path/to/repo or file:///path/to/repo"@
}

/// Trying the patterns from the `i`-th on: `Ok` when one matches, the
/// compile error of a pattern that does not compile, or the format message.
pub open spec fn url_check_from(url: Seq<char>, i: int) -> Result<(), Seq<char>>
    decreases 3 - i,
{
    if i >= 3 || i < 0 {
        Err(invalid_url_message(url))
    } else {
        match regex_match(url_patterns()[i], url) {
            Ok(true) => Ok(()),
            Ok(false) => url_check_from(url, i + 1),
            Err(e) => Err(e),
        }
    }
}

/// Whether a repository URL is accepted, or the error's message: `file:`
/// URLs are accepted here and checked when the repository is opened.
pub open spec fn url_check(url: Seq<char>) -> Result<(), Seq<char>> {
    if seq_starts_with(url, "file:"@) {
        Ok(())
    } else {
        url_check_from(url, 0)
    }
}

/// Validate a repository URL format.
pub fn validate_repository_url(url: &str) -> (r: Result<(), GraftError>)
    ensures
        match url_check(url@) {
            Ok(_) => r is Ok,
            Err(m) => r matches Err(e) && e.is(ErrorKind::Other, m),
        },
{
    if str_starts_with(url, "file:") {
        return Ok(());
    }
    let mut i: usize = 0;
    while i < 3
        invariant
            i <= 3,
            !seq_starts_with(url@, "file:"@),
            url_check(url@) == url_check_from(url@, i as int),
        decreases 3 - i,
    {
        match regex_is_match(url_pattern(i), url) {
            Ok(true) => return Ok(()),
            Ok(false) => {},
            Err(e) => return Err(GraftError::other(e)),
        }
        i = i + 1;
    }
    let mut m = owned("Invalid repository URL format: '");
    m.append(url);
    m.append("'\nSupported formats:\n- Short format: my_organization/repo\n- HTTPS: https://github.com/my_organization/repo.git\n- SSH: git@github.com:my_organization/repo.git\n- Local: file:/path/to/repo or file:///path/to/repo");
    Err(GraftError::other(m))
}

/// Whether a target path is safe, or the error's message: no `..`, and not
/// absolute.
pub open spec fn path_check(path: Seq<char>) -> Result<(), Seq<char>> {
    if seq_contains(path, ".."@) {
        Err("Path contains unsafe directory traversal: '"@ + path + "'"@)
    } else if seq_starts_with(path, "/"@) && !seq_starts_with(path, "./"@) && !seq_starts_with(path, "../"@) {
        Err("Absolute paths are not allowed: '"@ + path + "'. Use relative paths instead."@)
    } else {
        Ok(())
    }
}

/// Validate path safety (prevent directory traversal).
pub fn validate_path_safety(path: &str) -> (r: Result<(), GraftError>)
    ensures
        match path_check(path@) {
            Ok(_) => r is Ok,
            Err(m) => r matches Err(e) && e.is(ErrorKind::Other, m),
        },
{
    if str_contains(path, "..") {
        let mut m = owned("Path contains unsafe directory traversal: '");
        m.append(path);
        m.append("'");
        return Err(GraftError::other(m));
    }
    if str_starts_with(path, "/") && !str_starts_with(path, "./") && !str_starts_with(path, "../") {
        let mut m = owned("Absolute paths are not allowed: '");
        m.append(path);
        m.append("'. Use relative paths instead.");
        return Err(GraftError::other(m));
    }
    Ok(())
}

/// The first command of a list that is blank, from `i` on.
pub open spec fn first_blank_from(commands: Seq<String>, i: int) -> Option<int>
    decreases commands.len() - i,
{
    if i < 0 || i >= commands.len() {
        None
    } else if is_blank(commands[i]@) {
        Some(i)
    } else {
        first_blank_from(commands, i + 1)
    }
}

/// "Pull operation #N" for the pull at an index.
pub open spec fn pull_label(index: nat) -> Seq<char> {
    "Pull operation #"@ + decimal(index + 1)
}

/// What is wrong with a pull before its replacements are looked at.
pub open spec fn pull_head_error(pull: PullConfig, index: nat) -> Option<Seq<char>> {
    let ctx = pull_label(index);
    let repo_err: Option<Seq<char>> = match pull.repository {
        Some(r) => match url_check(r@) {
            Err(m) => Some(m),
            Ok(_) => None,
        },
        None => None,
    };
    if repo_err is Some {
        Some(ctx + ": "@ + repo_err->Some_0)
    } else if is_blank(pull.source@) {
        Some(ctx + ": Source path cannot be empty"@)
    } else if is_blank(pull.target@) {
        Some(ctx + ": Target path cannot be empty"@)
    } else if pull.pull_type@ != "file"@ && pull.pull_type@ != "directory"@ {
        Some(ctx + ": Invalid pull type '"@ + pull.pull_type@ + "'. Must be 'file' or 'directory'"@)
    } else if path_check(pull.target@) is Err {
        Some(ctx + ": "@ + path_check(pull.target@)->Err_0)
    } else {
        commands_error(pull.commands@, ctx)
    }
}

/// The error of the first blank command, if any.
pub open spec fn commands_error(commands: Seq<String>, ctx: Seq<char>) -> Option<Seq<char>> {
    match first_blank_from(commands, 0) {
        Some(k) => Some(ctx + ": Command #"@ + decimal((k + 1) as nat) + " cannot be empty"@),
        None => None,
    }
}

/// What is wrong with a replacement, without looking at the environment.
pub open spec fn replacement_static_error(r: ReplacementConfig, pull_index: nat, repl_index: nat) -> Option<
    Seq<char>,
> {
    let ctx = "Pull #"@ + decimal(pull_index + 1) + ", Replacement #"@ + decimal(repl_index + 1);
    if is_blank(r.source@) {
        Some(ctx + ": Replacement source cannot be empty"@)
    } else {
        match (r.target, r.value_from_env) {
            (Some(t), None) => if is_blank(t@) {
                Some(ctx + ": Replacement target cannot be empty"@)
            } else {
                None
            },
            (None, Some(e)) => if is_blank(e@) {
                Some(ctx + ": Environment variable name cannot be empty"@)
            } else {
                None
            },
            (Some(_), Some(_)) => Some(ctx + ": Cannot specify both 'target' and 'valueFromEnv'"@),
            (None, None) => Some(ctx + ": Must specify either 'target' or 'valueFromEnv'"@),
        }
    }
}

/// A pull passes every check that does not look at the environment.
pub open spec fn pull_statically_valid(pull: PullConfig, index: nat) -> bool {
    &&& pull_head_error(pull, index) is None
    &&& forall|k: int|
        0 <= k < pull.replacements@.len() ==> replacement_static_error(
            #[trigger] pull.replacements@[k],
            index,
            k as nat,
        ) is None
}

fn pull_context(index: usize) -> (r: String)
    ensures
        r@ == pull_label(index as nat),
{
    let mut c = owned("Pull operation #");
    c.append(index_label(index).as_str());
    c
}

fn prefixed(ctx: &String, message: &str) -> (e: GraftError)
    ensures
        e.is(ErrorKind::Other, ctx@ + message@),
{
    let mut m = ctx.clone();
    m.append(message);
    GraftError::other(m)
}

/// Validate a text replacement configuration; a variable named by
/// `valueFromEnv` must be set.
fn validate_replacement<S: System>(
    system: &S,
    replacement: &ReplacementConfig,
    pull_index: usize,
    repl_index: usize,
) -> (r: Result<(), GraftError>)
    ensures
        match replacement_static_error(*replacement, pull_index as nat, repl_index as nat) {
            Some(m) => r matches Err(e) && e.is(ErrorKind::Other, m),
            None => true,
        },
{
    let mut ctx = owned("Pull #");
    ctx.append(index_label(pull_index).as_str());
    ctx.append(", Replacement #");
    ctx.append(index_label(repl_index).as_str());
    if str_is_blank(replacement.source.as_str()) {
        return Err(prefixed(&ctx, ": Replacement source cannot be empty"));
    }
    match (&replacement.target, &replacement.value_from_env) {
        (Some(target), None) => {
            if str_is_blank(target.as_str()) {
                return Err(prefixed(&ctx, ": Replacement target cannot be empty"));
            }
        },
        (None, Some(env_var)) => {
            if str_is_blank(env_var.as_str()) {
                return Err(prefixed(&ctx, ": Environment variable name cannot be empty"));
            }
            if system.env_var(env_var.as_str()).is_err() {
                let mut m = ctx.clone();
                m.append(": Environment variable '");
                m.append(env_var.as_str());
                m.append("' is not set");
                return Err(GraftError::other(m));
            }
        },
        (Some(_), Some(_)) => {
            return Err(prefixed(&ctx, ": Cannot specify both 'target' and 'valueFromEnv'"));
        },
        (None, None) => {
            return Err(prefixed(&ctx, ": Must specify either 'target' or 'valueFromEnv'"));
        },
    }
    Ok(())
}

/// Validate a single pull configuration.
pub fn validate_pull_config<S: System>(system: &S, pull: &PullConfig, index: usize) -> (r: Result<
    (),
    GraftError,
>)
    ensures
        match pull_head_error(*pull, index as nat) {
            Some(m) => r matches Err(e) && e.is(ErrorKind::Other, m),
            None => true,
        },
        r is Ok ==> pull_statically_valid(*pull, index as nat),
{
    let ctx = pull_context(index);
    if let Some(repo) = &pull.repository {
        match validate_repository_url(repo.as_str()) {
            Ok(()) => {},
            Err(err) => {
                let mut m = ctx.clone();
                m.append(": ");
                m.append(err.message().as_str());
                return Err(GraftError::other(m));
            },
        }
    }
    if str_is_blank(pull.source.as_str()) {
        return Err(prefixed(&ctx, ": Source path cannot be empty"));
    }
    if str_is_blank(pull.target.as_str()) {
        return Err(prefixed(&ctx, ": Target path cannot be empty"));
    }
    if !str_eq(pull.pull_type.as_str(), "file") && !str_eq(pull.pull_type.as_str(), "directory") {
        let mut m = ctx.clone();
        m.append(": Invalid pull type '");
        m.append(pull.pull_type.as_str());
        m.append("'. Must be 'file' or 'directory'");
        return Err(GraftError::other(m));
    }
    match validate_path_safety(pull.target.as_str()) {
        Ok(()) => {},
        Err(err) => {
            let mut m = ctx.clone();
            m.append(": ");
            m.append(err.message().as_str());
            return Err(GraftError::other(m));
        },
    }
    let mut k: usize = 0;
    while k < pull.commands.len()
        invariant
            k <= pull.commands.len(),
                first_blank_from(pull.commands@, 0) == first_blank_from(pull.commands@, k as int),
            ctx@ == pull_label(index as nat),
            pull_head_error(*pull, index as nat) == commands_error(pull.commands@, ctx@),
        decreases pull.commands.len() - k,
    {
        if str_is_blank(pull.commands[k].as_str()) {
            let mut m = ctx.clone();
            m.append(": Command #");
            m.append(index_label(k).as_str());
            m.append(" cannot be empty");
            assert(m@ =~= ctx@ + ": Command #"@ + decimal((k + 1) as nat) + " cannot be empty"@);
            return Err(GraftError::other(m));
        }
        k = k + 1;
    }
    let mut j: usize = 0;
    while j < pull.replacements.len()
        invariant
            j <= pull.replacements.len(),
                    pull_head_error(*pull, index as nat) is None,
            forall|q: int|
                0 <= q < j ==> replacement_static_error(
                    #[trigger] pull.replacements@[q],
                    index as nat,
                    q as nat,
                ) is None,
        decreases pull.replacements.len() - j,
    {
        validate_replacement(system, &pull.replacements[j], index, j)?;
        j = j + 1;
    }
    Ok(())
}

/// "Child config #N" for the child at an index.
pub open spec fn child_label(index: nat) -> Seq<char> {
    "Child config #"@ + decimal(index + 1)
}

/// What is wrong with a child path before the file is looked for.
pub open spec fn child_path_error(path: Seq<char>, index: nat) -> Option<Seq<char>> {
    let ctx = child_label(index);
    if is_blank(path) {
        Some(ctx + ": Child path cannot be empty"@)
    } else if seq_contains(path, ".."@) {
        Some(ctx + ": Child path '"@ + path + "' cannot contain '..' \u{2014} children must be in subdirectories"@)
    } else if seq_starts_with(path, "/"@) {
        Some(ctx + ": Child path '"@ + path + "' cannot be absolute \u{2014} children must be in subdirectories"@)
    } else {
        None
    }
}

/// Validate a child config path: not blank, no `..`, not absolute, and the
/// file exists (under `base_dir` when given).
pub fn validate_child_path<S: System>(system: &S, path: &str, index: usize, base_dir: Option<&str>) -> (r: Result<
    (),
    GraftError,
>)
    ensures
        match child_path_error(path@, index as nat) {
            Some(m) => r matches Err(e) && e.is(ErrorKind::Other, m),
            None => true,
        },
{
    let mut ctx = owned("Child config #");
    ctx.append(index_label(index).as_str());
    if str_is_blank(path) {
        return Err(prefixed(&ctx, ": Child path cannot be empty"));
    }
    if str_contains(path, "..") {
        let mut m = ctx.clone();
        m.append(": Child path '");
        m.append(path);
        m.append("' cannot contain '..' \u{2014} children must be in subdirectories");
        return Err(GraftError::other(m));
    }
    if str_starts_with(path, "/") {
        let mut m = ctx.clone();
        m.append(": Child path '");
        m.append(path);
        m.append("' cannot be absolute \u{2014} children must be in subdirectories");
        return Err(GraftError::other(m));
    }
    let resolved = match base_dir {
        Some(dir) => path_join(dir, path),
        None => owned(path),
    };
    match system.path_exists(resolved.as_str()) {
        Ok(true) => Ok(()),
        Ok(false) => {
            let mut m = ctx.clone();
            m.append(": Child config file not found: '");
            m.append(path);
            m.append("'");
            Err(GraftError::other(m))
        },
        Err(e) => Err(GraftError::other(e.message)),
    }
}

/// The message of a configuration with nothing to do.
pub open spec fn nothing_to_do_message() -> Seq<char> {
    "Configuration must contain at least one pull operation or one child config"@
}

/// Validate a complete configuration, resolving children paths relative to
/// `base_dir` (or the current directory when `None`).
pub fn validate_config_with_base_dir<S: System>(system: &S, config: &Config, base_dir: Option<&str>) -> (r: Result<
    (),
    GraftError,
>)
    ensures
        config.repository is Some && url_check(config.repository->Some_0@) is Err ==> (r matches Err(e)
            && e.is(ErrorKind::Other, url_check(config.repository->Some_0@)->Err_0)),
        (config.repository is Some ==> url_check(config.repository->Some_0@) is Ok) && config.pulls.len() == 0
            && config.children.len() == 0 ==> (r matches Err(e) && e.is(ErrorKind::Other, nothing_to_do_message())),
        r is Ok ==> forall|i: int|
            0 <= i < config.pulls.len() ==> pull_statically_valid(#[trigger] config.pulls@[i], i as nat),
        r is Ok ==> forall|i: int|
            0 <= i < config.children.len() ==> child_path_error(#[trigger] config.children@[i]@, i as nat) is None,
{
    if let Some(repo) = &config.repository {
        validate_repository_url(repo.as_str())?;
    }
    if config.pulls.len() == 0 && config.children.len() == 0 {
        return Err(GraftError::other(owned("Configuration must contain at least one pull operation or one child config")));
    }
    let mut i: usize = 0;
    while i < config.pulls.len()
        invariant
            i <= config.pulls.len(),
            config.repository is Some ==> url_check(config.repository->Some_0@) is Ok,
                forall|q: int| 0 <= q < i ==> pull_statically_valid(#[trigger] config.pulls@[q], q as nat),
        decreases config.pulls.len() - i,
    {
        validate_pull_config(system, &config.pulls[i], i)?;
        i = i + 1;
    }
    let mut k: usize = 0;
    while k < config.children.len()
        invariant
            k <= config.children.len(),
            config.repository is Some ==> url_check(config.repository->Some_0@) is Ok,
            forall|q: int| 0 <= q < config.pulls.len() ==> pull_statically_valid(#[trigger] config.pulls@[q], q as nat),
                forall|q: int| 0 <= q < k ==> child_path_error(#[trigger] config.children@[q]@, q as nat) is None,
        decreases config.children.len() - k,
    {
        validate_child_path(system, config.children[k].as_str(), k, base_dir)?;
        k = k + 1;
    }
    Ok(())
}

/// Validate a complete configuration, resolving children paths relative to
/// the current directory.
pub fn validate_config<S: System>(system: &S, config: &Config) -> (r: Result<(), GraftError>)
    ensures
        config.repository is Some && url_check(config.repository->Some_0@) is Err ==> (r matches Err(e)
            && e.is(ErrorKind::Other, url_check(config.repository->Some_0@)->Err_0)),
        (config.repository is Some ==> url_check(config.repository->Some_0@) is Ok) && config.pulls.len() == 0
            && config.children.len() == 0 ==> (r matches Err(e) && e.is(ErrorKind::Other, nothing_to_do_message())),
        r is Ok ==> forall|i: int|
            0 <= i < config.pulls.len() ==> pull_statically_valid(#[trigger] config.pulls@[i], i as nat),
        r is Ok ==> forall|i: int|
            0 <= i < config.children.len() ==> child_path_error(#[trigger] config.children@[i]@, i as nat) is None,
{
    validate_config_with_base_dir(system, config, None)
}

} // verus!
