//! The text replacement engine: placeholders in the files of a target are
//! replaced with static values, environment variables or context values.
//! Binary files are left alone.

use vstd::prelude::*;
use crate::cli::args::ReplacementConfig;
use crate::config::context::{value_text, value_to_string, ContextValues};
use crate::json::JsonModel;
use crate::config::graft_yaml::{source_count, GraftReplacement};
use crate::error::{ErrorKind, GraftError, IoError};
use crate::git::repository::{env_error_message, env_error_text, io_to_graft};
use crate::patterns::{regex_replace_all, regex_replaced};
use crate::path::components;
use crate::system::mock::{utf8_decoded, walk_matches, walk_rendered};
use crate::system::{System, WalkEntry};
use crate::text::{owned, replace_all, replace_all_exec, seq_contains, str_contains, str_eq};
use crate::utils::fs::{file_is_binary, is_binary_file};

verus! {

/// The message of a missing target directory.
pub open spec fn missing_target_message(dir: Seq<char>) -> Seq<char> {
    "Target directory does not exist: "@ + dir
}

/// The message of an unset environment variable.
pub open spec fn unset_env_message(var: Seq<char>, err: Seq<char>) -> Seq<char> {
    "Environment variable '"@ + var + "' is not set. Error: "@ + err
}

fn unset_env_error(var: &str, err: crate::error::EnvVarError) -> (e: GraftError)
    ensures
        e.is(ErrorKind::Configuration, unset_env_message(var@, env_error_text(err))),
{
    let mut m = owned("Environment variable '");
    m.append(var);
    m.append("' is not set. Error: ");
    m.append(env_error_message(err).as_str());
    GraftError::configuration(m)
}

/// The value of a replacement read from an environment variable, given what
/// reading the variable gave: its value, or the error naming the variable.
pub fn env_value(var: &str, read: Result<String, crate::error::EnvVarError>) -> (r: Result<String, GraftError>)
    ensures
        match read {
            Ok(v) => r matches Ok(s) && s@ == v@,
            Err(err) => r matches Err(e) && e.is(ErrorKind::Configuration, unset_env_message(var@, env_error_text(err))),
        },
{
    match read {
        Ok(v) => Ok(v),
        Err(err) => Err(unset_env_error(var, err)),
    }
}

/// Get the replacement value from either the target or an environment
/// variable.
pub fn get_replacement_value<S: System>(system: &S, replacement: &ReplacementConfig) -> (r: Result<
    String,
    GraftError,
>)
    ensures
        match (replacement.target, replacement.value_from_env) {
            (Some(t), None) => r matches Ok(s) && s@ == t@,
            (None, Some(v)) => r is Ok || (r matches Err(e) && e.kind_of() == ErrorKind::Configuration
                && exists|err| e.message_of() == unset_env_message(v@, env_error_text(err))),
            _ => r matches Err(e) && e.is(
                ErrorKind::Configuration,
                "Replacement must specify exactly one of 'target' or 'valueFromEnv'"@,
            ),
        },
        S::keeps_model() ==> (r matches Ok(s) ==> s@ == config_value(*replacement, system.fs_env())),
{
    match (&replacement.target, &replacement.value_from_env) {
        (Some(target), None) => Ok(target.clone()),
        (None, Some(env_var)) => env_value(env_var.as_str(), system.env_var(env_var.as_str())),
        _ => Err(
            GraftError::configuration(
                owned("Replacement must specify exactly one of 'target' or 'valueFromEnv'"),
            ),
        ),
    }
}

/// The message of a replacement with a number of value sources other than one.
pub open spec fn sources_message(source: Seq<char>) -> Seq<char> {
    "Replacement for '"@ + source
        + "' must specify exactly one of: target, valueFromEnv, or valueFromContext"@
}

/// The message of a context property that is not there.
pub open spec fn missing_property_message(key: Seq<char>, source: Seq<char>) -> Seq<char> {
    "Context property '"@ + key + "' not found for replacement of '"@ + source + "'"@
}

/// Get the value of a `.graft.yaml` replacement: its static target, an
/// environment variable, or a context value as text.
pub fn get_graft_replacement_value<S: System>(
    system: &S,
    replacement: &GraftReplacement,
    context: &ContextValues,
) -> (r: Result<String, GraftError>)
    ensures
        source_count(*replacement) != 1 ==> (r matches Err(e) && e.is(
            ErrorKind::Configuration,
            sources_message(replacement.source@),
        )),
        source_count(*replacement) == 1 ==> match replacement.target {
            Some(t) => r matches Ok(s) && s@ == t@,
            None => match replacement.value_from_env {
                Some(v) => r is Ok || (r matches Err(e) && e.kind_of() == ErrorKind::Configuration
                    && exists|err| e.message_of() == unset_env_message(v@, env_error_text(err))),
                None => match replacement.value_from_context {
                    Some(k) => if context@.contains_key(k@) {
                        r matches Ok(s) && s@ == value_text(context@[k@])
                    } else {
                        r matches Err(e) && e.is(
                            ErrorKind::Configuration,
                            missing_property_message(k@, replacement.source@),
                        )
                    },
                    None => false,
                },
            },
        },
        replacement.value_from_env is None || S::keeps_model() ==> (r matches Ok(s) ==> s@ == graft_value(
            *replacement,
            context@,
            system.fs_env(),
        )),
{
    let count: u8 = (if replacement.target.is_some() { 1u8 } else { 0u8 }) + (if replacement.value_from_env.is_some() {
        1u8
    } else {
        0u8
    }) + (if replacement.value_from_context.is_some() { 1u8 } else { 0u8 });
    if count != 1 {
        let mut m = owned("Replacement for '");
        m.append(replacement.source.as_str());
        m.append("' must specify exactly one of: target, valueFromEnv, or valueFromContext");
        return Err(GraftError::configuration(m));
    }
    if let Some(target) = &replacement.target {
        return Ok(target.clone());
    }
    if let Some(env_var) = &replacement.value_from_env {
        return env_value(env_var.as_str(), system.env_var(env_var.as_str()));
    }
    if let Some(key) = &replacement.value_from_context {
        return match context.get(key.as_str()) {
            Some(v) => value_to_string(v),
            None => {
                let mut m = owned("Context property '");
                m.append(key.as_str());
                m.append("' not found for replacement of '");
                m.append(replacement.source.as_str());
                m.append("'");
                Err(GraftError::configuration(m))
            },
        };
    }
    let mut m = owned("No replacement value specified for '");
    m.append(replacement.source.as_str());
    m.append("'");
    Err(GraftError::configuration(m))
}

/// The new content of a file after replacing every occurrence of the
/// pattern, when it differs from the old one.
pub open spec fn replaced_content(content: Seq<char>, pattern: Seq<char>, value: Seq<char>) -> Option<Seq<char>> {
    if !seq_contains(content, pattern) {
        None
    } else if replace_all(content, pattern, value) == content {
        None
    } else {
        Some(replace_all(content, pattern, value))
    }
}

/// Replace every occurrence of the pattern; `None` when nothing changes.
pub fn replace_in_content(content: &str, pattern: &str, value: &str) -> (r: Option<String>)
    ensures
        match replaced_content(content@, pattern@, value@) {
            Some(c) => r matches Some(s) && s@ == c,
            None => r is None,
        },
{
    if !str_contains(content, pattern) {
        return None;
    }
    let new_content = replace_all_exec(content, pattern, value);
    if str_eq(new_content.as_str(), content) {
        None
    } else {
        Some(new_content)
    }
}

/// The message of a file that could not be read for a replacement.
pub open spec fn replacement_read_message(file_path: Seq<char>, detail: Seq<char>) -> Seq<char> {
    "Failed to read file for text replacement: "@ + file_path + ": "@ + detail
}

/// What a replacement makes of a file, given what reading it as text gave:
/// the new content to write when the replacement changes it, nothing when it
/// does not, or the error of the read.
pub fn rewritten_content(
    read: Result<String, IoError>,
    file_path: &str,
    search_pattern: &str,
    replacement_value: &str,
) -> (r: Result<Option<String>, GraftError>)
    ensures
        match read {
            Ok(c) => match replaced_content(c@, search_pattern@, replacement_value@) {
                Some(n) => r matches Ok(Some(s)) && s@ == n,
                None => r matches Ok(None),
            },
            Err(e) => r matches Err(g) && g.is(
                ErrorKind::Other,
                replacement_read_message(file_path@, e.message@),
            ),
        },
{
    match read {
        Ok(content) => Ok(replace_in_content(content.as_str(), search_pattern, replacement_value)),
        Err(e) => {
            let mut m = owned("Failed to read file for text replacement: ");
            m.append(file_path);
            m.append(": ");
            m.append(e.message.as_str());
            Err(GraftError::other(m))
        },
    }
}

/// The second system holds the first's text file at `path` with every
/// occurrence of `pattern` replaced by `value`, a change to its text, and
/// nothing else changed.
pub open spec fn file_rewritten<S: System>(before: S, after: S, path: Seq<char>, pattern: Seq<char>, value: Seq<char>) -> bool {
    &&& before.fs_files().contains_key(components(path))
    &&& utf8_decoded(before.fs_files()[components(path)]) matches Ok(text) && (replaced_content(text, pattern, value) matches Some(n)
        && after.fs_files() == before.fs_files().insert(components(path), vstd::utf8::encode_utf8(n)))
    &&& after.fs_dirs() == before.fs_dirs()
    &&& after.fs_env() == before.fs_env()
}

/// A replacement may leave the file at `path` as it is: only a binary file
/// (which is skipped), or a text file in which replacing `pattern` by
/// `value` changes nothing.
pub open spec fn left_as_is<S: System>(system: S, path: Seq<char>, pattern: Seq<char>, value: Seq<char>) -> bool {
    !file_is_binary(system, path) ==> system.fs_files().contains_key(components(path)) && (utf8_decoded(
        system.fs_files()[components(path)],
    ) matches Ok(text) && replaced_content(text, pattern, value) is None)
}

/// Apply a replacement to one file (binary files are skipped); gives whether
/// the file changed, which it does only where some text holds the pattern
/// and replacing it changes the text.
fn apply_replacement_to_file<S: System>(
    system: &mut S,
    file_path: &str,
    search_pattern: &str,
    replacement_value: &str,
) -> (r: Result<bool, GraftError>)
    ensures
        S::keeps_model() ==> (r matches Ok(true) ==> file_rewritten(
            *old(system),
            *final(system),
            file_path@,
            search_pattern@,
            replacement_value@,
        )),
        r matches Ok(false) ==> *final(system) == *old(system),
        S::keeps_model() ==> (r matches Ok(false) ==> left_as_is(
            *old(system),
            file_path@,
            search_pattern@,
            replacement_value@,
        )),
{
    if is_binary_file(system, file_path)? {
        return Ok(false);
    }
    let read = system.read_to_string(file_path);
    match rewritten_content(read, file_path, search_pattern, replacement_value)? {
        None => Ok(false),
        Some(new_content) => {
            if let Err(e) = system.write(file_path, new_content.as_str().as_bytes()) {
                let mut m = owned("Failed to write file after text replacement: ");
                m.append(file_path);
                m.append(": ");
                m.append(e.message.as_str());
                return Err(GraftError::other(m));
            }
            Ok(true)
        },
    }
}

/// The number of `true` answers.
pub open spec fn count_true(s: Seq<bool>) -> nat
    decreases s.len(),
{
    if s.len() == 0 {
        0
    } else {
        count_true(s.drop_last()) + if s.last() {
            1nat
        } else {
            0nat
        }
    }
}

/// Going through the walked entries in order, the `i`-th took the system
/// from `states[i]` to `states[i + 1]`: a file that `changed` marks was
/// rewritten (see [`file_rewritten`]); any other entry left it as it was.
pub open spec fn walk_replaced<S: System>(
    es: Seq<WalkEntry>,
    states: Seq<S>,
    changed: Seq<bool>,
    pattern: Seq<char>,
    value: Seq<char>,
) -> bool {
    &&& states.len() == es.len() + 1
    &&& changed.len() == es.len()
    &&& forall|i: int|
        0 <= i < es.len() ==> if #[trigger] changed[i] {
            es[i].is_file && file_rewritten(states[i], states[i + 1], es[i].path@, pattern, value)
        } else {
            states[i + 1] == states[i] && (es[i].is_file ==> left_as_is(states[i], es[i].path@, pattern, value))
        }
}

/// Replacing `pattern` by `value` at `target` took the system from `before`
/// to `after` and changed `n` files: a file target was rewritten (one file)
/// or left; below a directory target, the walked files were rewritten or
/// left, one by one (the entries being those of the directory's walk), and
/// `n` counts the rewritten ones; anything else was left.
pub open spec fn replacement_done<S: System>(
    before: S,
    after: S,
    target: Seq<char>,
    pattern: Seq<char>,
    value: Seq<char>,
    n: nat,
) -> bool {
    if before.fs_files().contains_key(components(target)) {
        (n == 1 && file_rewritten(before, after, target, pattern, value)) || (n == 0 && after == before
            && left_as_is(before, target, pattern, value))
    } else if before.fs_dirs().contains(components(target)) {
        exists|es: Seq<WalkEntry>, states: Seq<S>, changed: Seq<bool>|
            #[trigger] walk_replaced(es, states, changed, pattern, value) && states[0] == before && states[es.len() as int]
                == after && n == count_true(changed) && walk_matches(
                es,
                walk_rendered(before.fs_files(), before.fs_dirs(), components(target)),
            )
    } else {
        n == 0 && after == before
    }
}

/// A count that stops at the largest `usize`.
pub open spec fn capped(x: int) -> int {
    if x > usize::MAX {
        usize::MAX as int
    } else {
        x
    }
}

/// The counts added in order, each sum stopping at the largest `usize`.
pub open spec fn capped_total(counts: Seq<nat>) -> int
    decreases counts.len(),
{
    if counts.len() == 0 {
        0
    } else {
        capped(capped_total(counts.drop_last()) + counts.last())
    }
}

/// The replacements of `patterns`, in order, went from `states[i]` to
/// `states[i + 1]` at `target`, the `i`-th with the value `values[i]`,
/// changing `counts[i]` files.
pub open spec fn replacements_trace<S: System>(
    target: Seq<char>,
    patterns: Seq<Seq<char>>,
    states: Seq<S>,
    counts: Seq<nat>,
    values: Seq<Seq<char>>,
) -> bool {
    &&& states.len() == patterns.len() + 1
    &&& counts.len() == patterns.len()
    &&& values.len() == patterns.len()
    &&& forall|i: int|
        0 <= i < patterns.len() ==> replacement_done(states[i], states[i + 1], target, #[trigger] patterns[i], values[i], counts[i])
}

/// The replacements of `patterns`, with the values `values`, took the
/// system from `before` to `after` at `target`, in order, and changed `n`
/// files in all (see [`replacements_trace`]).
pub open spec fn replacements_applied<S: System>(
    before: S,
    after: S,
    target: Seq<char>,
    patterns: Seq<Seq<char>>,
    values: Seq<Seq<char>>,
    n: nat,
) -> bool {
    exists|states: Seq<S>, counts: Seq<nat>|
        #[trigger] replacements_trace(target, patterns, states, counts, values) && states[0] == before
            && states[patterns.len() as int] == after && n == capped_total(counts)
}

/// The value of a replacement: its static target, or the value of its
/// environment variable.
pub open spec fn config_value(r: ReplacementConfig, env: Map<Seq<char>, Seq<char>>) -> Seq<char> {
    match r.target {
        Some(t) => t@,
        None => match r.value_from_env {
            Some(v) => env[v@],
            None => Seq::empty(),
        },
    }
}

/// The values of the replacements, each its own.
pub open spec fn config_values(rs: Seq<ReplacementConfig>, env: Map<Seq<char>, Seq<char>>) -> Seq<Seq<char>> {
    rs.map_values(|r: ReplacementConfig| config_value(r, env))
}

/// The value of a `.graft.yaml` replacement: its static target, the value
/// of its environment variable, or the text of its context value.
pub open spec fn graft_value(r: GraftReplacement, context: Map<Seq<char>, JsonModel>, env: Map<Seq<char>, Seq<char>>) -> Seq<char> {
    match r.target {
        Some(t) => t@,
        None => match r.value_from_env {
            Some(v) => env[v@],
            None => match r.value_from_context {
                Some(k) => value_text(context[k@]),
                None => Seq::empty(),
            },
        },
    }
}

/// The values of the `.graft.yaml` replacements, each its own.
pub open spec fn graft_values(
    rs: Seq<GraftReplacement>,
    context: Map<Seq<char>, JsonModel>,
    env: Map<Seq<char>, Seq<char>>,
) -> Seq<Seq<char>> {
    rs.map_values(|r: GraftReplacement| graft_value(r, context, env))
}

/// Law: each replacement of a list gets its own value: one with a static
/// target gets that text, one with an environment variable gets that
/// variable's value, whatever the other replacements of the list are.
pub proof fn replacements_get_their_own_values(rs: Seq<ReplacementConfig>, env: Map<Seq<char>, Seq<char>>, i: int)
    requires
        0 <= i < rs.len(),
    ensures
        config_values(rs, env).len() == rs.len(),
        config_values(rs, env)[i] == config_values(seq![rs[i]], env)[0],
        rs[i].target matches Some(t) ==> config_values(rs, env)[i] == t@,
        rs[i].target is None ==> (rs[i].value_from_env matches Some(v) ==> config_values(rs, env)[i] == env[v@]),
{
}

/// Law: each `.graft.yaml` replacement of a list gets its own value: its
/// static target, its environment variable's value, or the text of its own
/// context property, whatever the other replacements are.
pub proof fn graft_replacements_get_their_own_values(
    rs: Seq<GraftReplacement>,
    context: Map<Seq<char>, JsonModel>,
    env: Map<Seq<char>, Seq<char>>,
    i: int,
)
    requires
        0 <= i < rs.len(),
    ensures
        graft_values(rs, context, env).len() == rs.len(),
        graft_values(rs, context, env)[i] == graft_values(seq![rs[i]], context, env)[0],
        rs[i].target matches Some(t) ==> graft_values(rs, context, env)[i] == t@,
        rs[i].target is None && rs[i].value_from_env is None ==> (rs[i].value_from_context matches Some(k)
            ==> graft_values(rs, context, env)[i] == value_text(context[k@])),
{
}

/// Law: a replacement never leaves a text file unchanged when replacing its
/// pattern changes the text: the file then holds the replaced text, and it
/// is counted.
pub proof fn replacement_rewrites_text_files<S: System>(
    before: S,
    after: S,
    target: Seq<char>,
    pattern: Seq<char>,
    value: Seq<char>,
    n: nat,
    text: Seq<char>,
)
    requires
        replacement_done(before, after, target, pattern, value, n),
        before.fs_files().contains_key(components(target)),
        !file_is_binary(before, target),
        utf8_decoded(before.fs_files()[components(target)]) == Ok::<Seq<char>, Seq<char>>(text),
        seq_contains(text, pattern),
        replace_all(text, pattern, value) != text,
    ensures
        n == 1,
        after.fs_files().contains_key(components(target)),
        after.fs_files()[components(target)] == vstd::utf8::encode_utf8(replace_all(text, pattern, value)),
{
}

fn read_dir_error(dir: &str, e: IoError) -> (r: GraftError)
    ensures
        r.is(ErrorKind::Other, "Failed to read directory: "@ + dir@ + ": "@ + e.message@),
{
    let mut m = owned("Failed to read directory: ");
    m.append(dir);
    m.append(": ");
    m.append(e.message.as_str());
    GraftError::other(m)
}

/// Apply a replacement to every text file of a directory tree.
fn walk_and_apply<S: System>(
    system: &mut S,
    dir_path: &str,
    search_pattern: &str,
    replacement_value: &str,
) -> (r: Result<usize, GraftError>)
    ensures
        S::keeps_model() ==> (r matches Ok(n) ==> exists|es: Seq<WalkEntry>, states: Seq<S>, changed: Seq<bool>|
            #[trigger] walk_replaced(es, states, changed, search_pattern@, replacement_value@) && states[0] == *old(
                system,
            ) && states[es.len() as int] == *final(system) && n == count_true(changed) && walk_matches(
                es,
                walk_rendered(old(system).fs_files(), old(system).fs_dirs(), components(dir_path@)),
            )),
        S::keeps_model() ==> (r is Ok ==> final(system).fs_env() == old(system).fs_env()),
{
    let entries = match system.walk_all(dir_path, true) {
        Ok(es) => es,
        Err(e) => return Err(read_dir_error(dir_path, e)),
    };
    let ghost mut states: Seq<S> = seq![*system];
    let ghost mut changed: Seq<bool> = Seq::empty();
    let mut files_processed: usize = 0;
    let mut i: usize = 0;
    while i < entries.len()
        invariant
            i <= entries.len(),
            files_processed <= i,
            states.len() == i + 1,
            changed.len() == i,
            states[0] == *old(system),
            states[i as int] == *system,
            files_processed == count_true(changed),
            S::keeps_model() ==> forall|k: int|
                0 <= k < i ==> if #[trigger] changed[k] {
                    entries@[k].is_file && file_rewritten(
                        states[k],
                        states[k + 1],
                        entries@[k].path@,
                        search_pattern@,
                        replacement_value@,
                    )
                } else {
                    states[k + 1] == states[k] && (entries@[k].is_file ==> left_as_is(
                        states[k],
                        entries@[k].path@,
                        search_pattern@,
                        replacement_value@,
                    ))
                },
            S::keeps_model() ==> system.fs_env() == old(system).fs_env(),
        decreases entries.len() - i,
    {
        let mut done = false;
        if entries[i].is_file {
            if apply_replacement_to_file(system, entries[i].path.as_str(), search_pattern, replacement_value)? {
                files_processed = files_processed + 1;
                done = true;
            }
        }
        proof {
            let next = changed.push(done);
            assert(next.drop_last() =~= changed);
            states = states.push(*system);
            changed = next;
        }
        i = i + 1;
    }
    assert(entries@.len() == i);
    assert(S::keeps_model() ==> walk_replaced(entries@, states, changed, search_pattern@, replacement_value@));
    Ok(files_processed)
}

/// Apply a single replacement to a file, or to every text file below a
/// directory; gives the number of files changed.
pub fn apply_single_replacement<S: System>(
    system: &mut S,
    target_path: &str,
    search_pattern: &str,
    replacement_value: &str,
) -> (r: Result<usize, GraftError>)
    ensures
        S::keeps_model() ==> (r matches Ok(n) ==> replacement_done(
            *old(system),
            *final(system),
            target_path@,
            search_pattern@,
            replacement_value@,
            n as nat,
        )),
        S::keeps_model() ==> (r is Ok ==> final(system).fs_env() == old(system).fs_env()),
{
    let is_file = match system.is_file(target_path) {
        Ok(b) => b,
        Err(e) => return Err(io_to_graft(e)),
    };
    if is_file {
        if apply_replacement_to_file(system, target_path, search_pattern, replacement_value)? {
            return Ok(1);
        }
        return Ok(0);
    }
    let is_dir = match system.is_dir(target_path) {
        Ok(b) => b,
        Err(e) => return Err(io_to_graft(e)),
    };
    if is_dir {
        return walk_and_apply(system, target_path, search_pattern, replacement_value);
    }
    Ok(0)
}

fn missing_target_error(dir: &str) -> (e: GraftError)
    ensures
        e.is(ErrorKind::Filesystem, missing_target_message(dir@)),
{
    let mut m = owned("Target directory does not exist: ");
    m.append(dir);
    GraftError::filesystem(m)
}

/// Apply text replacements to the files of a target; gives the number of
/// file changes.
pub fn apply_replacements<S: System>(
    system: &mut S,
    target_dir: &str,
    replacements: &[ReplacementConfig],
) -> (r: Result<usize, GraftError>)
    ensures
        replacements.len() == 0 ==> r == Ok::<usize, GraftError>(0),
        S::keeps_model() ==> (r matches Ok(n) ==> replacements_applied(
            *old(system),
            *final(system),
            target_dir@,
            replacements@.map_values(|x: ReplacementConfig| x.source@),
            config_values(replacements@, old(system).fs_env()),
            n as nat,
        )),
{
    if replacements.len() == 0 {
        proof {
            let st: Seq<S> = seq![*system];
            assert(replacements_trace(
                target_dir@,
                replacements@.map_values(|x: ReplacementConfig| x.source@),
                st,
                Seq::<nat>::empty(),
                config_values(replacements@, system.fs_env()),
            ));
        }
        return Ok(0);
    }
    if !system.path_exists(target_dir).map_err(|e: IoError| io_to_graft(e))? {
        return Err(missing_target_error(target_dir));
    }
    let ghost patterns = replacements@.map_values(|x: ReplacementConfig| x.source@);
    let ghost mut states: Seq<S> = seq![*system];
    let ghost mut counts: Seq<nat> = Seq::empty();
    let ghost mut values: Seq<Seq<char>> = Seq::empty();
    let mut total: usize = 0;
    let mut i: usize = 0;
    while i < replacements.len()
        invariant
            i <= replacements.len(),
            patterns == replacements@.map_values(|x: ReplacementConfig| x.source@),
            S::keeps_model() ==> system.fs_env() == old(system).fs_env(),
            S::keeps_model() ==> forall|k: int| 0 <= k < i ==> values[k] == (#[trigger] config_values(replacements@, old(system).fs_env()))[k],
            states.len() == i + 1,
            counts.len() == i,
            values.len() == i,
            states[0] == *old(system),
            states[i as int] == *system,
            total == capped_total(counts),
            S::keeps_model() ==> forall|k: int|
                0 <= k < i ==> replacement_done(states[k], states[k + 1], target_dir@, #[trigger] patterns[k], values[k], counts[k]),
        decreases replacements.len() - i,
    {
        let value = get_replacement_value(system, &replacements[i])?;
        let n = apply_single_replacement(system, target_dir, replacements[i].source.as_str(), value.as_str())?;
        total = total.saturating_add(n);
        proof {
            let next = counts.push(n as nat);
            assert(next.drop_last() =~= counts);
            assert(patterns[i as int] == replacements@[i as int].source@);
            states = states.push(*system);
            counts = next;
            values = values.push(value@);
        }
        i = i + 1;
    }
    proof {
        if S::keeps_model() {
            assert(values =~= config_values(replacements@, old(system).fs_env()));
            assert(replacements_trace(target_dir@, patterns, states, counts, values));
        }
    }
    Ok(total)
}

/// Apply `.graft.yaml` replacements (with context values) to the files of a
/// target; gives the number of file changes.
pub fn apply_graft_replacements<S: System>(
    system: &mut S,
    target_dir: &str,
    replacements: &[GraftReplacement],
    context: &ContextValues,
) -> (r: Result<usize, GraftError>)
    ensures
        replacements.len() == 0 ==> r == Ok::<usize, GraftError>(0),
        S::keeps_model() ==> (r matches Ok(n) ==> replacements_applied(
            *old(system),
            *final(system),
            target_dir@,
            replacements@.map_values(|x: GraftReplacement| x.source@),
            graft_values(replacements@, context@, old(system).fs_env()),
            n as nat,
        )),
{
    if replacements.len() == 0 {
        proof {
            let st: Seq<S> = seq![*system];
            assert(replacements_trace(
                target_dir@,
                replacements@.map_values(|x: GraftReplacement| x.source@),
                st,
                Seq::<nat>::empty(),
                graft_values(replacements@, context@, system.fs_env()),
            ));
        }
        return Ok(0);
    }
    if !system.path_exists(target_dir).map_err(|e: IoError| io_to_graft(e))? {
        return Err(missing_target_error(target_dir));
    }
    let ghost patterns = replacements@.map_values(|x: GraftReplacement| x.source@);
    let ghost mut states: Seq<S> = seq![*system];
    let ghost mut counts: Seq<nat> = Seq::empty();
    let ghost mut values: Seq<Seq<char>> = Seq::empty();
    let mut total: usize = 0;
    let mut i: usize = 0;
    while i < replacements.len()
        invariant
            i <= replacements.len(),
            patterns == replacements@.map_values(|x: GraftReplacement| x.source@),
            S::keeps_model() ==> system.fs_env() == old(system).fs_env(),
            S::keeps_model() ==> forall|k: int| 0 <= k < i ==> values[k] == (#[trigger] graft_values(replacements@, context@, old(system).fs_env()))[k],
            states.len() == i + 1,
            counts.len() == i,
            values.len() == i,
            states[0] == *old(system),
            states[i as int] == *system,
            total == capped_total(counts),
            S::keeps_model() ==> forall|k: int|
                0 <= k < i ==> replacement_done(states[k], states[k + 1], target_dir@, #[trigger] patterns[k], values[k], counts[k]),
        decreases replacements.len() - i,
    {
        let value = get_graft_replacement_value(system, &replacements[i], context)?;
        let n = apply_single_replacement(system, target_dir, replacements[i].source.as_str(), value.as_str())?;
        total = total.saturating_add(n);
        proof {
            let next = counts.push(n as nat);
            assert(next.drop_last() =~= counts);
            assert(patterns[i as int] == replacements@[i as int].source@);
            states = states.push(*system);
            counts = next;
            values = values.push(value@);
        }
        i = i + 1;
    }
    proof {
        if S::keeps_model() {
            assert(values =~= graft_values(replacements@, context@, old(system).fs_env()));
            assert(replacements_trace(target_dir@, patterns, states, counts, values));
        }
    }
    Ok(total)
}

/// Apply a regex replacement to one file (binary files are skipped).
fn apply_regex_to_file<S: System>(system: &mut S, file_path: &str, pattern: &str, replacement: &str) -> (r:
    Result<bool, GraftError>) {
    if is_binary_file(system, file_path)? {
        return Ok(false);
    }
    let content = match system.read_to_string(file_path) {
        Ok(c) => c,
        Err(e) => {
            let mut m = owned("Failed to read file for regex replacement: ");
            m.append(file_path);
            m.append(": ");
            m.append(e.message.as_str());
            return Err(GraftError::other(m));
        },
    };
    let new_content = match regex_replace_all(pattern, content.as_str(), replacement) {
        Ok(c) => c,
        Err(e) => return Err(invalid_regex_error(pattern, e)),
    };
    if !str_eq(new_content.as_str(), content.as_str()) {
        if let Err(e) = system.write(file_path, new_content.as_str().as_bytes()) {
            let mut m = owned("Failed to write file after regex replacement: ");
            m.append(file_path);
            m.append(": ");
            m.append(e.message.as_str());
            return Err(GraftError::other(m));
        }
        return Ok(true);
    }
    Ok(false)
}

fn invalid_regex_error(pattern: &str, e: String) -> (r: GraftError)
    ensures
        r.is(ErrorKind::Other, "Invalid regex pattern: "@ + pattern@ + ": "@ + e@),
{
    let mut m = owned("Invalid regex pattern: ");
    m.append(pattern);
    m.append(": ");
    m.append(e.as_str());
    GraftError::other(m)
}

/// Apply a regex replacement to a file, or to every text file below a
/// directory; gives the number of files changed. A pattern that does not
/// compile is an error before any file is read.
pub fn apply_regex_replacement<S: System>(
    system: &mut S,
    target_path: &str,
    pattern: &str,
    replacement: &str,
) -> (r: Result<usize, GraftError>)
    ensures
        regex_replaced(pattern@, ""@, replacement@) is Err ==> (r matches Err(e) && e.is(
            ErrorKind::Other,
            "Invalid regex pattern: "@ + pattern@ + ": "@ + regex_replaced(pattern@, ""@, replacement@)->Err_0,
        )),
{
    if let Err(e) = regex_replace_all(pattern, "", replacement) {
        return Err(invalid_regex_error(pattern, e));
    }
    if system.is_file(target_path).map_err(|e: IoError| io_to_graft(e))? {
        if apply_regex_to_file(system, target_path, pattern, replacement)? {
            return Ok(1);
        }
        return Ok(0);
    } else if system.is_dir(target_path).map_err(|e: IoError| io_to_graft(e))? {
        let entries = match system.walk_all(target_path, true) {
            Ok(es) => es,
            Err(e) => return Err(read_dir_error(target_path, e)),
        };
        let mut files_processed: usize = 0;
        let mut i: usize = 0;
        while i < entries.len()
            invariant
                i <= entries.len(),
                files_processed <= i,
                regex_replaced(pattern@, ""@, replacement@) is Ok,
            decreases entries.len() - i,
        {
            if entries[i].is_file {
                if apply_regex_to_file(system, entries[i].path.as_str(), pattern, replacement)? {
                    files_processed = files_processed + 1;
                }
            }
            i = i + 1;
        }
        return Ok(files_processed);
    }
    Ok(0)
}

/// Preview information for a replacement.
#[derive(Debug)]
pub struct ReplacementPreview {
    pub search_pattern: String,
    pub replacement_value: String,
    pub affected_files: Vec<String>,
}

/// Does a (non-binary) file contain the pattern?
fn file_contains_pattern<S: System>(system: &S, file_path: &str, pattern: &str) -> (r: Result<
    bool,
    GraftError,
>) {
    if is_binary_file(system, file_path)? {
        return Ok(false);
    }
    match system.read_to_string(file_path) {
        Ok(c) => Ok(str_contains(c.as_str(), pattern)),
        Err(e) => {
            let mut m = owned("Failed to read file for pattern check: ");
            m.append(file_path);
            m.append(": ");
            m.append(e.message.as_str());
            Err(GraftError::other(m))
        },
    }
}

/// The files holding a pattern: the target itself when it is a file, or the
/// text files below it.
fn find_files_with_pattern<S: System>(system: &S, target_path: &str, pattern: &str) -> (r: Result<
    Vec<String>,
    GraftError,
>) {
    let mut matching: Vec<String> = Vec::new();
    if system.is_file(target_path).map_err(|e: IoError| io_to_graft(e))? {
        if file_contains_pattern(system, target_path, pattern)? {
            matching.push(owned(target_path));
        }
    } else if system.is_dir(target_path).map_err(|e: IoError| io_to_graft(e))? {
        let entries = match system.walk_all(target_path, true) {
            Ok(es) => es,
            Err(e) => return Err(read_dir_error(target_path, e)),
        };
        let mut i: usize = 0;
        while i < entries.len()
            invariant
                i <= entries.len(),
            decreases entries.len() - i,
        {
            if entries[i].is_file && file_contains_pattern(system, entries[i].path.as_str(), pattern)? {
                matching.push(entries[i].path.clone());
            }
            i = i + 1;
        }
    }
    Ok(matching)
}

/// Preview what replacements would be applied (for dry run): one preview
/// per replacement, in order.
pub fn preview_replacements<S: System>(
    system: &S,
    target_dir: &str,
    replacements: &[ReplacementConfig],
) -> (r: Result<Vec<ReplacementPreview>, GraftError>)
    ensures
        replacements@.len() == 0 ==> (r matches Ok(ps) && ps@.len() == 0),
        r matches Ok(ps) ==> ps@.len() == replacements@.len() && forall|i: int|
            0 <= i < ps@.len() ==> (#[trigger] ps@[i]).search_pattern@ == replacements@[i].source@,
{
    let mut previews: Vec<ReplacementPreview> = Vec::new();
    let mut i: usize = 0;
    while i < replacements.len()
        invariant
            i <= replacements.len(),
            previews@.len() == i,
            forall|k: int| 0 <= k < i ==> (#[trigger] previews@[k]).search_pattern@ == replacements@[k].source@,
        decreases replacements.len() - i,
    {
        let value = get_replacement_value(system, &replacements[i])?;
        let files = find_files_with_pattern(system, target_dir, replacements[i].source.as_str())?;
        previews.push(
            ReplacementPreview {
                search_pattern: replacements[i].source.clone(),
                replacement_value: value,
                affected_files: files,
            },
        );
        i = i + 1;
    }
    Ok(previews)
}

} // verus!
