//! Pull operation coordination: building the configuration from the
//! command line and the configuration file, and running (or previewing) its
//! pulls and child configurations.

use vstd::prelude::*;
use crate::cli::args::{
    clone_opt, opt_view, parse_context_args, parsed_context, Args, PullArgs, PullConfig,
    ReplacementConfig,
};
use crate::config::context::{
    merge_context_values, merged_values, reads_floats, ContextPropertyDefinition, ContextValues, FloatReading,
    ValidatedContext,
};
use crate::config::graft_yaml::{read_graft_file, GraftConfig, GraftReplacement, PostCommand};
use crate::config::{Config, ConfigParser};
use crate::error::{ErrorKind, GraftError, IoError};
use crate::git::repository::{io_to_graft, normalized_url, Repository, RepositorySource};
use crate::git::sparse_checkout::{check_git_availability, checkout_requests, SparseCheckout};
use crate::operations::commands::{execute_commands, shell_requests};
use crate::operations::copy::{copied_from, copy_files, file_copied, walk_copied};
use crate::operations::discovery::{
    cleanup_graft_files, discover_graft_files, found_views, grafts_of_walk, hierarchy_ok, sort_by_depth, DiscoveredGraft,
    walked_grafts_removed, Found,
};
use crate::operations::post_commands::{execute_post_commands, post_commands_ran};
use crate::operations::replace::{apply_graft_replacements, apply_replacements, capped, config_values, replacements_applied};
use crate::operations::to_command_line::formatted_replacement;
use crate::path::{join, parent, path_join, path_parent, same_path, components};
use crate::system::{lemma_prefix_append, lemma_prefix_push, lemma_prefix_trans, ProcessRunner, RunRequest, System, WalkEntry};
use crate::text::{
    chars_of, decimal, find_char, first_index_of, index_label, lemma_first_index_props, owned,
    seq_ends_with, seq_starts_with, skip_chars, split_char, split_char_exec, str_ends_with, str_eq,
    str_starts_with, string_from_range, string_views, trim_str, trimmed, usize_to_decimal,
};
use crate::utils::path::path_starts_with;

verus! {

/// What a `SOURCE=TARGET` or `SOURCE=env:VAR` string gives: the source and
/// either the target or the variable.
pub open spec fn replacement_parts(input: Seq<char>) -> Option<(Seq<char>, Option<Seq<char>>, Option<Seq<char>>)> {
    match first_index_of(input, '=') {
        None => None,
        Some(i) => {
            let rest = input.skip(i + 1);
            if seq_starts_with(rest, "env:"@) {
                Some((input.take(i), None, Some(rest.skip(4))))
            } else {
                Some((input.take(i), Some(rest), None))
            }
        },
    }
}

/// The parts of a replacement.
pub open spec fn replacement_view(r: ReplacementConfig) -> (Seq<char>, Option<Seq<char>>, Option<Seq<char>>) {
    (r.source@, opt_view(r.target), opt_view(r.value_from_env))
}

/// The message of a replacement string without `=`.
pub open spec fn replacement_format_message(input: Seq<char>) -> Seq<char> {
    "Invalid replacement format: '"@ + input + "'. Expected 'SOURCE=TARGET' or 'SOURCE=env:VAR'"@
}

/// Parse a replacement string in format "SOURCE=TARGET" or "SOURCE=env:VAR"
/// (split at the first `=`).
pub fn parse_replacement_string(input: &str) -> (r: Result<ReplacementConfig, GraftError>)
    ensures
        match replacement_parts(input@) {
            Some(p) => r matches Ok(c) && replacement_view(c) == p,
            None => r matches Err(e) && e.is(ErrorKind::Configuration, replacement_format_message(input@)),
        },
{
    let v = chars_of(input);
    proof {
        lemma_first_index_props(v@, '=');
    }
    match find_char(v.as_slice(), '=') {
        None => {
            let mut m = owned("Invalid replacement format: '");
            m.append(input);
            m.append("'. Expected 'SOURCE=TARGET' or 'SOURCE=env:VAR'");
            Err(GraftError::configuration(m))
        },
        Some(i) => {
            assert(i < v.len());
            proof {
                reveal_strlit("env:");
            }
            let source = string_from_range(v.as_slice(), 0, i);
            let rest = string_from_range(v.as_slice(), i + 1, v.len());
            assert(v@.subrange(0, i as int) =~= input@.take(i as int));
            assert(v@.subrange(i + 1, v.len() as int) =~= input@.skip(i + 1));
            if str_starts_with(rest.as_str(), "env:") {
                let var = skip_chars(rest.as_str(), 4);
                Ok(ReplacementConfig { source, target: None, value_from_env: Some(var) })
            } else {
                Ok(ReplacementConfig { source, target: Some(rest), value_from_env: None })
            }
        },
    }
}

/// Law: parsing a replacement string and formatting it again gives the
/// string back.
pub proof fn replacement_string_round_trip(input: Seq<char>, r: ReplacementConfig)
    requires
        replacement_parts(input) == Some(replacement_view(r)),
    ensures
        formatted_replacement(r) == input,
{
    reveal_strlit("env:");
    reveal_strlit("=env:");
    reveal_strlit("=");
    lemma_first_index_props(input, '=');
    let i = first_index_of(input, '=')->Some_0;
    let rest = input.skip(i + 1);
    if seq_starts_with(rest, "env:"@) {
        assert(rest.subrange(0, 4) == "env:"@);
        assert(rest =~= "env:"@ + rest.skip(4));
        assert(input =~= input.take(i) + "=env:"@ + rest.skip(4)) by {
            assert(input =~= input.take(i) + seq!['='] + rest);
        }
    } else {
        assert(input =~= input.take(i) + "="@ + rest) by {
            assert(input =~= input.take(i) + seq!['='] + rest);
        }
    }
}

/// Law: formatting a replacement and parsing the text gives the replacement
/// back, when its source has no `=`, exactly one of target and variable is
/// set, and a target does not start with `env:` (such a target reads back
/// as a variable). With the contracts of `format_replacement` (the text is
/// `formatted_replacement`) and `parse_replacement_string` (the result's
/// parts are `replacement_parts` of the text), parsing the formatted text
/// gives the same source, target and variable.
pub proof fn replacement_format_round_trip(r: ReplacementConfig)
    requires
        !r.source@.contains('='),
        r.target is Some != r.value_from_env is Some,
        r.target matches Some(t) ==> !seq_starts_with(t@, "env:"@),
    ensures
        replacement_parts(formatted_replacement(r)) == Some(replacement_view(r)),
{
    reveal_strlit("env:");
    reveal_strlit("=env:");
    reveal_strlit("=");
    let s = formatted_replacement(r);
    let src = r.source@;
    let n = src.len();
    lemma_first_index_props(s, '=');
    assert(s[n as int] == '=');
    assert forall|j: int| 0 <= j < n implies s[j] != '=' by {
        assert(s[j] == src[j]);
        if s[j] == '=' {
            assert(src.contains('='));
        }
    }
    lemma_first_index_props(s, '=');
    if first_index_of(s, '=') is None {
        assert(false);
    }
    let i = first_index_of(s, '=')->Some_0;
    if i < n {
        assert(s[i] == src[i]);
        assert(src.contains('='));
    }
    if i > n {
        assert(s[n as int] == '=');
    }
    assert(i == n);
    assert(s.take(n as int) =~= src);
    match r.value_from_env {
        Some(e) => {
            assert(s.skip(n as int + 1) =~= "env:"@ + e@);
            assert(("env:"@ + e@).subrange(0, 4) =~= "env:"@);
            assert(("env:"@ + e@).skip(4) =~= e@);
        },
        None => {
            let t = r.target->Some_0;
            assert(s.skip(n as int + 1) =~= t@);
        },
    }
}

/// The commands of a comma-separated list, each trimmed.
pub open spec fn split_commands(s: Seq<char>) -> Seq<Seq<char>> {
    split_char(s, ',').map_values(|x: Seq<char>| trimmed(x))
}

/// Split a comma-separated command list, trimming each command.
pub fn split_command_list(s: &str) -> (r: Vec<String>)
    ensures
        string_views(r@) == split_commands(s@),
{
    let parts = split_char_exec(s, ',');
    let ghost ps = parts@.map_values(|x: String| x@);
    let mut out: Vec<String> = Vec::new();
    let mut i: usize = 0;
    while i < parts.len()
        invariant
            i <= parts.len(),
            ps == parts@.map_values(|x: String| x@),
            string_views(out@) == ps.take(i as int).map_values(|x: Seq<char>| trimmed(x)),
        decreases parts.len() - i,
    {
        let t = trim_str(parts[i].as_str());
        let ghost before = out@;
        out.push(t);
        proof {
            assert(ps[i as int] == parts@[i as int]@);
            assert(string_views(out@) =~= string_views(before).push(t@));
            assert(ps.take(i as int + 1).map_values(|x: Seq<char>| trimmed(x)) =~= ps.take(i as int).map_values(
                |x: Seq<char>| trimmed(x),
            ).push(trimmed(ps[i as int])));
        }
        i = i + 1;
    }
    assert(ps.take(i as int) =~= ps);
    out
}

/// The replacements that a list of strings gives, or the message of the
/// first malformed one.
pub open spec fn parsed_replacements(strs: Seq<String>) -> Result<
    Seq<(Seq<char>, Option<Seq<char>>, Option<Seq<char>>)>,
    Seq<char>,
>
    decreases strs.len(),
{
    if strs.len() == 0 {
        Ok(Seq::empty())
    } else {
        match parsed_replacements(strs.drop_last()) {
            Err(m) => Err(m),
            Ok(rs) => match replacement_parts(strs.last()@) {
                Some(p) => Ok(rs.push(p)),
                None => Err(replacement_format_message(strs.last()@)),
            },
        }
    }
}

/// The parts of each replacement.
pub open spec fn replacement_views(s: Seq<ReplacementConfig>) -> Seq<(Seq<char>, Option<Seq<char>>, Option<Seq<char>>)> {
    s.map_values(|r: ReplacementConfig| replacement_view(r))
}

proof fn lemma_parsed_replacements_err(strs: Seq<String>, i: int)
    requires
        0 <= i < strs.len(),
        parsed_replacements(strs.take(i + 1)) is Err,
    ensures
        parsed_replacements(strs) == parsed_replacements(strs.take(i + 1)),
    decreases strs.len() - i,
{
    if i + 1 < strs.len() {
        assert(strs.take(i + 2).drop_last() =~= strs.take(i + 1));
        lemma_parsed_replacements_err(strs, i + 1);
    } else {
        assert(strs.take(i + 1) =~= strs);
    }
}

/// Parse the replacements of the command line. Every replacement applies to
/// every pull given on the command line.
pub fn parse_replacements_for_pull(pull_args: &PullArgs, pull_index: usize) -> (r: Result<
    Vec<ReplacementConfig>,
    GraftError,
>)
    ensures
        match parsed_replacements(pull_args.replacements@) {
            Ok(rs) => r matches Ok(v) && replacement_views(v@) == rs,
            Err(m) => r matches Err(e) && e.is(ErrorKind::Configuration, m),
        },
{
    let strs = &pull_args.replacements;
    let mut out: Vec<ReplacementConfig> = Vec::new();
    let mut i: usize = 0;
    assert(strs@.take(0) =~= Seq::<String>::empty());
    assert(replacement_views(out@) =~= Seq::<(Seq<char>, Option<Seq<char>>, Option<Seq<char>>)>::empty());
    while i < strs.len()
        invariant
            i <= strs.len(),
            strs@ == pull_args.replacements@,
            parsed_replacements(strs@.take(i as int)) == Ok::<
                Seq<(Seq<char>, Option<Seq<char>>, Option<Seq<char>>)>,
                Seq<char>,
            >(replacement_views(out@)),
        decreases strs.len() - i,
    {
        assert(strs@.take(i as int + 1).drop_last() =~= strs@.take(i as int));
        assert(strs@.take(i as int + 1).last() == strs@[i as int]);
        let rep = match parse_replacement_string(strs[i].as_str()) {
            Ok(rep) => rep,
            Err(e) => {
                proof {
                    assert(replacement_parts(strs@[i as int]@) is None);
                    assert(parsed_replacements(strs@.take(i as int + 1)) == Err::<
                        Seq<(Seq<char>, Option<Seq<char>>, Option<Seq<char>>)>,
                        Seq<char>,
                    >(replacement_format_message(strs@[i as int]@)));
                    lemma_parsed_replacements_err(strs@, i as int);
                }
                return Err(e);
            },
        };
        let ghost before = out@;
        out.push(rep);
        assert(replacement_views(out@) =~= replacement_views(before).push(replacement_view(rep)));
        i = i + 1;
    }
    assert(strs@.take(i as int) =~= strs@);
    Ok(out)
}

/// The message of a source count that differs from the target count.
pub open spec fn mismatch_message(sources: nat, targets: nat) -> Seq<char> {
    "Mismatch: "@ + crate::text::decimal(sources) + " sources specified but "@ + crate::text::decimal(
        targets,
    ) + " targets. Each source must have a corresponding target"@
}

/// The `i`-th element when there is one.
pub open spec fn nth_view(v: Seq<String>, i: int) -> Option<Seq<char>> {
    if 0 <= i < v.len() {
        Some(v[i]@)
    } else {
        None
    }
}

/// The `i`-th flag, or the default.
pub open spec fn nth_flag(v: Seq<bool>, i: int, default: bool) -> bool {
    if 0 <= i < v.len() {
        v[i]
    } else {
        default
    }
}

/// A pull made from the command line matches the arguments at its index.
pub open spec fn cli_pull_ok(pa: PullArgs, i: int, p: PullConfig, repls: Seq<(Seq<char>, Option<Seq<char>>, Option<Seq<char>>)>) -> bool {
    &&& p.source@ == pa.sources@[i]@
    &&& p.target@ == pa.targets@[i]@
    &&& p.pull_type@ == (if 0 <= i < pa.types@.len() { pa.types@[i]@ } else { "directory"@ })
    &&& opt_view(p.repository) == nth_view(pa.repositories@, i)
    &&& opt_view(p.tag) == nth_view(pa.tags@, i)
    &&& p.reset == nth_flag(pa.resets@, i, false)
    &&& p.require_clean_target == nth_flag(pa.require_clean_targets@, i, true)
    &&& p.must_succeed == nth_flag(pa.must_succeeds@, i, true)
    &&& string_views(p.commands@) == (if 0 <= i < pa.commands@.len() {
        split_commands(pa.commands@[i]@)
    } else {
        Seq::empty()
    })
    &&& replacement_views(p.replacements@) == repls
    &&& p.context@ == Map::<Seq<char>, crate::json::JsonModel>::empty()
}

fn nth_opt(v: &Vec<String>, i: usize) -> (r: Option<String>)
    ensures
        opt_view(r) == nth_view(v@, i as int),
{
    if i < v.len() {
        Some(v[i].clone())
    } else {
        None
    }
}

fn nth_bool(v: &Vec<bool>, i: usize, default: bool) -> (r: bool)
    ensures
        r == nth_flag(v@, i as int, default),
{
    if i < v.len() {
        v[i]
    } else {
        default
    }
}

/// Create pull configurations from the command line: one per source, with
/// the per-pull flags at the same index.
pub fn create_pulls_from_cli(pull_args: &PullArgs) -> (r: Result<Vec<PullConfig>, GraftError>)
    ensures
        pull_args.sources@.len() == 0 ==> (r matches Ok(v) && v@.len() == 0),
        pull_args.sources@.len() > 0 && pull_args.targets@.len() != pull_args.sources@.len() ==> (r matches Err(e)
            && e.is(
            ErrorKind::Configuration,
            mismatch_message(pull_args.sources@.len(), pull_args.targets@.len()),
        )),
        pull_args.sources@.len() > 0 && pull_args.targets@.len() == pull_args.sources@.len() ==> match parsed_replacements(
            pull_args.replacements@,
        ) {
            Ok(rs) => r matches Ok(v) && v@.len() == pull_args.sources@.len() && forall|i: int|
                0 <= i < v@.len() ==> cli_pull_ok(*pull_args, i, #[trigger] v@[i], rs),
            Err(m) => r matches Err(e) && e.is(ErrorKind::Configuration, m),
        },
{
    let mut pulls: Vec<PullConfig> = Vec::new();
    let count = pull_args.sources.len();
    if count == 0 {
        return Ok(pulls);
    }
    if pull_args.targets.len() != count {
        let mut m = owned("Mismatch: ");
        m.append(crate::text::usize_to_decimal(count).as_str());
        m.append(" sources specified but ");
        m.append(crate::text::usize_to_decimal(pull_args.targets.len()).as_str());
        m.append(" targets. Each source must have a corresponding target");
        return Err(GraftError::configuration(m));
    }
    let mut i: usize = 0;
    while i < count
        invariant
            count == pull_args.sources@.len(),
            count == pull_args.targets@.len(),
            i <= count,
            pulls@.len() == i,
            i > 0 ==> parsed_replacements(pull_args.replacements@) is Ok,
            forall|k: int|
                0 <= k < i ==> cli_pull_ok(
                    *pull_args,
                    k,
                    #[trigger] pulls@[k],
                    parsed_replacements(pull_args.replacements@)->Ok_0,
                ),
        decreases count - i,
    {
        let replacements = parse_replacements_for_pull(pull_args, i)?;
        let pull_type = if i < pull_args.types.len() {
            pull_args.types[i].clone()
        } else {
            owned("directory")
        };
        let commands = if i < pull_args.commands.len() {
            split_command_list(pull_args.commands[i].as_str())
        } else {
            let v: Vec<String> = Vec::new();
            assert(string_views(v@) =~= Seq::<Seq<char>>::empty());
            v
        };
        let pull = PullConfig {
            source: pull_args.sources[i].clone(),
            target: pull_args.targets[i].clone(),
            pull_type,
            repository: nth_opt(&pull_args.repositories, i),
            tag: nth_opt(&pull_args.tags, i),
            reset: nth_bool(&pull_args.resets, i, false),
            require_clean_target: nth_bool(&pull_args.require_clean_targets, i, true),
            must_succeed: nth_bool(&pull_args.must_succeeds, i, true),
            commands,
            replacements,
            context: ContextValues::new(),
        };
        pulls.push(pull);
        i = i + 1;
    }
    Ok(pulls)
}


/// Is the URL a local filesystem path?
pub open spec fn is_local_url_spec(url: Seq<char>) -> bool {
    seq_starts_with(url, "file://"@) || seq_starts_with(url, "~"@) || seq_starts_with(url, "./"@)
        || seq_starts_with(url, "../"@) || (seq_starts_with(url, "/"@) && !seq_starts_with(url, "git@"@)
        && !seq_starts_with(url, "http"@))
}

/// Quick check whether a URL is a local filesystem path.
pub fn is_local_url(url: &str) -> (r: bool)
    ensures
        r == is_local_url_spec(url@),
{
    str_starts_with(url, "file://") || str_starts_with(url, "~") || str_starts_with(url, "./")
        || str_starts_with(url, "../") || (str_starts_with(url, "/") && !str_starts_with(url, "git@")
        && !str_starts_with(url, "http"))
}

/// Does a pull need Git? With its own repository, when that is not local;
/// without one, when there is no global repository either.
pub open spec fn pull_needs_git(pull: PullConfig, global: Option<String>) -> bool {
    match pull.repository {
        Some(r) => !is_local_url_spec(r@),
        None => global is None,
    }
}

/// Does the configuration need Git (has at least one non-local repository)?
pub open spec fn needs_git(config: Config) -> bool {
    ||| (config.repository matches Some(r) && !is_local_url_spec(r@))
    ||| exists|i: int| 0 <= i < config.pulls@.len() && pull_needs_git(#[trigger] config.pulls@[i], config.repository)
}

/// Check whether the configuration requires Git.
pub fn requires_git(config: &Config) -> (r: bool)
    ensures
        r == needs_git(*config),
{
    if let Some(repo) = &config.repository {
        if !is_local_url(repo.as_str()) {
            return true;
        }
    }
    let mut i: usize = 0;
    while i < config.pulls.len()
        invariant
            i <= config.pulls.len(),
            !(config.repository matches Some(r) && !is_local_url_spec(r@)),
            forall|k: int| 0 <= k < i ==> !pull_needs_git(#[trigger] config.pulls@[k], config.repository),
        decreases config.pulls.len() - i,
    {
        let pull = &config.pulls[i];
        match &pull.repository {
            Some(repo) => {
                if !is_local_url(repo.as_str()) {
                    assert(pull_needs_git(config.pulls@[i as int], config.repository));
                    return true;
                }
            },
            None => {
                if config.repository.is_none() {
                    assert(pull_needs_git(config.pulls@[i as int], config.repository));
                    return true;
                }
            },
        }
        i = i + 1;
    }
    false
}

/// The repository and reference of a pull: its own, else the global ones,
/// else (for the reference) `main`; a pull without any repository is an
/// error.
pub open spec fn pull_source(config: Config, pull: PullConfig, index: nat) -> Result<(Seq<char>, Seq<char>), Seq<char>> {
    let repo = match pull.repository {
        Some(r) => Some(r@),
        None => opt_view(config.repository),
    };
    let reference = match pull.tag {
        Some(t) => t@,
        None => match config.tag {
            Some(t) => t@,
            None => "main"@,
        },
    };
    match repo {
        Some(r) => Ok((r, reference)),
        None => Err("No repository specified for pull #"@ + decimal(index + 1)),
    }
}

/// Law: a pull is fetched from its own repository and at its own tag when
/// it has them, whatever the configuration's are; without its own it takes
/// the configuration's (the reference `main` when neither has a tag); and
/// it has a source exactly when one of the two names a repository. So two
/// configurations that differ only in their tag fetch a pull with its own
/// tag identically.
pub proof fn pull_source_prefers_the_pull(config: Config, other: Config, pull: PullConfig, index: nat)
    requires
        other.repository == config.repository,
    ensures
        pull_source(config, pull, index) is Ok <==> (pull.repository is Some || config.repository is Some),
        pull.tag matches Some(t) ==> (pull_source(config, pull, index) matches Ok(p) ==> p.1 == t@),
        pull.repository matches Some(rp) ==> (pull_source(config, pull, index) matches Ok(p) ==> p.0 == rp@),
        pull.tag is None ==> (config.tag matches Some(t) ==> (pull_source(config, pull, index) matches Ok(p)
            ==> p.1 == t@)),
        pull.tag is None && config.tag is None ==> (pull_source(config, pull, index) matches Ok(p) ==> p.1
            == "main"@),
        pull.repository is None ==> (config.repository matches Some(rc) ==> (pull_source(config, pull, index) matches Ok(p)
            ==> p.0 == rc@)),
        pull.tag is Some ==> pull_source(config, pull, index) == pull_source(other, pull, index),
{
}

/// Determine the repository and reference of a pull.
pub fn pull_repository_and_reference(config: &Config, pull: &PullConfig, index: usize) -> (r: Result<
    (String, String),
    GraftError,
>)
    ensures
        match pull_source(*config, *pull, index as nat) {
            Ok((repo, reference)) => r matches Ok(p) && p.0@ == repo && p.1@ == reference,
            Err(m) => r matches Err(e) && e.is(ErrorKind::Configuration, m),
        },
{
    let repo = match &pull.repository {
        Some(r) => r.clone(),
        None => match &config.repository {
            Some(r) => r.clone(),
            None => {
                let mut m = owned("No repository specified for pull #");
                m.append(index_label(index).as_str());
                return Err(GraftError::configuration(m));
            },
        },
    };
    let reference = match &pull.tag {
        Some(t) => t.clone(),
        None => match &config.tag {
            Some(t) => t.clone(),
            None => owned("main"),
        },
    };
    Ok((repo, reference))
}

/// Merge the command-line arguments into a configuration: the repository
/// and tag given replace the file's; context values given are added over
/// the file's; pulls given replace the file's.
pub fn merge_cli_args(config: &mut Config, args: &Args) -> (r: Result<(), GraftError>)
    ensures
        match args.repository {
            Some(repo) => final(config).repository == Some(repo),
            None => final(config).repository == old(config).repository,
        },
        match args.tag {
            Some(t) => final(config).tag == Some(t),
            None => final(config).tag == old(config).tag,
        },
        args.context@.len() == 0 && args.context_json@.len() == 0 ==> final(config).context@ == old(
            config,
        ).context@,
        (args.context@.len() > 0 || args.context_json@.len() > 0) ==> match parsed_context(
            args.context@,
            args.context_json@,
        ) {
            Ok(m) => r is Ok ==> final(config).context@ == old(config).context@.union_prefer_right(m),
            Err(msg) => r matches Err(e) && e.is(ErrorKind::Other, msg),
        },
        args.pulls.sources@.len() == 0 ==> final(config).pulls@ == old(config).pulls@,
        r is Ok && args.pulls.sources@.len() > 0 ==> (parsed_replacements(args.pulls.replacements@) matches Ok(
            rs,
        ) && final(config).pulls@.len() == args.pulls.sources@.len() && forall|i: int|
            0 <= i < final(config).pulls@.len() ==> cli_pull_ok(args.pulls, i, #[trigger] final(config).pulls@[i], rs)),
        args.context@.len() == 0 && args.context_json@.len() == 0 && args.pulls.sources@.len() > 0
            && args.pulls.targets@.len() != args.pulls.sources@.len() ==> (r matches Err(e) && e.is(
            ErrorKind::Configuration,
            mismatch_message(args.pulls.sources@.len(), args.pulls.targets@.len()),
        )),
        final(config).children@ == old(config).children@,
        final(config).process_children_first == old(config).process_children_first,
{
    if let Some(repo) = &args.repository {
        config.repository = Some(repo.clone());
    }
    if let Some(tag) = &args.tag {
        config.tag = Some(tag.clone());
    }
    if args.context.len() > 0 || args.context_json.len() > 0 {
        let cli_context = args.parse_context()?;
        config.context.extend(&cli_context);
    }
    if args.pulls.sources.len() > 0 {
        config.pulls = create_pulls_from_cli(&args.pulls)?;
    }
    Ok(())
}

/// The message of a command line without pulls.
pub open spec fn no_pulls_message() -> Seq<char> {
    "No pull operations specified. Use --pull-source and --pull-target to define at least one pull."@
}

/// Build a configuration from the command-line arguments only (no file).
pub fn build_config_from_args(args: &Args) -> (r: Result<Config, GraftError>)
    ensures
        args.pulls.sources@.len() == 0 ==> (r matches Err(e) && e.is(ErrorKind::Configuration, no_pulls_message())),
        r matches Ok(c) ==> c.repository == args.repository && c.tag == args.tag && c.pulls@.len()
            == args.pulls.sources@.len() && c.pulls@.len() > 0 && c.children@.len() == 0
            && c.context@ == Map::<Seq<char>, crate::json::JsonModel>::empty(),
{
    let mut config = Config::empty();
    config.repository = clone_opt_exact(&args.repository);
    config.tag = clone_opt_exact(&args.tag);
    if args.pulls.sources.len() > 0 {
        config.pulls = create_pulls_from_cli(&args.pulls)?;
    }
    if config.pulls.len() == 0 && config.children.len() == 0 {
        return Err(GraftError::configuration(owned(
            "No pull operations specified. Use --pull-source and --pull-target to define at least one pull.",
        )));
    }
    Ok(config)
}

/// A copy of an optional string.
fn clone_opt_exact(o: &Option<String>) -> (r: Option<String>)
    ensures
        r == *o,
{
    match o {
        Some(s) => Some(s.clone()),
        None => None,
    }
}

/// Build a configuration from the configuration file (when it exists) with
/// the command-line arguments merged in.
pub fn build_merged_config<S: System, C: ConfigParser>(args: &Args, system: &S, parser: &C) -> (r: Result<
    Config,
    GraftError,
>)
    ensures
        r matches Ok(c) ==> c.pulls@.len() > 0 || c.children@.len() > 0,
{
    let exists = match system.path_exists(args.config.as_str()) {
        Ok(b) => b,
        Err(_) => false,
    };
    let mut config = if exists {
        Config::load_from_file(system, parser, args.config.as_str())?
    } else {
        Config::empty()
    };
    merge_cli_args(&mut config, args)?;
    if config.pulls.len() == 0 && config.children.len() == 0 {
        return Err(GraftError::configuration(owned(
            "No pull operations defined. Specify pulls in config file or via --pull-source/--pull-target.",
        )));
    }
    Ok(config)
}


/// The deepest level of child configurations.
pub const MAX_CHILDREN_DEPTH: usize = 11;

/// The message of a nesting deeper than allowed.
pub open spec fn max_depth_message() -> Seq<char> {
    "Max children depth (11) exceeded"@
}

/// What processing the `.graft.yaml` files of a pull did.
#[derive(Debug)]
pub struct GraftProcessingResult {
    /// Number of post-commands executed across all graft files.
    pub commands_executed: usize,
    /// Number of text replacements applied across all graft files.
    pub replacements_applied: usize,
}

/// What a single pull did.
#[derive(Debug)]
pub struct PullResult {
    /// Number of post-processing commands executed.
    pub commands_executed: usize,
    /// Number of files copied from source to target.
    pub files_copied: usize,
    /// Number of text replacements applied in copied files.
    pub replacements_applied: usize,
}

/// The context of a graft: for now the base context of the pull.
pub fn build_graft_context(discovered: &DiscoveredGraft, base_context: &ContextValues) -> (r: ContextValues)
    ensures
        r@ == base_context@,
{
    base_context.clone_values()
}

/// Load and check a `.graft.yaml` file.
pub fn load_graft_config<S: System, C: ConfigParser>(system: &S, parser: &C, path: &str) -> (r: Result<
    GraftConfig,
    GraftError,
>)
    ensures
        r matches Ok(g) ==> crate::config::graft_yaml::graft_config_error(g) is None,
{
    let text = read_graft_file(system, path)?;
    let config = match parser.parse_graft_config(text.as_str()) {
        Ok(c) => c,
        Err(detail) => return Err(GraftError::other(detail)),
    };
    config.validate()?;
    Ok(config)
}

/// The values that a graft's replacements are filled from: the graft's
/// context itself when the graft defines no properties, else that context
/// checked against the definitions and completed with their defaults.
pub fn graft_values<F: Fn(&str) -> FloatReading>(
    definitions: Vec<ContextPropertyDefinition>,
    graft_context: &ContextValues,
    read_float: &F,
) -> (r: Result<ContextValues, GraftError>)
    requires
        reads_floats(*read_float),
    ensures
        definitions@.len() == 0 ==> (r matches Ok(v) && v@ == graft_context@),
        definitions@.len() > 0 ==> match merged_values(definitions@, graft_context@, *read_float) {
            Ok(m) => r matches Ok(v) && v@ == m,
            Err(msg) => r matches Err(e) && e.is(ErrorKind::Configuration, msg),
        },
{
    if definitions.len() == 0 {
        return Ok(graft_context.clone_values());
    }
    let validated = ValidatedContext::new(definitions, graft_context.clone_values(), read_float)?;
    Ok(validated.values)
}

/// The number of post-commands of the graft configurations, added up as
/// `usize::saturating_add` does.
pub open spec fn command_total(cfgs: Seq<GraftConfig>) -> nat
    decreases cfgs.len(),
{
    if cfgs.len() == 0 {
        0
    } else {
        let t = command_total(cfgs.drop_last()) + cfgs.last().post_commands@.len();
        if t > usize::MAX {
            usize::MAX as nat
        } else {
            t
        }
    }
}

/// What a graft gets: the directory its replacements and post-commands work
/// in, its replacements with the values that fill them, and its
/// post-commands.
#[derive(Debug)]
pub struct GraftStep {
    pub directory: String,
    pub replacements: Vec<GraftReplacement>,
    pub values: ContextValues,
    pub post_commands: Vec<PostCommand>,
}

/// The step of a discovered graft with its loaded configuration: the
/// graft's directory, the configuration's replacements and post-commands,
/// and the values of [`graft_values`] for the base context; the error of
/// those values when the context does not meet the definitions.
pub fn graft_step<F: Fn(&str) -> FloatReading>(
    graft: &DiscoveredGraft,
    cfg: GraftConfig,
    base_context: &ContextValues,
    read_float: &F,
) -> (r: Result<GraftStep, GraftError>)
    requires
        reads_floats(*read_float),
    ensures
        cfg.context@.len() == 0 ==> (r matches Ok(s) && s.values@ == base_context@),
        cfg.context@.len() > 0 ==> match merged_values(cfg.context@, base_context@, *read_float) {
            Ok(m) => r matches Ok(s) && s.values@ == m,
            Err(msg) => r matches Err(e) && e.is(ErrorKind::Configuration, msg),
        },
        r matches Ok(s) ==> s.directory@ == graft.directory@ && s.replacements@ == cfg.replacements@
            && s.post_commands@ == cfg.post_commands@,
{
    let graft_context = build_graft_context(graft, base_context);
    let GraftConfig { context: definitions, post_commands, replacements } = cfg;
    let values = graft_values(definitions, &graft_context, read_float)?;
    Ok(GraftStep { directory: graft.directory.clone(), replacements, values, post_commands })
}

/// The number of post-commands that processing grafts with `n` valid
/// configurations, one per graft, runs: their post-commands, added up.
pub open spec fn commands_of_grafts(n: nat, commands: usize) -> bool {
    exists|cfgs: Seq<GraftConfig>|
        #![trigger command_total(cfgs)]
        cfgs.len() == n && commands == command_total(cfgs) && forall|k: int|
            0 <= k < cfgs.len() ==> crate::config::graft_yaml::graft_config_error(#[trigger] cfgs[k]) is None
}

/// The grafts were processed in order with the configurations `cfgs`: the
/// `i`-th went from the runs `marks[i]` to `marks[i + 1]`, its configuration
/// is valid, and its post-commands ran in order in its directory (it ran
/// nothing when it has none).
pub open spec fn grafts_ran(gs: Seq<DiscoveredGraft>, cfgs: Seq<GraftConfig>, marks: Seq<Seq<RunRequest>>) -> bool {
    &&& cfgs.len() == gs.len()
    &&& marks.len() == gs.len() + 1
    &&& forall|i: int|
        0 <= i < gs.len() ==> crate::config::graft_yaml::graft_config_error(#[trigger] cfgs[i]) is None && (if cfgs[i].post_commands@.len()
            == 0 {
            marks[i + 1] == marks[i]
        } else {
            post_commands_ran(cfgs[i].post_commands@, gs[i].directory@, marks[i], marks[i + 1])
        })
}

/// Process discovered grafts in order: load each one's configuration, fill
/// its replacements (see [`graft_step`]) and run its post-commands. No graft
/// does nothing; the commands counted are the post-commands of one valid
/// configuration per graft.
pub fn process_discovered_grafts<S: System, P: ProcessRunner, C: ConfigParser, F: Fn(&str) -> FloatReading>(
    system: &mut S,
    runner: &mut P,
    parser: &C,
    read_float: &F,
    grafts: &[DiscoveredGraft],
    base_context: &ContextValues,
) -> (r: Result<GraftProcessingResult, GraftError>)
    requires
        reads_floats(*read_float),
    ensures
        grafts@.len() == 0 ==> (r matches Ok(res) && res.commands_executed == 0 && res.replacements_applied == 0),
        r matches Ok(res) ==> commands_of_grafts(grafts@.len(), res.commands_executed),
        old(runner).requests().is_prefix_of(final(runner).requests()),
        final(runner).on_windows() == old(runner).on_windows(),
        r is Ok ==> exists|cfgs: Seq<GraftConfig>, marks: Seq<Seq<RunRequest>>|
            #[trigger] grafts_ran(grafts@, cfgs, marks) && marks[0] == old(runner).requests()
                && marks[grafts@.len() as int] == final(runner).requests(),
{
    proof {
        lemma_prefix_append(runner.requests(), Seq::empty());
        assert(runner.requests() + Seq::<RunRequest>::empty() =~= runner.requests());
    }
    let ghost mut marks: Seq<Seq<RunRequest>> = seq![runner.requests()];
    let mut total_replacements: usize = 0;
    let mut total_commands: usize = 0;
    let ghost mut cfgs: Seq<GraftConfig> = Seq::empty();
    let mut i: usize = 0;
    while i < grafts.len()
        invariant
            i <= grafts.len(),
            reads_floats(*read_float),
            cfgs.len() == i,
            total_commands == command_total(cfgs),
            forall|k: int|
                0 <= k < cfgs.len() ==> crate::config::graft_yaml::graft_config_error(#[trigger] cfgs[k]) is None,
            grafts@.len() == 0 ==> total_replacements == 0,
            old(runner).requests().is_prefix_of(runner.requests()),
            runner.on_windows() == old(runner).on_windows(),
            marks.len() == i + 1,
            marks[0] == old(runner).requests(),
            marks[i as int] == runner.requests(),
            forall|k: int|
                0 <= k < i ==> (if (#[trigger] cfgs[k]).post_commands@.len() == 0 {
                    marks[k + 1] == marks[k]
                } else {
                    post_commands_ran(cfgs[k].post_commands@, grafts@[k].directory@, marks[k], marks[k + 1])
                }),
        decreases grafts.len() - i,
    {
        let graft = &grafts[i];
        let graft_config = load_graft_config(system, parser, graft.path.as_str())?;
        let ghost loaded = graft_config;
        let step = graft_step(graft, graft_config, base_context, read_float)?;
        if step.replacements.len() > 0 {
            let n = apply_graft_replacements(system, step.directory.as_str(), step.replacements.as_slice(), &step.values)?;
            total_replacements = total_replacements.saturating_add(n);
        }
        let mut ran: usize = 0;
        if step.post_commands.len() > 0 {
            let ghost mid = runner.requests();
            let results = execute_post_commands(system, runner, step.post_commands.as_slice(), step.directory.as_str())?;
            proof {
                lemma_prefix_trans(old(runner).requests(), mid, runner.requests());
            }
            ran = results.len();
        }
        total_commands = total_commands.saturating_add(ran);
        proof {
            let next = cfgs.push(loaded);
            assert(next.drop_last() =~= cfgs);
            assert(next.last() == loaded);
            marks = marks.push(runner.requests());
            assert forall|k: int| 0 <= k < next.len() implies crate::config::graft_yaml::graft_config_error(
                #[trigger] next[k],
            ) is None by {
                if k < cfgs.len() {
                    assert(next[k] == cfgs[k]);
                }
            }
            cfgs = next;
        }
        i = i + 1;
    }
    assert(command_total(cfgs) == total_commands);
    assert(grafts_ran(grafts@, cfgs, marks));
    Ok(GraftProcessingResult { commands_executed: total_commands, replacements_applied: total_replacements })
}

/// Grafts that discovery can give: those of some walk.
pub open spec fn found_grafts(gs: Seq<DiscoveredGraft>) -> bool {
    exists|es: Seq<WalkEntry>, base: Seq<char>| #[trigger] grafts_of_walk(es, base, gs)
}

/// Grafts that discovery can give were processed in order from the runs
/// `before` to the runs `after` (see [`grafts_ran`]).
pub open spec fn found_grafts_ran(before: Seq<RunRequest>, after: Seq<RunRequest>) -> bool {
    exists|gs: Seq<DiscoveredGraft>, cfgs: Seq<GraftConfig>, marks: Seq<Seq<RunRequest>>|
        #[trigger] grafts_ran(gs, cfgs, marks) && found_grafts(gs) && marks[0] == before && marks[gs.len() as int]
            == after
}

/// Process every `.graft.yaml` below the target of a pull, root first (see
/// [`process_discovered_grafts`]), and finally remove the `.graft.yaml`
/// files; a target that is missing or not a directory has none. The
/// commands counted are the post-commands of one valid configuration per
/// discovered graft.
pub fn process_graft_files<S: System, P: ProcessRunner, C: ConfigParser, F: Fn(&str) -> FloatReading>(
    system: &mut S,
    runner: &mut P,
    parser: &C,
    read_float: &F,
    config: &Config,
    pull: &PullConfig,
) -> (r: Result<GraftProcessingResult, GraftError>)
    requires
        reads_floats(*read_float),
    ensures
        r matches Ok(res) ==> exists|gs: Seq<DiscoveredGraft>|
            #[trigger] found_grafts(gs) && commands_of_grafts(gs.len(), res.commands_executed),
        old(runner).requests().is_prefix_of(final(runner).requests()),
        final(runner).on_windows() == old(runner).on_windows(),
        r is Ok ==> found_grafts_ran(old(runner).requests(), final(runner).requests()),
        S::keeps_model() ==> (r is Ok ==> exists|pre: S, gs: Seq<DiscoveredGraft>| #[trigger] walked_grafts_removed(
            pre,
            *final(system),
            gs,
        )),
{
    proof {
        let e = Seq::<WalkEntry>::empty();
        let g = Seq::<DiscoveredGraft>::empty();
        let fs = Seq::<Found>::empty();
        assert(found_views(fs) =~= Seq::<(Seq<char>, Seq<char>, nat)>::empty());
        assert(sort_by_depth(fs) =~= fs);
        assert(hierarchy_ok(sort_by_depth(fs), g));
        assert(grafts_of_walk(e, Seq::empty(), g));
        assert(found_grafts(g));
        assert(walked_grafts_removed(*system, *system, g));
        let m = seq![runner.requests()];
        assert(grafts_ran(g, Seq::<GraftConfig>::empty(), m));
        assert(found_grafts_ran(runner.requests(), runner.requests()));
        let c = Seq::<GraftConfig>::empty();
        assert(command_total(c) == 0);
        assert(commands_of_grafts(0, 0));
        lemma_prefix_append(runner.requests(), Seq::empty());
        assert(runner.requests() + Seq::<RunRequest>::empty() =~= runner.requests());
    }
    let target = pull.target.as_str();
    let exists = match system.path_exists(target) {
        Ok(b) => b,
        Err(e) => return Err(io_to_graft(e)),
    };
    if !exists {
        return Ok(GraftProcessingResult { commands_executed: 0, replacements_applied: 0 });
    }
    let is_dir = match system.is_dir(target) {
        Ok(b) => b,
        Err(e) => return Err(io_to_graft(e)),
    };
    if !is_dir {
        return Ok(GraftProcessingResult { commands_executed: 0, replacements_applied: 0 });
    }
    let discovered = discover_graft_files(system, target)?;
    if discovered.len() == 0 {
        return Ok(GraftProcessingResult { commands_executed: 0, replacements_applied: 0 });
    }
    let base_context = merge_context_values(config.context.clone_values(), pull.context.clone_values());
    let result = process_discovered_grafts(system, runner, parser, read_float, discovered.as_slice(), &base_context)?;
    assert(found_grafts(discovered@));
    assert(found_grafts_ran(old(runner).requests(), runner.requests()));
    cleanup_graft_files(system, target)?;
    Ok(result)
}

/// The directory that the commands of a pull run in: the target's parent
/// for a file pull (the target itself when it has none), else the target.
pub open spec fn command_directory(pull: PullConfig) -> Seq<char> {
    if pull.pull_type@ == "file"@ {
        match parent(pull.target@) {
            Some(p) => p,
            None => pull.target@,
        }
    } else {
        pull.target@
    }
}

fn command_directory_of(pull: &PullConfig) -> (r: String)
    ensures
        r@ == command_directory(*pull),
{
    if str_eq(pull.pull_type.as_str(), "file") {
        match path_parent(pull.target.as_str()) {
            Some(p) => p,
            None => pull.target.clone(),
        }
    } else {
        pull.target.clone()
    }
}

/// Check a local source path against the pull type; gives the path.
fn check_local_source<S: System>(system: &S, repository: &Repository, pull: &PullConfig, repo_url: &str) -> (r:
    Result<String, GraftError>)
    ensures
        repository.source is Git ==> (r matches Err(e) && e.is(ErrorKind::Source, "Invalid local repository"@)),
        r matches Ok(p) ==> repository.source matches RepositorySource::Local { resolved_path, .. } && p@ == join(
            resolved_path@,
            pull.source@,
        ),
{
    let base = match repository.local_path() {
        Some(b) => b,
        None => return Err(GraftError::from_source(owned("Invalid local repository"))),
    };
    let source_path = path_join(base.as_str(), pull.source.as_str());
    let exists = match system.path_exists(source_path.as_str()) {
        Ok(b) => b,
        Err(_) => false,
    };
    if !exists {
        let mut m = owned("Source path '");
        m.append(pull.source.as_str());
        m.append("' not found in local repository '");
        m.append(repo_url);
        m.append("'");
        return Err(GraftError::from_source(m));
    }
    let is_file = match system.is_file(source_path.as_str()) {
        Ok(b) => b,
        Err(_) => false,
    };
    let is_dir = match system.is_dir(source_path.as_str()) {
        Ok(b) => b,
        Err(_) => false,
    };
    if str_eq(pull.pull_type.as_str(), "file") && !is_file {
        let mut m = owned("Source path '");
        m.append(source_path.as_str());
        m.append("' is not a file (type specified as 'file')");
        return Err(GraftError::from_source(m));
    }
    if str_eq(pull.pull_type.as_str(), "directory") && !is_dir {
        let mut m = owned("Source path '");
        m.append(source_path.as_str());
        m.append("' is not a directory (type specified as 'directory')");
        return Err(GraftError::from_source(m));
    }
    Ok(source_path)
}

/// The runs of a pull, from the runs `before` to the runs `after`: first
/// the sparse checkout of its source at `reference` (for a Git source; see
/// [`checkout_requests`]), then the post-commands of its `.graft.yaml`
/// files (see [`found_grafts_ran`]), and last its own commands, in order,
/// through the shell in its command directory.
pub open spec fn pull_runs(before: Seq<RunRequest>, after: Seq<RunRequest>, windows: bool, pull: PullConfig, reference: Seq<char>) -> bool {
    exists|fetched: Seq<RunRequest>, grafted: Seq<RunRequest>|
        #[trigger] found_grafts_ran(fetched, grafted) && (fetched == before || exists|url: Seq<char>, temp: Seq<char>|
            fetched == before + #[trigger] checkout_requests(url, temp, pull.source@, reference)) && after == grafted
            + shell_requests(windows, pull.commands@, command_directory(pull), false)
}

/// Copying `source` for the pull took the system from `pre` to `copied`
/// and copied `n` files: a file pull put the source file's contents at the
/// target; a directory pull made at the target what the walk of the source
/// plans, with at least one file (see [`copied_from`]).
pub open spec fn copy_done<S: System>(pre: S, copied: S, source: Seq<char>, pull: PullConfig, n: nat) -> bool {
    ||| pull.pull_type@ == "file"@ && n == 1 && file_copied(pre, copied, source, pull.target@)
    ||| pull.pull_type@ == "directory"@ && n >= 1 && walk_copied(copied, source, pull.target@, n) && copied_from(
        pre,
        copied,
        source,
        pull.target@,
        n,
    )
}

/// The steps of a pull that succeeded, on the system: copying `source` took
/// it from `pre` to `copied` (see [`copy_done`]), and the pull's
/// replacements took it from `copied` to `replaced`, changing `nr` files
/// (none when it has none); the replacements counted are those `nr` and the
/// `ng` of its `.graft.yaml` files, added up to the largest `usize`.
pub open spec fn pull_steps<S: System>(
    pre: S,
    copied: S,
    replaced: S,
    source: Seq<char>,
    pull: PullConfig,
    res: PullResult,
    nr: nat,
    ng: nat,
) -> bool {
    &&& copy_done(pre, copied, source, pull, res.files_copied as nat)
    &&& pull.replacements@.len() == 0 ==> nr == 0 && replaced == copied
    &&& pull.replacements@.len() > 0 ==> replacements_applied(
        copied,
        replaced,
        pull.target@,
        pull.replacements@.map_values(|x: ReplacementConfig| x.source@),
        config_values(pull.replacements@, copied.fs_env()),
        nr,
    )
    &&& res.replacements_applied == capped(nr + ng as int)
}

/// Some states and counts make the pull's steps (see [`pull_steps`]).
pub open spec fn pull_effects<S: System>(pull: PullConfig, res: PullResult) -> bool {
    exists|pre: S, copied: S, replaced: S, source: Seq<char>, nr: nat, ng: nat|
        #[trigger] pull_steps(pre, copied, replaced, source, pull, res, nr, ng)
}

/// Execute a single pull: fetch the source (sparse checkout of a Git
/// repository, or a local path), copy it to the target, apply the
/// replacements, process the `.graft.yaml` files, and run the commands. The
/// runs asked for are those of [`pull_runs`]; on a system that keeps a model
/// the steps are those of [`pull_steps`].
pub fn execute_single_pull<S: System, P: ProcessRunner, C: ConfigParser, F: Fn(&str) -> FloatReading>(
    system: &mut S,
    runner: &mut P,
    parser: &C,
    read_float: &F,
    config: &Config,
    pull: &PullConfig,
    repo_url: &str,
    reference: &str,
) -> (r: Result<PullResult, GraftError>)
    requires
        reads_floats(*read_float),
    ensures
        !seq_starts_with(repo_url@, "file:"@) ==> match normalized_url(repo_url@) {
            Err((k, m)) => r matches Err(e) && e.is(k, m),
            Ok(_) => true,
        },
        r matches Ok(res) ==> res.files_copied >= 1 && res.commands_executed >= pull.commands@.len(),
        r matches Ok(res) ==> (pull.pull_type@ == "file"@ && res.files_copied == 1) || pull.pull_type@
            == "directory"@,
        S::keeps_model() ==> (r matches Ok(res) ==> pull_effects::<S>(*pull, res)),
        old(runner).requests().is_prefix_of(final(runner).requests()),
        final(runner).on_windows() == old(runner).on_windows(),
        r is Ok ==> pull_runs(old(runner).requests(), final(runner).requests(), old(runner).on_windows(), *pull, reference@),
{
    proof {
        lemma_prefix_append(runner.requests(), Seq::empty());
        assert(runner.requests() + Seq::<RunRequest>::empty() =~= runner.requests());
    }
    let repository = Repository::new(system, repo_url)?;
    let ghost mut pre: S = *system;
    let ghost mut src: Seq<char> = Seq::empty();
    let files_copied = if repository.is_git() {
        let checkout = SparseCheckout::new(system, repository, owned(reference), pull.source.clone())?;
        let checkout_path = checkout.execute(runner)?;
        proof {
            let u = checkout.repository.source->normalized_url@;
            assert(runner.requests() == old(runner).requests() + checkout_requests(
                u,
                checkout.temp_path@,
                pull.source@,
                reference@,
            ));
        }
        if !checkout.source_exists(system) {
            let diagnostics = checkout.get_checkout_diagnostics(system)?;
            let mut m = owned("Source path '");
            m.append(pull.source.as_str());
            m.append("' not found in repository '");
            m.append(repo_url);
            m.append("' at reference '");
            m.append(reference);
            m.append("'\n\n");
            m.append(diagnostics.as_str());
            return Err(GraftError::from_source(m));
        }
        proof {
            pre = *system;
            src = checkout_path@;
        }
        let n = copy_files(system, checkout_path.as_str(), pull.target.as_str(), pull.pull_type.as_str(), pull.reset)?;
        assert(S::keeps_model() ==> copy_done(pre, *system, src, *pull, n as nat));
        n
    } else {
        let source_path = check_local_source(system, &repository, pull, repo_url)?;
        proof {
            pre = *system;
            src = source_path@;
        }
        let n = copy_files(system, source_path.as_str(), pull.target.as_str(), pull.pull_type.as_str(), pull.reset)?;
        assert(S::keeps_model() ==> copy_done(pre, *system, src, *pull, n as nat));
        n
    };
    let ghost copied = *system;
    let nr: usize = if pull.replacements.len() == 0 {
        0
    } else {
        apply_replacements(system, pull.target.as_str(), pull.replacements.as_slice())?
    };
    let ghost replaced = *system;
    let mut replacements_applied: usize = nr;
    let ghost r1 = runner.requests();
    let graft_outcome = process_graft_files(system, runner, parser, read_float, config, pull);
    proof {
        lemma_prefix_trans(old(runner).requests(), r1, runner.requests());
    }
    let graft_result = graft_outcome?;
    assert(found_grafts_ran(r1, runner.requests()));
    replacements_applied = replacements_applied.saturating_add(graft_result.replacements_applied);
    let ghost r2 = runner.requests();
    let mut commands_executed: usize = if pull.commands.len() == 0 {
        proof {
            assert(pull.commands@ =~= Seq::<String>::empty());
            assert(r2 =~= r2 + shell_requests(old(runner).on_windows(), pull.commands@, command_directory(*pull), false));
            lemma_prefix_append(r2, Seq::empty());
            assert(r2 + Seq::<RunRequest>::empty() =~= r2);
            assert(pull_runs(old(runner).requests(), runner.requests(), old(runner).on_windows(), *pull, reference@));
        }
        0
    } else {
        let dir = command_directory_of(pull);
        let ran = execute_commands(system, runner, pull.commands.as_slice(), dir.as_str());
        proof {
            lemma_prefix_append(r2, shell_requests(old(runner).on_windows(), pull.commands@, command_directory(*pull), false));
            if ran is Ok {
                assert(pull_runs(old(runner).requests(), runner.requests(), old(runner).on_windows(), *pull, reference@));
            } else {
                assert(r2.is_prefix_of(runner.requests())) by {
                    let e = ran->Err_0;
                    if e.is(ErrorKind::Filesystem, crate::operations::commands::missing_dir_message(dir@))
                        && runner.requests() == r2 {
                        assert(runner.requests() =~= r2 + Seq::<RunRequest>::empty());
                        lemma_prefix_append(r2, Seq::empty());
                    } else {
                        let k = choose|k: int|
                            0 <= k < pull.commands@.len() && crate::operations::commands::command_error(
                                e,
                                k as nat,
                                #[trigger] pull.commands@[k]@,
                                dir@,
                            ) && (forall|j: int| 0 <= j < k ==> !crate::text::is_blank(#[trigger] pull.commands@[j]@))
                                && runner.requests() == r2 + shell_requests(
                                old(runner).on_windows(),
                                pull.commands@.take(crate::operations::commands::ran_until(pull.commands@, k)),
                                dir@,
                                false,
                            );
                        lemma_prefix_append(r2, shell_requests(
                            old(runner).on_windows(),
                            pull.commands@.take(crate::operations::commands::ran_until(pull.commands@, k)),
                            dir@,
                            false,
                        ));
                    }
                }
            }
            lemma_prefix_trans(old(runner).requests(), r2, runner.requests());
        }
        ran?
    };
    commands_executed = commands_executed.saturating_add(graft_result.commands_executed);
    let res = PullResult { commands_executed, files_copied, replacements_applied };
    proof {
        if S::keeps_model() {
            assert(pull_steps(
                pre,
                copied,
                replaced,
                src,
                *pull,
                res,
                nr as nat,
                graft_result.replacements_applied as nat,
            ));
        }
    }
    Ok(res)
}

/// What a pull that succeeded did, from the runs `before` to the runs
/// `after` (the reference it was fetched at being `reference`): the runs
/// only grew, they are those of [`pull_runs`], it copied its source to its target and applied
/// its replacements there (see [`pull_steps`]), and it counted at least its
/// own commands.
pub open spec fn pull_done<S: System>(
    pull: PullConfig,
    reference: Seq<char>,
    windows: bool,
    before: Seq<RunRequest>,
    after: Seq<RunRequest>,
    res: PullResult,
) -> bool {
    &&& before.is_prefix_of(after)
    &&& pull_runs(before, after, windows, pull, reference)
    &&& S::keeps_model() ==> pull_effects::<S>(pull, res)
    &&& res.commands_executed >= pull.commands@.len()
}

/// The pulls of the configuration ran in order: the `i`-th, from the source
/// that [`pull_source`] gives it, went from the runs `marks[i]` to
/// `marks[i + 1]` and gave `results[i]`.
pub open spec fn pulls_trace<S: System>(config: Config, windows: bool, marks: Seq<Seq<RunRequest>>, results: Seq<PullResult>) -> bool {
    &&& marks.len() == config.pulls@.len() + 1
    &&& results.len() == config.pulls@.len()
    &&& forall|i: int|
        0 <= i < config.pulls@.len() ==> pull_source(config, #[trigger] config.pulls@[i], i as nat) is Ok
            && pull_done::<S>(
            config.pulls@[i],
            pull_source(config, config.pulls@[i], i as nat)->Ok_0.1,
            windows,
            marks[i],
            marks[i + 1],
            results[i],
        )
}

/// Execute all pull operations of a configuration, in order, each from the
/// source that [`pull_source`] gives it (see [`pulls_trace`]); the first
/// pull whose source or execution fails stops the rest.
pub fn execute_pulls<S: System, P: ProcessRunner, C: ConfigParser, F: Fn(&str) -> FloatReading>(
    system: &mut S,
    runner: &mut P,
    parser: &C,
    read_float: &F,
    config: &Config,
) -> (r: Result<(), GraftError>)
    requires
        reads_floats(*read_float),
    ensures
        config.pulls@.len() == 0 ==> r is Ok,
        config.pulls@.len() > 0 && pull_source(*config, config.pulls@[0], 0) is Err ==> (r matches Err(e)
            && e.is(ErrorKind::Configuration, pull_source(*config, config.pulls@[0], 0)->Err_0)),
        r is Ok ==> forall|k: int|
            0 <= k < config.pulls@.len() ==> pull_source(*config, #[trigger] config.pulls@[k], k as nat) is Ok,
        old(runner).requests().is_prefix_of(final(runner).requests()),
        final(runner).on_windows() == old(runner).on_windows(),
        r is Ok ==> exists|marks: Seq<Seq<RunRequest>>, results: Seq<PullResult>|
            marks.len() == config.pulls@.len() + 1 && marks[0] == old(runner).requests()
                && marks[config.pulls@.len() as int] == final(runner).requests() && #[trigger] pulls_trace::<S>(
                *config,
                old(runner).on_windows(),
                marks,
                results,
            ),
{
    let ghost mut marks: Seq<Seq<RunRequest>> = seq![runner.requests()];
    let ghost mut results: Seq<PullResult> = Seq::empty();
    proof {
        lemma_prefix_append(runner.requests(), Seq::empty());
        assert(runner.requests() + Seq::<RunRequest>::empty() =~= runner.requests());
    }
    let mut i: usize = 0;
    while i < config.pulls.len()
        invariant
            i <= config.pulls.len(),
            reads_floats(*read_float),
            i > 0 ==> pull_source(*config, config.pulls@[0], 0) is Ok,
            forall|k: int| 0 <= k < i ==> pull_source(*config, #[trigger] config.pulls@[k], k as nat) is Ok,
            marks.len() == i + 1,
            results.len() == i,
            marks[0] == old(runner).requests(),
            marks[i as int] == runner.requests(),
            runner.on_windows() == old(runner).on_windows(),
            old(runner).requests().is_prefix_of(runner.requests()),
            forall|k: int|
                0 <= k < i ==> pull_done::<S>(
                    #[trigger] config.pulls@[k],
                    pull_source(*config, config.pulls@[k], k as nat)->Ok_0.1,
                    old(runner).on_windows(),
                    marks[k],
                    marks[k + 1],
                    results[k],
                ),
        decreases config.pulls.len() - i,
    {
        let pull = &config.pulls[i];
        let (repo_url, reference) = pull_repository_and_reference(config, pull, i)?;
        let ghost mid = runner.requests();
        let outcome = execute_single_pull(
            system,
            runner,
            parser,
            read_float,
            config,
            pull,
            repo_url.as_str(),
            reference.as_str(),
        );
        proof {
            lemma_prefix_trans(old(runner).requests(), mid, runner.requests());
        }
        let result = outcome?;
        proof {
            marks = marks.push(runner.requests());
            results = results.push(result);
        }
        i = i + 1;
    }
    assert(pulls_trace::<S>(*config, old(runner).on_windows(), marks, results));
    Ok(())
}

/// Is the path among the visited ones?
fn visited_contains(visited: &Vec<String>, path: &str) -> (r: bool)
    ensures
        r == exists|i: int| 0 <= i < visited@.len() && same_path(#[trigger] visited@[i]@, path@),
{
    let mut i: usize = 0;
    while i < visited.len()
        invariant
            i <= visited.len(),
            forall|k: int| 0 <= k < i ==> !same_path(#[trigger] visited@[k]@, path@),
        decreases visited.len() - i,
    {
        let down = path_starts_with(visited[i].as_str(), path);
        let up = path_starts_with(path, visited[i].as_str());
        proof {
            let a = components(visited@[i as int]@);
            let b = components(path@);
            if crate::path::comps_prefix(b, a) && crate::path::comps_prefix(a, b) {
                assert(a =~= b);
            }
            if a == b {
                assert(a.subrange(0, b.len() as int) =~= b);
            }
        }
        if down && up {
            return true;
        }
        i = i + 1;
    }
    false
}

/// A child configuration with its pull targets resolved against its
/// directory.
fn resolve_child_targets(config: &mut Config, child_dir: &str)
    ensures
        final(config).pulls@.len() == old(config).pulls@.len(),
        forall|i: int|
            0 <= i < old(config).pulls@.len() ==> (#[trigger] final(config).pulls@[i]).target@ == join(
                child_dir@,
                old(config).pulls@[i].target@,
            ) && final(config).pulls@[i].source == old(config).pulls@[i].source
                && final(config).pulls@[i].pull_type == old(config).pulls@[i].pull_type
                && final(config).pulls@[i].repository == old(config).pulls@[i].repository
                && final(config).pulls@[i].tag == old(config).pulls@[i].tag
                && final(config).pulls@[i].reset == old(config).pulls@[i].reset
                && final(config).pulls@[i].must_succeed == old(config).pulls@[i].must_succeed
                && final(config).pulls@[i].require_clean_target
                == old(config).pulls@[i].require_clean_target,
        final(config).repository == old(config).repository,
        final(config).tag == old(config).tag,
        final(config).context@ == old(config).context@,
        final(config).children@ == old(config).children@,
        final(config).process_children_first == old(config).process_children_first,
{
    let mut pulls: Vec<PullConfig> = Vec::new();
    let mut i: usize = 0;
    while i < config.pulls.len()
        invariant
            i <= config.pulls.len(),
            pulls@.len() == i,
            forall|k: int|
                0 <= k < i ==> (#[trigger] pulls@[k]).target@ == join(child_dir@, config.pulls@[k].target@)
                    && pulls@[k].source == config.pulls@[k].source
                    && pulls@[k].pull_type == config.pulls@[k].pull_type
                    && pulls@[k].repository == config.pulls@[k].repository
                    && pulls@[k].tag == config.pulls@[k].tag && pulls@[k].reset == config.pulls@[k].reset
                    && pulls@[k].must_succeed == config.pulls@[k].must_succeed
                    && pulls@[k].require_clean_target == config.pulls@[k].require_clean_target,
        decreases config.pulls.len() - i,
    {
        let mut p = config.pulls[i].clone_pull();
        p.target = path_join(child_dir, p.target.as_str());
        pulls.push(p);
        i = i + 1;
    }
    config.pulls = pulls;
}

/// The directory of a child configuration file, `.` when it has none.
fn child_directory(config_dir: &str, child_path: &str) -> (r: (String, String))
    ensures
        r.0@ == join(config_dir@, child_path@),
        r.1@ == match parent(join(config_dir@, child_path@)) {
            Some(p) => p,
            None => "."@,
        },
{
    let child_config_path = path_join(config_dir, child_path);
    let child_dir = match path_parent(child_config_path.as_str()) {
        Some(d) => d,
        None => owned("."),
    };
    (child_config_path, child_dir)
}

/// Is a path (by its components) among the visited ones?
pub open spec fn among_visited(visited: Seq<String>, p: Seq<char>) -> bool {
    exists|i: int| 0 <= i < visited.len() && same_path(#[trigger] visited[i]@, p)
}

/// The pulls of the configuration ran in order (see [`pulls_trace`]) over a
/// stretch of runs that lies between the runs `before` and `after`.
pub open spec fn pulls_ran<S: System>(config: Config, windows: bool, before: Seq<RunRequest>, after: Seq<RunRequest>) -> bool {
    exists|marks: Seq<Seq<RunRequest>>, results: Seq<PullResult>|
        #[trigger] pulls_trace::<S>(config, windows, marks, results) && before.is_prefix_of(marks[0])
            && marks[config.pulls@.len() as int].is_prefix_of(after)
}

/// Execute a configuration and its children (depth first, in the order the
/// configuration asks), refusing nesting deeper than the limit and a
/// configuration directory already being executed (compared by the
/// canonical form that the system gives, or the directory itself when it
/// gives none).
pub fn execute_config_recursive<S: System, P: ProcessRunner, C: ConfigParser, F: Fn(&str) -> FloatReading>(
    system: &mut S,
    runner: &mut P,
    parser: &C,
    read_float: &F,
    config: &Config,
    config_dir: &str,
    visited: &mut Vec<String>,
    depth: usize,
) -> (r: Result<(), GraftError>)
    requires
        reads_floats(*read_float),
    ensures
        depth > MAX_CHILDREN_DEPTH ==> (r matches Err(e) && e.is(ErrorKind::Configuration, max_depth_message())),
        r is Ok ==> final(visited)@ == old(visited)@,
        depth <= MAX_CHILDREN_DEPTH && r is Ok ==> exists|c: Seq<char>| !#[trigger] among_visited(old(visited)@, c),
        old(runner).requests().is_prefix_of(final(runner).requests()),
        final(runner).on_windows() == old(runner).on_windows(),
        r is Ok ==> pulls_ran::<S>(*config, old(runner).on_windows(), old(runner).requests(), final(runner).requests()),
    decreases 12 - depth, 1nat,
{
    proof {
        lemma_prefix_append(runner.requests(), Seq::empty());
        assert(runner.requests() + Seq::<RunRequest>::empty() =~= runner.requests());
    }
    if depth > MAX_CHILDREN_DEPTH {
        return Err(GraftError::configuration(owned("Max children depth (11) exceeded")));
    }
    let canonical = match system.canonicalize(config_dir) {
        Ok(c) => c,
        Err(_) => owned(config_dir),
    };
    if visited_contains(visited, canonical.as_str()) {
        let mut m = owned("Circular dependency detected at: ");
        m.append(config_dir);
        return Err(GraftError::configuration(m));
    }
    assert(!among_visited(visited@, canonical@));
    let ghost before = visited@;
    visited.push(canonical);
    let ghost r0 = runner.requests();
    if config.process_children_first {
        let first = execute_children(system, runner, parser, read_float, config, config_dir, visited, depth);
        let ghost r1 = runner.requests();
        first?;
        let second = execute_pulls(system, runner, parser, read_float, config);
        proof {
            lemma_prefix_trans(r0, r1, runner.requests());
            if second is Ok {
                let (marks, results) = choose|marks: Seq<Seq<RunRequest>>, results: Seq<PullResult>|
                    marks.len() == config.pulls@.len() + 1 && marks[0] == r1 && marks[config.pulls@.len() as int]
                        == runner.requests() && #[trigger] pulls_trace::<S>(*config, old(runner).on_windows(), marks, results);
                lemma_prefix_append(runner.requests(), Seq::empty());
                assert(runner.requests() + Seq::<RunRequest>::empty() =~= runner.requests());
                assert(pulls_ran::<S>(*config, old(runner).on_windows(), r0, runner.requests()));
            }
        }
        second?;
    } else {
        let first = execute_pulls(system, runner, parser, read_float, config);
        let ghost r1 = runner.requests();
        proof {
            if first is Ok {
                let (marks, results) = choose|marks: Seq<Seq<RunRequest>>, results: Seq<PullResult>|
                    marks.len() == config.pulls@.len() + 1 && marks[0] == r0 && marks[config.pulls@.len() as int]
                        == r1 && #[trigger] pulls_trace::<S>(*config, old(runner).on_windows(), marks, results);
                lemma_prefix_append(r0, Seq::empty());
                assert(r0 + Seq::<RunRequest>::empty() =~= r0);
                lemma_prefix_append(r1, Seq::empty());
                assert(r1 + Seq::<RunRequest>::empty() =~= r1);
                assert(pulls_ran::<S>(*config, old(runner).on_windows(), r0, r1));
            }
        }
        first?;
        let second = execute_children(system, runner, parser, read_float, config, config_dir, visited, depth);
        proof {
            lemma_prefix_trans(r0, r1, runner.requests());
            if first is Ok {
                let (marks, results) = choose|marks: Seq<Seq<RunRequest>>, results: Seq<PullResult>|
                    #[trigger] pulls_trace::<S>(*config, old(runner).on_windows(), marks, results) && r0.is_prefix_of(marks[0])
                        && marks[config.pulls@.len() as int].is_prefix_of(r1);
                lemma_prefix_trans(marks[config.pulls@.len() as int], r1, runner.requests());
                assert(pulls_ran::<S>(*config, old(runner).on_windows(), r0, runner.requests()));
            }
        }
        second?;
    }
    visited.pop();
    assert(visited@ =~= before);
    Ok(())
}

/// Execute the children of a configuration, each from its own directory.
fn execute_children<S: System, P: ProcessRunner, C: ConfigParser, F: Fn(&str) -> FloatReading>(
    system: &mut S,
    runner: &mut P,
    parser: &C,
    read_float: &F,
    config: &Config,
    config_dir: &str,
    visited: &mut Vec<String>,
    depth: usize,
) -> (r: Result<(), GraftError>)
    requires
        reads_floats(*read_float),
        depth <= MAX_CHILDREN_DEPTH,
    ensures
        r is Ok ==> final(visited)@ == old(visited)@,
        config.children@.len() == 0 ==> r is Ok,
        old(runner).requests().is_prefix_of(final(runner).requests()),
        final(runner).on_windows() == old(runner).on_windows(),
    decreases 12 - depth, 0nat,
{
    proof {
        lemma_prefix_append(runner.requests(), Seq::empty());
        assert(runner.requests() + Seq::<RunRequest>::empty() =~= runner.requests());
    }
    let mut i: usize = 0;
    while i < config.children.len()
        invariant
            i <= config.children.len(),
            reads_floats(*read_float),
            depth <= MAX_CHILDREN_DEPTH,
            visited@ == old(visited)@,
            old(runner).requests().is_prefix_of(runner.requests()),
            runner.on_windows() == old(runner).on_windows(),
        decreases config.children.len() - i,
    {
        let (child_config_path, child_dir) = child_directory(config_dir, config.children[i].as_str());
        let mut child = Config::load_from_file(system, parser, child_config_path.as_str())?;
        resolve_child_targets(&mut child, child_dir.as_str());
        let ghost mid = runner.requests();
        let done = execute_config_recursive(system, runner, parser, read_float, &child, child_dir.as_str(), visited, depth + 1);
        proof {
            lemma_prefix_trans(old(runner).requests(), mid, runner.requests());
        }
        done?;
        i = i + 1;
    }
    Ok(())
}

/// The preview lines of one pull.
pub open spec fn pull_preview_lines(pull: PullConfig, index: nat, repo: Seq<char>, reference: Seq<char>, indent: Seq<char>) -> Seq<
    Seq<char>,
> {
    seq![
        indent + "  ["@ + decimal(index + 1) + "] Pull "@ + pull.source@ + " \u{2192} "@ + pull.target@ + " ("@
            + pull.pull_type@ + ")"@,
        indent + "      - Repository: "@ + repo,
        indent + "      - Reference: "@ + reference
    ] + (if pull.reset {
        seq![indent + "      - Would reset target directory (reset: true)"@]
    } else {
        Seq::empty()
    }) + (if pull.replacements@.len() > 0 {
        seq![indent + "      - Would apply "@ + decimal(pull.replacements@.len()) + " text replacements"@]
    } else {
        Seq::empty()
    }) + (if pull.commands@.len() > 0 {
        seq![indent + "      - Would execute "@ + decimal(pull.commands@.len()) + " commands:"@]
            + pull.commands@.map_values(|c: String| indent + "        * "@ + c@)
    } else {
        Seq::empty()
    })
}

/// The lines that open a preview.
pub open spec fn preview_header() -> Seq<Seq<char>> {
    seq!["Dry run preview - no files will be modified:"@, Seq::empty(), "Planned operations:"@]
}

/// The lines that close a preview.
pub open spec fn preview_footer() -> Seq<Seq<char>> {
    seq![Seq::empty(), "Run without --dry-run to execute these operations."@]
}

/// `a` is a prefix of `b`.
pub open spec fn lines_prefix(a: Seq<Seq<char>>, b: Seq<Seq<char>>) -> bool {
    a.len() <= b.len() && b.subrange(0, a.len() as int) == a
}

proof fn lemma_lines_prefix_trans(a: Seq<Seq<char>>, b: Seq<Seq<char>>, c: Seq<Seq<char>>)
    requires
        lines_prefix(a, b),
        lines_prefix(b, c),
    ensures
        lines_prefix(a, c),
{
    assert(c.subrange(0, a.len() as int) =~= c.subrange(0, b.len() as int).subrange(0, a.len() as int));
}

proof fn lemma_lines_prefix_append(a: Seq<Seq<char>>, b: Seq<Seq<char>>)
    ensures
        lines_prefix(a, a + b),
{
    assert((a + b).subrange(0, a.len() as int) =~= a);
}

fn push_line(lines: &mut Vec<String>, line: String)
    ensures
        string_views(final(lines)@) == string_views(old(lines)@).push(line@),
{
    let ghost before = lines@;
    lines.push(line);
    assert(string_views(lines@) =~= string_views(before).push(line@));
}

fn indented(indent: &str, text: &str) -> (r: String)
    ensures
        r@ == indent@ + text@,
{
    let mut s = owned(indent);
    s.append(text);
    s
}

/// Add the preview lines of one pull.
fn preview_pull(lines: &mut Vec<String>, pull: &PullConfig, index: usize, repo: &str, reference: &str, indent: &str)
    ensures
        string_views(final(lines)@) == string_views(old(lines)@) + pull_preview_lines(
            *pull,
            index as nat,
            repo@,
            reference@,
            indent@,
        ),
{
    let ghost start = string_views(lines@);
    let mut head = owned(indent);
    head.append("  [");
    head.append(index_label(index).as_str());
    head.append("] Pull ");
    head.append(pull.source.as_str());
    head.append(" \u{2192} ");
    head.append(pull.target.as_str());
    head.append(" (");
    head.append(pull.pull_type.as_str());
    head.append(")");
    push_line(lines, head);
    push_line(lines, indented(indent, "      - Repository: ").concat(repo));
    push_line(lines, indented(indent, "      - Reference: ").concat(reference));
    let ghost l3 = seq![
        indent@ + "  ["@ + decimal(index as nat + 1) + "] Pull "@ + pull.source@ + " \u{2192} "@ + pull.target@ + " ("@
            + pull.pull_type@ + ")"@,
        indent@ + "      - Repository: "@ + repo@,
        indent@ + "      - Reference: "@ + reference@
    ];
    assert(string_views(lines@) =~= start + l3);
    if pull.reset {
        push_line(lines, indented(indent, "      - Would reset target directory (reset: true)"));
    }
    let ghost l4 = l3 + (if pull.reset {
        seq![indent@ + "      - Would reset target directory (reset: true)"@]
    } else {
        Seq::empty()
    });
    assert(string_views(lines@) =~= start + l4);
    if pull.replacements.len() > 0 {
        let mut m = indented(indent, "      - Would apply ");
        m.append(usize_to_decimal(pull.replacements.len()).as_str());
        m.append(" text replacements");
        push_line(lines, m);
    }
    let ghost l5 = l4 + (if pull.replacements@.len() > 0 {
        seq![indent@ + "      - Would apply "@ + decimal(pull.replacements@.len()) + " text replacements"@]
    } else {
        Seq::empty()
    });
    assert(string_views(lines@) =~= start + l5);
    if pull.commands.len() > 0 {
        let mut m = indented(indent, "      - Would execute ");
        m.append(usize_to_decimal(pull.commands.len()).as_str());
        m.append(" commands:");
        push_line(lines, m);
        let ghost mid = string_views(lines@);
        let mut k: usize = 0;
        while k < pull.commands.len()
            invariant
                k <= pull.commands.len(),
                string_views(lines@) == mid + pull.commands@.take(k as int).map_values(
                    |c: String| indent@ + "        * "@ + c@,
                ),
            decreases pull.commands.len() - k,
        {
            let line = indented(indent, "        * ").concat(pull.commands[k].as_str());
            push_line(lines, line);
            assert(pull.commands@.take(k as int + 1).map_values(|c: String| indent@ + "        * "@ + c@)
                =~= pull.commands@.take(k as int).map_values(|c: String| indent@ + "        * "@ + c@).push(
                indent@ + "        * "@ + pull.commands@[k as int]@,
            ));
            k = k + 1;
        }
        assert(pull.commands@.take(k as int) =~= pull.commands@);
    }
    assert(string_views(lines@) =~= start + pull_preview_lines(*pull, index as nat, repo@, reference@, indent@));
}

/// The preview lines of the pulls, in order, up to the first without a
/// repository.
pub open spec fn pulls_preview(config: Config, n: int, indent: Seq<char>) -> Result<Seq<Seq<char>>, Seq<char>>
    decreases n,
{
    if n <= 0 {
        Ok(Seq::empty())
    } else {
        match pulls_preview(config, n - 1, indent) {
            Err(m) => Err(m),
            Ok(ls) => match pull_source(config, config.pulls@[n - 1], (n - 1) as nat) {
                Err(m) => Err(m),
                Ok((repo, reference)) => Ok(
                    ls + pull_preview_lines(config.pulls@[n - 1], (n - 1) as nat, repo, reference, indent),
                ),
            },
        }
    }
}

/// Add the preview lines of the pulls of a configuration; a pull without a
/// repository stops with an error (the lines before it stay).
pub fn preview_pulls(config: &Config, indent: &str, lines: &mut Vec<String>) -> (r: Result<(), GraftError>)
    ensures
        match pulls_preview(*config, config.pulls@.len() as int, indent@) {
            Ok(ls) => r is Ok && string_views(final(lines)@) == string_views(old(lines)@) + ls,
            Err(m) => r matches Err(e) && e.is(ErrorKind::Configuration, m),
        },
        lines_prefix(string_views(old(lines)@), string_views(final(lines)@)),
{
    let ghost start = string_views(lines@);
    let mut i: usize = 0;
    while i < config.pulls.len()
        invariant
            i <= config.pulls.len(),
            start == string_views(old(lines)@),
            pulls_preview(*config, i as int, indent@) matches Ok(ls) && string_views(lines@) == start + ls,
        decreases config.pulls.len() - i,
    {
        let pull = &config.pulls[i];
        let (repo, reference) = match pull_repository_and_reference(config, pull, i) {
            Ok(p) => p,
            Err(e) => {
                proof {
                    lemma_pulls_preview_err(*config, i as int, config.pulls@.len() as int, indent@);
                    lemma_lines_prefix_append(start, pulls_preview(*config, i as int, indent@)->Ok_0);
                }
                return Err(e);
            },
        };
        let ghost before = string_views(lines@);
        preview_pull(lines, pull, i, repo.as_str(), reference.as_str(), indent);
        assert(string_views(lines@) =~= start + pulls_preview(*config, i as int + 1, indent@)->Ok_0);
        i = i + 1;
    }
    proof {
        lemma_lines_prefix_append(start, pulls_preview(*config, i as int, indent@)->Ok_0);
    }
    Ok(())
}

proof fn lemma_pulls_preview_err(config: Config, i: int, n: int, indent: Seq<char>)
    requires
        0 <= i < n,
        pulls_preview(config, i, indent) is Ok,
        pull_source(config, config.pulls@[i], i as nat) is Err,
    ensures
        pulls_preview(config, n, indent) == Err::<Seq<Seq<char>>, Seq<char>>(
            pull_source(config, config.pulls@[i], i as nat)->Err_0,
        ),
    decreases n - i,
{
    if n > i + 1 {
        lemma_pulls_preview_err(config, i, n - 1, indent);
    }
}

/// Preview a configuration and its children, with the hierarchy shown by
/// indentation.
pub fn preview_config_recursive<S: System, C: ConfigParser>(
    system: &S,
    parser: &C,
    config: &Config,
    config_dir: &str,
    visited: &mut Vec<String>,
    depth: usize,
    indent: &str,
    lines: &mut Vec<String>,
) -> (r: Result<(), GraftError>)
    ensures
        depth > MAX_CHILDREN_DEPTH ==> (r matches Err(e) && e.is(ErrorKind::Configuration, max_depth_message())),
        r is Ok ==> final(visited)@ == old(visited)@,
        lines_prefix(string_views(old(lines)@), string_views(final(lines)@)),
        depth <= MAX_CHILDREN_DEPTH && old(visited)@.len() == 0 && config.children@.len() == 0 ==> match pulls_preview(
            *config,
            config.pulls@.len() as int,
            indent@,
        ) {
            Ok(ls) => r is Ok && string_views(final(lines)@) == string_views(old(lines)@) + ls,
            Err(m) => r matches Err(e) && e.is(ErrorKind::Configuration, m),
        },
    decreases 12 - depth, 1nat,
{
    proof {
        lemma_lines_prefix_append(string_views(lines@), Seq::empty());
        assert(string_views(lines@) + Seq::<Seq<char>>::empty() =~= string_views(lines@));
    }
    if depth > MAX_CHILDREN_DEPTH {
        return Err(GraftError::configuration(owned("Max children depth (11) exceeded")));
    }
    let canonical = match system.canonicalize(config_dir) {
        Ok(c) => c,
        Err(_) => owned(config_dir),
    };
    if visited_contains(visited, canonical.as_str()) {
        let mut m = owned("Circular dependency detected at: ");
        m.append(config_dir);
        return Err(GraftError::configuration(m));
    }
    assert(!among_visited(visited@, canonical@));
    let ghost before = visited@;
    let ghost start = string_views(lines@);
    visited.push(canonical);
    if config.process_children_first {
        let c = preview_children(system, parser, config, config_dir, visited, depth, indent, lines);
        if c.is_err() {
            return c;
        }
        let ghost mid = string_views(lines@);
        let p = preview_pulls(config, indent, lines);
        proof {
            lemma_lines_prefix_trans(start, mid, string_views(lines@));
        }
        if p.is_err() {
            return p;
        }
    } else {
        let p = preview_pulls(config, indent, lines);
        if p.is_err() {
            return p;
        }
        let ghost mid = string_views(lines@);
        let c = preview_children(system, parser, config, config_dir, visited, depth, indent, lines);
        proof {
            lemma_lines_prefix_trans(start, mid, string_views(lines@));
        }
        if c.is_err() {
            return c;
        }
    }
    visited.pop();
    assert(visited@ =~= before);
    Ok(())
}

/// Preview the children of a configuration, each one level deeper.
fn preview_children<S: System, C: ConfigParser>(
    system: &S,
    parser: &C,
    config: &Config,
    config_dir: &str,
    visited: &mut Vec<String>,
    depth: usize,
    indent: &str,
    lines: &mut Vec<String>,
) -> (r: Result<(), GraftError>)
    requires
        depth <= MAX_CHILDREN_DEPTH,
    ensures
        r is Ok ==> final(visited)@ == old(visited)@,
        lines_prefix(string_views(old(lines)@), string_views(final(lines)@)),
        config.children@.len() == 0 ==> r is Ok && final(lines)@ == old(lines)@,
    decreases 12 - depth, 0nat,
{
    let ghost start = string_views(lines@);
    proof {
        lemma_lines_prefix_append(start, Seq::empty());
        assert(start + Seq::<Seq<char>>::empty() =~= start);
    }
    let mut i: usize = 0;
    while i < config.children.len()
        invariant
            i <= config.children.len(),
            depth <= MAX_CHILDREN_DEPTH,
            visited@ == old(visited)@,
            lines_prefix(start, string_views(lines@)),
            start == string_views(old(lines)@),
            config.children@.len() == 0 ==> lines@ == old(lines)@,
        decreases config.children.len() - i,
    {
        let ghost s0 = string_views(lines@);
        push_line(lines, String::new());
        let mut title = owned(indent);
        title.append("  Child: ");
        title.append(config.children[i].as_str());
        let ghost t = title@;
        push_line(lines, title);
        proof {
            let added = seq![Seq::<char>::empty(), t];
            assert(string_views(lines@) =~= s0 + added);
            lemma_lines_prefix_append(s0, added);
            lemma_lines_prefix_trans(start, s0, string_views(lines@));
        }
        let (child_config_path, child_dir) = child_directory(config_dir, config.children[i].as_str());
        let mut child = Config::load_from_file(system, parser, child_config_path.as_str())?;
        resolve_child_targets(&mut child, child_dir.as_str());
        let child_indent = indented(indent, "  ");
        let ghost s1 = string_views(lines@);
        let rec = preview_config_recursive(
            system,
            parser,
            &child,
            child_dir.as_str(),
            visited,
            depth + 1,
            child_indent.as_str(),
            lines,
        );
        proof {
            lemma_lines_prefix_trans(start, s1, string_views(lines@));
        }
        if rec.is_err() {
            return rec;
        }
        i = i + 1;
    }
    Ok(())
}


/// Coordinates the complete pull operation.
#[derive(Debug)]
pub struct PullOperation {
    /// The merged configuration driving this pull operation.
    config: Config,
    /// The path to the configuration file that was loaded.
    config_path: String,
    /// Whether to only preview operations without executing them.
    dry_run: bool,
}

impl PullOperation {
    /// The configuration to run.
    pub closed spec fn configuration(&self) -> Config {
        self.config
    }

    /// The configuration file's path.
    pub closed spec fn path(&self) -> String {
        self.config_path
    }

    /// Is this only a preview?
    pub closed spec fn previews(&self) -> bool {
        self.dry_run
    }

    /// The configuration to run.
    pub fn config(&self) -> (r: &Config)
        ensures
            *r == self.configuration(),
    {
        &self.config
    }

    /// Is this only a preview?
    pub fn is_dry_run(&self) -> (r: bool)
        ensures
            r == self.previews(),
    {
        self.dry_run
    }

    /// Create a pull operation from the command-line arguments: load the
    /// configuration file (or start from the command line alone), merge the
    /// arguments in, validate, and check Git when a pull needs it.
    pub fn new<S: System, P: ProcessRunner, C: ConfigParser>(
        args: Args,
        system: &S,
        runner: &mut P,
        parser: &C,
    ) -> (r: Result<PullOperation, GraftError>)
        ensures
            r matches Ok(op) ==> op.path() == args.config && op.previews() == args.dry_run,
            old(runner).requests().is_prefix_of(final(runner).requests()),
            final(runner).on_windows() == old(runner).on_windows(),
            r matches Ok(op) ==> forall|i: int|
                0 <= i < op.configuration().pulls@.len() ==> crate::config::validation::pull_statically_valid(
                    #[trigger] op.configuration().pulls@[i],
                    i as nat,
                ),
    {
        let exists = match system.path_exists(args.config.as_str()) {
            Ok(b) => b,
            Err(_) => false,
        };
        let default_name = str_ends_with(args.config.as_str(), "tixgraft.yaml");
        let mut config = if exists {
            Config::load_from_file(system, parser, args.config.as_str())?
        } else if !default_name || args.pulls.sources.len() > 0 {
            if !default_name {
                let mut m = owned("Configuration file not found: ");
                m.append(args.config.as_str());
                return Err(GraftError::configuration(m));
            }
            let mut c = Config::empty();
            c.repository = clone_opt_exact(&args.repository);
            c.tag = clone_opt_exact(&args.tag);
            c
        } else {
            return Err(GraftError::configuration(owned(
                "No configuration found. Create a tixgraft.yaml file or provide pull arguments via CLI",
            )));
        };
        merge_cli_args(&mut config, &args)?;
        config.validate(system)?;
        proof {
            lemma_prefix_append(runner.requests(), Seq::empty());
            assert(runner.requests() + Seq::<RunRequest>::empty() =~= runner.requests());
        }
        if requires_git(&config) {
            let ghost before = runner.requests();
            let checked = check_git_availability(runner);
            proof {
                lemma_prefix_push(before, before, ("git"@, seq!["--version"@], None::<Seq<char>>, false));
            }
            checked?;
        }
        Ok(PullOperation { config, config_path: args.config, dry_run: args.dry_run })
    }

    /// The directory of the configuration file (`.` when it has none).
    fn config_dir(&self) -> (r: String)
        ensures
            r@ == match parent(self.config_path@) {
                Some(d) => d,
                None => "."@,
            },
    {
        match path_parent(self.config_path.as_str()) {
            Some(d) => d,
            None => owned("."),
        }
    }

    /// Preview the operations: the lines to show are added to `lines`.
    pub fn preview_operations<S: System, C: ConfigParser>(
        &self,
        system: &S,
        parser: &C,
        lines: &mut Vec<String>,
    ) -> (r: Result<(), GraftError>)
        ensures
            lines_prefix(string_views(old(lines)@) + preview_header(), string_views(final(lines)@)),
            r is Ok ==> string_views(final(lines)@).len() >= string_views(old(lines)@).len() + 5
                && string_views(final(lines)@).subrange(
                string_views(final(lines)@).len() - 2,
                string_views(final(lines)@).len() as int,
            ) == preview_footer(),
            self.configuration().children@.len() == 0 ==> match pulls_preview(
                self.configuration(),
                self.configuration().pulls@.len() as int,
                ""@,
            ) {
                Ok(ls) => r is Ok && string_views(final(lines)@) == string_views(old(lines)@) + preview_header()
                    + ls + preview_footer(),
                Err(m) => r matches Err(e) && e.is(ErrorKind::Configuration, m),
            },
    {
        let ghost start = string_views(lines@);
        push_line(lines, owned("Dry run preview - no files will be modified:"));
        push_line(lines, String::new());
        push_line(lines, owned("Planned operations:"));
        let ghost head = string_views(lines@);
        assert(head =~= start + preview_header());
        let dir = self.config_dir();
        let mut visited: Vec<String> = Vec::new();
        let res = preview_config_recursive(system, parser, &self.config, dir.as_str(), &mut visited, 0, "", lines);
        if res.is_err() {
            return res;
        }
        let ghost mid = string_views(lines@);
        push_line(lines, String::new());
        push_line(lines, owned("Run without --dry-run to execute these operations."));
        proof {
            assert(string_views(lines@) =~= mid + preview_footer());
            lemma_lines_prefix_append(mid, preview_footer());
            lemma_lines_prefix_trans(head, mid, string_views(lines@));
            assert(string_views(lines@).subrange(
                string_views(lines@).len() - 2,
                string_views(lines@).len() as int,
            ) =~= preview_footer());
        }
        Ok(())
    }

    /// Execute the pull operation, children included (or preview it, adding
    /// the lines to show to `lines`).
    pub fn execute<S: System, P: ProcessRunner, C: ConfigParser, F: Fn(&str) -> FloatReading>(
        &self,
        system: &mut S,
        runner: &mut P,
        parser: &C,
        read_float: &F,
        lines: &mut Vec<String>,
    ) -> (r: Result<(), GraftError>)
        requires
            reads_floats(*read_float),
        ensures
            self.previews() ==> lines_prefix(string_views(old(lines)@) + preview_header(), string_views(final(lines)@)),
            self.previews() && r is Ok ==> string_views(final(lines)@).len() >= string_views(old(lines)@).len() + 5
                && string_views(final(lines)@).subrange(
                string_views(final(lines)@).len() - 2,
                string_views(final(lines)@).len() as int,
            ) == preview_footer(),
            !self.previews() ==> final(lines)@ == old(lines)@,
            !self.previews() && r is Ok ==> pulls_ran::<S>(
                self.configuration(),
                old(runner).on_windows(),
                old(runner).requests(),
                final(runner).requests(),
            ),
    {
        if self.dry_run {
            return self.preview_operations(system, parser, lines);
        }
        let dir = self.config_dir();
        let mut visited: Vec<String> = Vec::new();
        execute_config_recursive(system, runner, parser, read_float, &self.config, dir.as_str(), &mut visited, 0)
    }
}

} // verus!
