//! Convert a merged configuration to the equivalent command-line arguments.

use vstd::prelude::*;
use crate::cli::args::{opt_view, PullConfig, ReplacementConfig};
use crate::config::Config;
use crate::error::GraftError;
use crate::json::{json_pretty_strings, pretty_json_strings};
use crate::text::{
    ascii_lowered, chars_of, is_ascii_alnum, is_ascii_alnum_exec, is_ascii_text, lowercase, owned, str_eq,
    string_push, string_views, to_lowercase,
};

verus! {

/// Output format for command-line representation.
#[derive(Debug, Clone, Copy, PartialEq, Eq, Structural)]
pub enum OutputFormat {
    /// JSON array of arguments.
    Json,
    /// Shell-escaped command ready to execute.
    Shell,
}

/// The format that a name `s` with lowercase form `l` stands for, or the
/// error message.
pub open spec fn format_for(l: Seq<char>, s: Seq<char>) -> Result<OutputFormat, Seq<char>> {
    if l == "shell"@ {
        Ok(OutputFormat::Shell)
    } else if l == "json"@ {
        Ok(OutputFormat::Json)
    } else {
        Err("Invalid format: "@ + s + ". Use 'shell' or 'json'"@)
    }
}

/// The format a name stands for, ignoring case, or the error message.
pub open spec fn format_named(s: Seq<char>) -> Result<OutputFormat, Seq<char>> {
    format_for(lowercase(s), s)
}

impl OutputFormat {
    /// The format named `s` (`shell` or `json`, in any case).
    pub fn parse(s: &str) -> (r: Result<OutputFormat, String>)
        ensures
            match format_named(s@) {
                Ok(f) => r == Ok::<OutputFormat, String>(f),
                Err(m) => r matches Err(e) && e@ == m,
            },
            is_ascii_text(s@) ==> format_named(s@) == format_for(ascii_lowered(s@), s@),
    {
        let l = to_lowercase(s);
        if str_eq(l.as_str(), "shell") {
            Ok(OutputFormat::Shell)
        } else if str_eq(l.as_str(), "json") {
            Ok(OutputFormat::Json)
        } else {
            let mut m = owned("Invalid format: ");
            m.append(s);
            m.append(". Use 'shell' or 'json'");
            Err(m)
        }
    }
}

impl core::str::FromStr for OutputFormat {
    type Err = String;

    fn from_str(s: &str) -> (r: Result<OutputFormat, String>)
        ensures
            match format_named(s@) {
                Ok(f) => r == Ok::<OutputFormat, String>(f),
                Err(m) => r matches Err(e) && e@ == m,
            },
            is_ascii_text(s@) ==> format_named(s@) == format_for(ascii_lowered(s@), s@),
    {
        OutputFormat::parse(s)
    }
}

/// "SOURCE=TARGET", "SOURCE=env:VAR", or the source alone when neither is set.
pub open spec fn formatted_replacement(r: ReplacementConfig) -> Seq<char> {
    match r.value_from_env {
        Some(e) => r.source@ + "=env:"@ + e@,
        None => match r.target {
            Some(t) => r.source@ + "="@ + t@,
            None => r.source@,
        },
    }
}

/// A flag followed by its value for each item.
pub open spec fn flag_each(flag: Seq<char>, items: Seq<Seq<char>>) -> Seq<Seq<char>>
    decreases items.len(),
{
    if items.len() == 0 {
        Seq::empty()
    } else {
        flag_each(flag, items.drop_last()) + seq![flag, items.last()]
    }
}

/// The formatted replacements.
pub open spec fn formatted_replacements(s: Seq<ReplacementConfig>) -> Seq<Seq<char>> {
    s.map_values(|r: ReplacementConfig| formatted_replacement(r))
}

/// `--pull-type` when the type is not the default.
pub open spec fn type_args(pull: PullConfig) -> Seq<Seq<char>> {
    if pull.pull_type@ != "directory"@ {
        seq!["--pull-type"@, pull.pull_type@]
    } else {
        Seq::empty()
    }
}

/// A per-pull override when it differs from the global value.
pub open spec fn override_args(flag: Seq<char>, own: Option<String>, global: Option<String>) -> Seq<Seq<char>> {
    match own {
        Some(v) => if opt_view(global) != Some(v@) {
            seq![flag, v@]
        } else {
            Seq::empty()
        },
        None => Seq::empty(),
    }
}

/// A flag with its value when the condition holds.
pub open spec fn flag_if(cond: bool, flag: Seq<char>, value: Seq<char>) -> Seq<Seq<char>> {
    if cond {
        seq![flag, value]
    } else {
        Seq::empty()
    }
}

/// A flag alone, with no value after it, when the condition holds.
pub open spec fn switch_if(cond: bool, flag: Seq<char>) -> Seq<Seq<char>> {
    if cond {
        seq![flag]
    } else {
        Seq::empty()
    }
}

/// The arguments of one pull.
pub open spec fn pull_args(pull: PullConfig, global: Config) -> Seq<Seq<char>> {
    seq!["--pull-source"@, pull.source@, "--pull-target"@, pull.target@] + type_args(pull)
        + override_args("--pull-repository"@, pull.repository, global.repository)
        + override_args("--pull-tag"@, pull.tag, global.tag)
        + switch_if(pull.reset, "--pull-reset"@)
        + flag_if(!pull.require_clean_target, "--pull-require-clean-target"@, "false"@)
        + flag_if(!pull.must_succeed, "--pull-must-succeed"@, "false"@)
        + flag_each("--pull-replacement"@, formatted_replacements(pull.replacements@))
        + flag_each("--pull-commands"@, string_views(pull.commands@))
}

/// The arguments of the pulls, in order.
pub open spec fn pulls_args(pulls: Seq<PullConfig>, global: Config) -> Seq<Seq<char>>
    decreases pulls.len(),
{
    if pulls.len() == 0 {
        Seq::empty()
    } else {
        pulls_args(pulls.drop_last(), global) + pull_args(pulls.last(), global)
    }
}

/// A global flag with its value when set.
pub open spec fn global_args(flag: Seq<char>, v: Option<String>) -> Seq<Seq<char>> {
    match v {
        Some(s) => seq![flag, s@],
        None => Seq::empty(),
    }
}

/// The whole argument list for a configuration.
pub open spec fn command_line_args(config: Config) -> Seq<Seq<char>> {
    seq!["tixgraft"@] + global_args("--repository"@, config.repository)
        + global_args("--tag"@, config.tag) + pulls_args(config.pulls@, config)
}

/// Append one string.
fn push_arg(args: &mut Vec<String>, s: String)
    ensures
        string_views(final(args)@) == string_views(old(args)@).push(s@),
{
    let ghost before = args@;
    args.push(s);
    assert(string_views(args@) =~= string_views(before).push(s@));
}

/// Append a flag and its value.
fn push_pair(args: &mut Vec<String>, flag: &str, value: String)
    ensures
        string_views(final(args)@) == string_views(old(args)@) + seq![flag@, value@],
{
    let ghost before = string_views(args@);
    push_arg(args, owned(flag));
    push_arg(args, value);
    assert(string_views(args@) =~= before + seq![flag@, value@]);
}

/// Build the argument list from a configuration.
pub fn build_command_args(config: &Config) -> (r: Vec<String>)
    ensures
        string_views(r@) == command_line_args(*config),
{
    let mut args: Vec<String> = Vec::new();
    push_arg(&mut args, owned("tixgraft"));
    assert(string_views(args@) =~= seq!["tixgraft"@]);
    if let Some(repo) = &config.repository {
        push_pair(&mut args, "--repository", repo.clone());
    }
    assert(string_views(args@) =~= seq!["tixgraft"@] + global_args("--repository"@, config.repository));
    if let Some(tag) = &config.tag {
        push_pair(&mut args, "--tag", tag.clone());
    }
    let ghost head = string_views(args@);
    assert(head =~= seq!["tixgraft"@] + global_args("--repository"@, config.repository)
        + global_args("--tag"@, config.tag));
    let mut i: usize = 0;
    while i < config.pulls.len()
        invariant
            i <= config.pulls.len(),
            string_views(args@) == head + pulls_args(config.pulls@.take(i as int), *config),
        decreases config.pulls.len() - i,
    {
        let ghost prev = string_views(args@);
        add_pull_args(&mut args, &config.pulls[i], config);
        proof {
            assert(config.pulls@.take(i as int + 1).drop_last() =~= config.pulls@.take(i as int));
            assert(string_views(args@) =~= head + pulls_args(config.pulls@.take(i as int + 1), *config));
        }
        i = i + 1;
    }
    assert(config.pulls@.take(i as int) =~= config.pulls@);
    args
}

/// The arguments of one pull before its replacements and commands.
pub open spec fn pull_head_args(pull: PullConfig, global: Config) -> Seq<Seq<char>> {
    seq!["--pull-source"@, pull.source@, "--pull-target"@, pull.target@] + type_args(pull)
        + override_args("--pull-repository"@, pull.repository, global.repository)
        + override_args("--pull-tag"@, pull.tag, global.tag)
        + switch_if(pull.reset, "--pull-reset"@)
        + flag_if(!pull.require_clean_target, "--pull-require-clean-target"@, "false"@)
        + flag_if(!pull.must_succeed, "--pull-must-succeed"@, "false"@)
}

/// Append a per-pull override when it differs from the global value.
fn push_override(args: &mut Vec<String>, flag: &str, own: &Option<String>, global: &Option<String>)
    ensures
        string_views(final(args)@) == string_views(old(args)@) + override_args(flag@, *own, *global),
{
    if let Some(v) = own {
        let same = match global {
            Some(g) => str_eq(g.as_str(), v.as_str()),
            None => false,
        };
        if !same {
            push_pair(args, flag, v.clone());
        } else {
            assert(string_views(args@) =~= string_views(args@) + Seq::<Seq<char>>::empty());
        }
    } else {
        assert(string_views(args@) =~= string_views(args@) + Seq::<Seq<char>>::empty());
    }
}

/// Append a flag with its value when the condition holds.
fn push_flag_if(args: &mut Vec<String>, cond: bool, flag: &str, value: &str)
    ensures
        string_views(final(args)@) == string_views(old(args)@) + flag_if(cond, flag@, value@),
{
    if cond {
        push_pair(args, flag, owned(value));
    } else {
        assert(string_views(args@) =~= string_views(args@) + Seq::<Seq<char>>::empty());
    }
}

/// Append the arguments of a pull before its replacements and commands.
fn add_pull_head(args: &mut Vec<String>, pull: &PullConfig, global_config: &Config)
    ensures
        string_views(final(args)@) == string_views(old(args)@) + pull_head_args(*pull, *global_config),
{
    let ghost start = string_views(args@);
    push_pair(args, "--pull-source", pull.source.clone());
    push_pair(args, "--pull-target", pull.target.clone());
    let ghost a0 = seq!["--pull-source"@, pull.source@, "--pull-target"@, pull.target@];
    assert(string_views(args@) =~= start + a0);
    let is_dir = str_eq(pull.pull_type.as_str(), "directory");
    push_flag_if(args, !is_dir, "--pull-type", pull.pull_type.as_str());
    let ghost a1 = a0 + type_args(*pull);
    assert(string_views(args@) =~= start + a1);
    push_override(args, "--pull-repository", &pull.repository, &global_config.repository);
    let ghost a2 = a1 + override_args("--pull-repository"@, pull.repository, global_config.repository);
    assert(string_views(args@) =~= start + a2);
    push_override(args, "--pull-tag", &pull.tag, &global_config.tag);
    let ghost a3 = a2 + override_args("--pull-tag"@, pull.tag, global_config.tag);
    assert(string_views(args@) =~= start + a3);
    if pull.reset {
        push_arg(args, owned("--pull-reset"));
    }
    let ghost a4 = a3 + switch_if(pull.reset, "--pull-reset"@);
    assert(string_views(args@) =~= start + a4);
    push_flag_if(args, !pull.require_clean_target, "--pull-require-clean-target", "false");
    let ghost a5 = a4 + flag_if(!pull.require_clean_target, "--pull-require-clean-target"@, "false"@);
    assert(string_views(args@) =~= start + a5);
    push_flag_if(args, !pull.must_succeed, "--pull-must-succeed", "false");
    let ghost a6 = a5 + flag_if(!pull.must_succeed, "--pull-must-succeed"@, "false"@);
    assert(string_views(args@) =~= start + a6);
}

/// Append a flag and the formatted replacement, for each replacement.
fn push_replacements(args: &mut Vec<String>, repls: &Vec<ReplacementConfig>)
    ensures
        string_views(final(args)@) == string_views(old(args)@) + flag_each(
            "--pull-replacement"@,
            formatted_replacements(repls@),
        ),
{
    let ghost start = string_views(args@);
    let mut i: usize = 0;
    assert(start =~= start + flag_each("--pull-replacement"@, formatted_replacements(repls@.take(0))));
    while i < repls.len()
        invariant
            i <= repls.len(),
            string_views(args@) == start + flag_each(
                "--pull-replacement"@,
                formatted_replacements(repls@.take(i as int)),
            ),
        decreases repls.len() - i,
    {
        let f = format_replacement(&repls[i]);
        push_pair(args, "--pull-replacement", f);
        proof {
            let items = formatted_replacements(repls@.take(i as int + 1));
            assert(items.drop_last() =~= formatted_replacements(repls@.take(i as int)));
            assert(items.last() == formatted_replacement(repls@[i as int]));
            assert(string_views(args@) =~= start + flag_each("--pull-replacement"@, items));
        }
        i = i + 1;
    }
    assert(repls@.take(i as int) =~= repls@);
}

/// Append a flag and the item, for each item.
fn push_each(args: &mut Vec<String>, flag: &str, items: &Vec<String>)
    ensures
        string_views(final(args)@) == string_views(old(args)@) + flag_each(flag@, string_views(items@)),
{
    let ghost start = string_views(args@);
    let mut j: usize = 0;
    assert(start =~= start + flag_each(flag@, string_views(items@.take(0))));
    while j < items.len()
        invariant
            j <= items.len(),
            string_views(args@) == start + flag_each(flag@, string_views(items@.take(j as int))),
        decreases items.len() - j,
    {
        push_pair(args, flag, items[j].clone());
        proof {
            let v = string_views(items@.take(j as int + 1));
            assert(v.drop_last() =~= string_views(items@.take(j as int)));
            assert(string_views(args@) =~= start + flag_each(flag@, v));
        }
        j = j + 1;
    }
    assert(items@.take(j as int) =~= items@);
}

/// Append the arguments of a single pull.
pub fn add_pull_args(args: &mut Vec<String>, pull: &PullConfig, global_config: &Config)
    ensures
        string_views(final(args)@) == string_views(old(args)@) + pull_args(*pull, *global_config),
{
    let ghost start = string_views(args@);
    add_pull_head(args, pull, global_config);
    push_replacements(args, &pull.replacements);
    push_each(args, "--pull-commands", &pull.commands);
    assert(string_views(args@) =~= start + pull_args(*pull, *global_config));
}

/// Format a replacement as "SOURCE=TARGET" or "SOURCE=env:VAR".
pub fn format_replacement(repl: &ReplacementConfig) -> (r: String)
    ensures
        r@ == formatted_replacement(*repl),
{
    match &repl.value_from_env {
        Some(env_var) => {
            let mut s = repl.source.clone();
            s.append("=env:");
            s.append(env_var.as_str());
            s
        },
        None => match &repl.target {
            Some(target) => {
                let mut s = repl.source.clone();
                s.append("=");
                s.append(target.as_str());
                s
            },
            None => repl.source.clone(),
        },
    }
}

/// Characters that need no quoting.
pub open spec fn is_plain_char(c: char) -> bool {
    is_ascii_alnum(c) || c == '-' || c == '_' || c == '/' || c == '.' || c == ':'
}

/// Is every character plain?
pub open spec fn all_plain(s: Seq<char>) -> bool {
    forall|i: int| 0 <= i < s.len() ==> is_plain_char(#[trigger] s[i])
}

/// Does a character get a backslash inside the double quotes?
pub open spec fn needs_backslash(c: char) -> bool {
    c == '"' || c == '\\' || c == '$' || c == '`'
}

/// One character as written inside the double quotes.
pub open spec fn escaped_char(c: char) -> Seq<char> {
    if needs_backslash(c) {
        seq!['\\', c]
    } else {
        seq![c]
    }
}

/// The characters as written inside the double quotes.
pub open spec fn escaped_body(s: Seq<char>) -> Seq<char>
    decreases s.len(),
{
    if s.len() == 0 {
        Seq::empty()
    } else {
        escaped_body(s.drop_last()) + escaped_char(s.last())
    }
}

/// A string in double quotes, with `"`, `\`, `$` and `` ` `` escaped.
pub open spec fn quoted(s: Seq<char>) -> Seq<char> {
    seq!['"'] + escaped_body(s) + seq!['"']
}

/// A string as a shell word: unchanged when it is non-empty and every
/// character is plain, otherwise quoted.
pub open spec fn shell_escaped(s: Seq<char>) -> Seq<char> {
    if s.len() > 0 && all_plain(s) {
        s
    } else {
        quoted(s)
    }
}

/// Append a string in double quotes.
fn push_quoted(out: &mut String, s: &str)
    ensures
        final(out)@ == old(out)@ + quoted(s@),
{
    let v = chars_of(s);
    let ghost start = out@;
    string_push(out, '"');
    let mut k: usize = 0;
    assert(v@.take(0) =~= Seq::<char>::empty());
    assert(out@ =~= start + seq!['"'] + escaped_body(v@.take(0)));
    while k < v.len()
        invariant
            k <= v.len(),
            v@ == s@,
            out@ == start + seq!['"'] + escaped_body(v@.take(k as int)),
        decreases v.len() - k,
    {
        let c = v[k];
        let ghost prev = out@;
        if c == '"' || c == '\\' || c == '$' || c == '`' {
            string_push(out, '\\');
        }
        string_push(out, c);
        proof {
            assert(v@.take(k as int + 1).drop_last() =~= v@.take(k as int));
            assert(out@ =~= prev + escaped_char(c));
            assert(out@ =~= start + seq!['"'] + escaped_body(v@.take(k as int + 1)));
        }
        k = k + 1;
    }
    string_push(out, '"');
    assert(v@.take(k as int) =~= v@);
    assert(out@ =~= start + quoted(s@));
}

/// Escape a string for shell execution.
pub fn shell_escape(input: &str) -> (r: String)
    ensures
        r@ == shell_escaped(input@),
{
    let v = chars_of(input);
    let mut plain = true;
    let mut i: usize = 0;
    while i < v.len()
        invariant
            i <= v.len(),
            v@ == input@,
            plain == all_plain(v@.take(i as int)),
        decreases v.len() - i,
    {
        let c = v[i];
        let ok = is_ascii_alnum_exec(c) || c == '-' || c == '_' || c == '/' || c == '.' || c == ':';
        proof {
            let t = v@.take(i as int + 1);
            assert(t[i as int] == c);
            assert(forall|j: int| 0 <= j < i ==> t[j] == v@.take(i as int)[j]);
        }
        plain = plain && ok;
        i = i + 1;
    }
    assert(v@.take(i as int) =~= v@);
    if plain && v.len() > 0 {
        return owned(input);
    }
    let mut out = String::new();
    push_quoted(&mut out, input);
    assert(out@ =~= quoted(input@));
    out
}

/// The break between lines of the shell form: a continuation and an
/// indent of two spaces.
pub open spec fn line_break() -> Seq<char> {
    seq![' ', '\\', '\n', ' ', ' ']
}

/// Does a flag stand alone, with no value after it?
pub open spec fn is_switch(f: Seq<char>) -> bool {
    f == "--pull-reset"@
}

/// The lines of the shell form after the program's name: one per flag,
/// with the flag's value after it in double quotes unless the flag is a
/// switch.
pub open spec fn shell_lines(rest: Seq<Seq<char>>) -> Seq<char>
    decreases rest.len(),
{
    if rest.len() == 0 {
        Seq::empty()
    } else if is_switch(rest[0]) || rest.len() == 1 {
        line_break() + shell_escaped(rest[0]) + shell_lines(rest.skip(1))
    } else {
        line_break() + shell_escaped(rest[0]) + seq![' '] + quoted(rest[1]) + shell_lines(
            rest.skip(2),
        )
    }
}

/// The shell form of an argument list: the program's name, then a line
/// for each flag.
pub open spec fn shell_text(args: Seq<Seq<char>>) -> Seq<char> {
    if args.len() == 0 {
        Seq::empty()
    } else {
        shell_escaped(args[0]) + shell_lines(args.skip(1))
    }
}

/// Append the break between two lines.
fn push_line_break(out: &mut String)
    ensures
        final(out)@ == old(out)@ + line_break(),
{
    let ghost start = out@;
    string_push(out, ' ');
    string_push(out, '\\');
    string_push(out, '\n');
    string_push(out, ' ');
    string_push(out, ' ');
    assert(out@ =~= start + line_break());
}

/// Format arguments as a shell command: the program's name, then each flag
/// on a line of its own with its value in double quotes, joined by line
/// continuations.
pub fn format_as_shell(args: &[String]) -> (r: String)
    ensures
        r@ == shell_text(string_views(args@)),
{
    let ghost a = string_views(args@);
    let mut out = String::new();
    if args.len() == 0 {
        return out;
    }
    let first = shell_escape(args[0].as_str());
    out.append(first.as_str());
    assert(out@ =~= shell_escaped(a[0]));
    let mut i: usize = 1;
    while i < args.len()
        invariant
            1 <= i <= args.len(),
            a == string_views(args@),
            a.len() == args.len(),
            out@ + shell_lines(a.skip(i as int)) == shell_text(a),
        decreases args.len() - i,
    {
        let ghost rest = a.skip(i as int);
        let ghost prev = out@;
        assert(rest[0] == args@[i as int]@);
        push_line_break(&mut out);
        let f = shell_escape(args[i].as_str());
        out.append(f.as_str());
        if str_eq(args[i].as_str(), "--pull-reset") || i + 1 == args.len() {
            proof {
                assert(rest.skip(1) =~= a.skip(i as int + 1));
                assert(out@ =~= prev + line_break() + shell_escaped(rest[0]));
                assert(out@ + shell_lines(a.skip(i as int + 1)) =~= prev + shell_lines(rest));
            }
            i = i + 1;
        } else {
            string_push(&mut out, ' ');
            push_quoted(&mut out, args[i + 1].as_str());
            proof {
                assert(rest[1] == args@[i as int + 1]@);
                assert(rest.skip(2) =~= a.skip(i as int + 2));
                assert(out@ =~= prev + line_break() + shell_escaped(rest[0]) + seq![' '] + quoted(
                    rest[1],
                ));
                assert(out@ + shell_lines(a.skip(i as int + 2)) =~= prev + shell_lines(rest));
            }
            i = i + 2;
        }
    }
    assert(a.skip(i as int) =~= Seq::<Seq<char>>::empty());
    assert(out@ =~= out@ + shell_lines(a.skip(i as int)));
    out
}

/// Format arguments as a pretty JSON array of strings.
pub fn format_as_json(args: &[String]) -> (r: Result<String, GraftError>)
    ensures
        r matches Ok(s) && s@ == json_pretty_strings(string_views(args@)),
{
    Ok(pretty_json_strings(args))
}

/// The text of a configuration in a format.
pub open spec fn command_line_text(config: Config, format: OutputFormat) -> Seq<char> {
    match format {
        OutputFormat::Shell => shell_text(command_line_args(config)),
        OutputFormat::Json => json_pretty_strings(command_line_args(config)),
    }
}

/// Convert a configuration to its command-line representation.
pub fn generate_command_line(config: &Config, format: OutputFormat) -> (r: Result<String, GraftError>)
    ensures
        r matches Ok(s) && s@ == command_line_text(*config, format),
{
    let args = build_command_args(config);
    match format {
        OutputFormat::Shell => Ok(format_as_shell(args.as_slice())),
        OutputFormat::Json => format_as_json(args.as_slice()),
    }
}


/// Characters that a backslash escapes inside POSIX double quotes.
pub open spec fn dq_escapable(c: char) -> bool {
    c == '$' || c == '`' || c == '"' || c == '\\' || c == '\n'
}

/// The text inside POSIX double quotes as the shell reads it: a backslash
/// before an escapable character stands for that character, any other
/// character for itself.
pub open spec fn dq_unescape(b: Seq<char>) -> Seq<char>
    decreases b.len(),
{
    if b.len() == 0 {
        Seq::empty()
    } else if b[0] == '\\' && b.len() >= 2 && dq_escapable(b[1]) {
        seq![b[1]] + dq_unescape(b.skip(2))
    } else {
        seq![b[0]] + dq_unescape(b.skip(1))
    }
}

/// The value a POSIX shell gives a word that is either made of plain
/// characters or wrapped in double quotes.
pub open spec fn shell_word_value(w: Seq<char>) -> Seq<char> {
    if w.len() >= 2 && w[0] == '"' && w.last() == '"' {
        dq_unescape(w.subrange(1, w.len() - 1))
    } else {
        w
    }
}

proof fn lemma_escaped_body_front(s: Seq<char>)
    requires
        s.len() > 0,
    ensures
        escaped_body(s) == escaped_char(s[0]) + escaped_body(s.skip(1)),
    decreases s.len(),
{
    if s.len() == 1 {
        assert(s.drop_last() =~= Seq::<char>::empty());
        assert(s.skip(1) =~= Seq::<char>::empty());
        assert(escaped_body(s) =~= escaped_char(s[0]) + escaped_body(s.skip(1)));
    } else {
        lemma_escaped_body_front(s.drop_last());
        assert(s.drop_last().skip(1) =~= s.skip(1).drop_last());
        assert(s.skip(1).last() == s.last());
        assert(escaped_body(s) =~= escaped_char(s[0]) + escaped_body(s.skip(1)));
    }
}

proof fn lemma_unescape_body(s: Seq<char>)
    ensures
        dq_unescape(escaped_body(s)) == s,
    decreases s.len(),
{
    if s.len() == 0 {
    } else {
        lemma_escaped_body_front(s);
        let rest = s.skip(1);
        lemma_unescape_body(rest);
        let e = escaped_body(s);
        let c = s[0];
        if needs_backslash(c) {
            assert(e.skip(2) =~= escaped_body(rest));
        } else {
            assert(e.skip(1) =~= escaped_body(rest));
        }
        assert(seq![c] + rest =~= s);
    }
}

/// Law: a quoted string is read back by the shell as the string itself.
pub proof fn quoted_round_trip(s: Seq<char>)
    ensures
        shell_word_value(quoted(s)) == s,
{
    let w = quoted(s);
    assert(w.subrange(1, w.len() - 1) =~= escaped_body(s));
    lemma_unescape_body(s);
}

proof fn lemma_escaped_body_len(s: Seq<char>)
    ensures
        escaped_body(s).len() >= s.len(),
    decreases s.len(),
{
    if s.len() > 0 {
        lemma_escaped_body_len(s.drop_last());
    }
}

/// Law: the escaped form of any string, the empty one included, is a
/// non-empty shell word that the shell reads back as the string itself; it
/// is the string unchanged exactly when the string is non-empty and made of
/// plain characters (ASCII letters and digits, `-`, `_`, `/`, `.`, `:`).
pub proof fn shell_escape_round_trip(s: Seq<char>)
    ensures
        shell_escaped(s).len() > 0,
        shell_word_value(shell_escaped(s)) == s,
        shell_escaped(s) == s <==> s.len() > 0 && all_plain(s),
{
    quoted_round_trip(s);
    lemma_escaped_body_len(s);
    if !(s.len() > 0 && all_plain(s)) {
        assert(quoted(s).len() == escaped_body(s).len() + 2);
        assert(shell_escaped(s).len() != s.len());
    }
    if s.len() > 0 && all_plain(s) {
        if s.len() >= 2 && s[0] == '"' {
            assert(is_plain_char(s[0]));
        }
    }
}


/// The flags that the command line is built from.
pub open spec fn emitted_flag(f: Seq<char>) -> bool {
    ||| f == "--repository"@
    ||| f == "--tag"@
    ||| f == "--pull-source"@
    ||| f == "--pull-target"@
    ||| f == "--pull-type"@
    ||| f == "--pull-repository"@
    ||| f == "--pull-tag"@
    ||| f == "--pull-reset"@
    ||| f == "--pull-require-clean-target"@
    ||| f == "--pull-must-succeed"@
    ||| f == "--pull-replacement"@
    ||| f == "--pull-commands"@
}

/// An argument list read flag by flag: each flag is an emitted one, a
/// switch stands alone, and any other flag is followed by its value.
pub open spec fn flag_list(s: Seq<Seq<char>>) -> bool
    decreases s.len(),
{
    if s.len() == 0 {
        true
    } else if is_switch(s[0]) {
        flag_list(s.skip(1))
    } else {
        emitted_flag(s[0]) && s.len() >= 2 && flag_list(s.skip(2))
    }
}

proof fn lemma_flag_list_concat(a: Seq<Seq<char>>, b: Seq<Seq<char>>)
    requires
        flag_list(a),
        flag_list(b),
    ensures
        flag_list(a + b),
    decreases a.len(),
{
    if a.len() == 0 {
        assert(a + b =~= b);
    } else if is_switch(a[0]) {
        lemma_flag_list_concat(a.skip(1), b);
        assert((a + b).skip(1) =~= a.skip(1) + b);
        assert((a + b)[0] == a[0]);
    } else {
        lemma_flag_list_concat(a.skip(2), b);
        assert((a + b).skip(2) =~= a.skip(2) + b);
        assert((a + b)[0] == a[0]);
    }
}

/// The flags that take a value are not the switch.
proof fn lemma_value_flags()
    ensures
        !is_switch("--repository"@),
        !is_switch("--tag"@),
        !is_switch("--pull-source"@),
        !is_switch("--pull-target"@),
        !is_switch("--pull-type"@),
        !is_switch("--pull-repository"@),
        !is_switch("--pull-tag"@),
        !is_switch("--pull-require-clean-target"@),
        !is_switch("--pull-must-succeed"@),
        !is_switch("--pull-replacement"@),
        !is_switch("--pull-commands"@),
{
    reveal_strlit("--repository");
    reveal_strlit("--tag");
    reveal_strlit("--pull-source");
    reveal_strlit("--pull-target");
    reveal_strlit("--pull-type");
    reveal_strlit("--pull-repository");
    reveal_strlit("--pull-tag");
    reveal_strlit("--pull-reset");
    reveal_strlit("--pull-require-clean-target");
    reveal_strlit("--pull-must-succeed");
    reveal_strlit("--pull-replacement");
    reveal_strlit("--pull-commands");
    assert("--repository"@[2] != "--pull-reset"@[2]);
    assert("--pull-source"@.len() != "--pull-reset"@.len());
    assert("--pull-target"@.len() != "--pull-reset"@.len());
}

proof fn lemma_pair(f: Seq<char>, v: Seq<char>)
    requires
        emitted_flag(f),
        !is_switch(f),
    ensures
        flag_list(seq![f, v]),
{
    let s = seq![f, v];
    assert(s[0] == f);
    assert(s.skip(2) =~= Seq::<Seq<char>>::empty());
    assert(flag_list(s.skip(2)));
}

proof fn lemma_switch(f: Seq<char>)
    requires
        is_switch(f),
    ensures
        flag_list(seq![f]),
{
    let s = seq![f];
    assert(s[0] == f);
    assert(s.skip(1) =~= Seq::<Seq<char>>::empty());
    assert(flag_list(s.skip(1)));
}

proof fn lemma_flag_each(f: Seq<char>, items: Seq<Seq<char>>)
    requires
        emitted_flag(f),
        !is_switch(f),
    ensures
        flag_list(flag_each(f, items)),
    decreases items.len(),
{
    if items.len() > 0 {
        lemma_flag_each(f, items.drop_last());
        lemma_pair(f, items.last());
        lemma_flag_list_concat(flag_each(f, items.drop_last()), seq![f, items.last()]);
    }
}

proof fn lemma_pull_flags(pull: PullConfig, global: Config)
    ensures
        flag_list(pull_args(pull, global)),
{
    lemma_value_flags();
    assert(flag_list(Seq::<Seq<char>>::empty()));
    let head = seq!["--pull-source"@, pull.source@, "--pull-target"@, pull.target@];
    assert(flag_list(head)) by {
        assert(head[0] == "--pull-source"@);
        assert(head.skip(2) =~= seq!["--pull-target"@, pull.target@]);
        lemma_pair("--pull-target"@, pull.target@);
    }
    if pull.pull_type@ != "directory"@ {
        lemma_pair("--pull-type"@, pull.pull_type@);
    }
    match pull.repository {
        Some(v) => { lemma_pair("--pull-repository"@, v@); },
        None => {},
    }
    match pull.tag {
        Some(v) => { lemma_pair("--pull-tag"@, v@); },
        None => {},
    }
    lemma_switch("--pull-reset"@);
    lemma_pair("--pull-require-clean-target"@, "false"@);
    lemma_pair("--pull-must-succeed"@, "false"@);
    lemma_flag_each("--pull-replacement"@, formatted_replacements(pull.replacements@));
    lemma_flag_each("--pull-commands"@, string_views(pull.commands@));
    let t = type_args(pull);
    let r = override_args("--pull-repository"@, pull.repository, global.repository);
    let g = override_args("--pull-tag"@, pull.tag, global.tag);
    let z = switch_if(pull.reset, "--pull-reset"@);
    let c = flag_if(!pull.require_clean_target, "--pull-require-clean-target"@, "false"@);
    let m = flag_if(!pull.must_succeed, "--pull-must-succeed"@, "false"@);
    let e = flag_each("--pull-replacement"@, formatted_replacements(pull.replacements@));
    let k = flag_each("--pull-commands"@, string_views(pull.commands@));
    lemma_flag_list_concat(head, t);
    lemma_flag_list_concat(head + t, r);
    lemma_flag_list_concat(head + t + r, g);
    lemma_flag_list_concat(head + t + r + g, z);
    lemma_flag_list_concat(head + t + r + g + z, c);
    lemma_flag_list_concat(head + t + r + g + z + c, m);
    lemma_flag_list_concat(head + t + r + g + z + c + m, e);
    lemma_flag_list_concat(head + t + r + g + z + c + m + e, k);
}

proof fn lemma_pulls_flags(pulls: Seq<PullConfig>, global: Config)
    ensures
        flag_list(pulls_args(pulls, global)),
    decreases pulls.len(),
{
    if pulls.len() == 0 {
        assert(flag_list(Seq::<Seq<char>>::empty()));
    } else {
        lemma_pulls_flags(pulls.drop_last(), global);
        lemma_pull_flags(pulls.last(), global);
        lemma_flag_list_concat(pulls_args(pulls.drop_last(), global), pull_args(pulls.last(), global));
    }
}

/// The settings that reading an argument list flag by flag gives, as the
/// command-line parser reads it: a switch is set to `true`, any other flag
/// takes the next argument as its value.
pub open spec fn read_settings(s: Seq<Seq<char>>) -> Seq<(Seq<char>, Seq<char>)>
    decreases s.len(),
{
    if s.len() == 0 {
        Seq::empty()
    } else if is_switch(s[0]) {
        seq![(s[0], "true"@)] + read_settings(s.skip(1))
    } else if s.len() == 1 {
        seq![(s[0], Seq::<char>::empty())]
    } else {
        seq![(s[0], s[1])] + read_settings(s.skip(2))
    }
}

/// The value that a flag ends up with: its last setting, or `default` when
/// it is not set.
pub open spec fn setting(ps: Seq<(Seq<char>, Seq<char>)>, flag: Seq<char>, default: Seq<char>) -> Seq<char>
    decreases ps.len(),
{
    if ps.len() == 0 {
        default
    } else if ps.last().0 == flag {
        ps.last().1
    } else {
        setting(ps.drop_last(), flag, default)
    }
}

/// An optional text, empty when absent.
pub open spec fn opt_text(o: Option<String>) -> Seq<char> {
    match o {
        Some(s) => s@,
        None => Seq::empty(),
    }
}

/// A pull's own setting, or else the configuration's.
pub open spec fn own_or_global(own: Option<String>, global: Option<String>) -> Option<String> {
    match own {
        Some(v) => Some(v),
        None => global,
    }
}

/// A boolean as the command line writes it.
pub open spec fn bool_text(b: bool) -> Seq<char> {
    if b {
        "true"@
    } else {
        "false"@
    }
}

proof fn lemma_read_concat(a: Seq<Seq<char>>, b: Seq<Seq<char>>)
    requires
        flag_list(a),
    ensures
        read_settings(a + b) == read_settings(a) + read_settings(b),
    decreases a.len(),
{
    if a.len() == 0 {
        assert(a + b =~= b);
        assert(read_settings(a) + read_settings(b) =~= read_settings(b));
    } else if is_switch(a[0]) {
        lemma_read_concat(a.skip(1), b);
        assert((a + b).skip(1) =~= a.skip(1) + b);
        assert((a + b)[0] == a[0]);
        assert(read_settings(a + b) =~= read_settings(a) + read_settings(b));
    } else {
        lemma_read_concat(a.skip(2), b);
        assert((a + b).skip(2) =~= a.skip(2) + b);
        assert((a + b)[0] == a[0]);
        assert((a + b)[1] == a[1]);
        assert(read_settings(a + b) =~= read_settings(a) + read_settings(b));
    }
}

proof fn lemma_setting_concat(p: Seq<(Seq<char>, Seq<char>)>, q: Seq<(Seq<char>, Seq<char>)>, f: Seq<char>, d: Seq<char>)
    ensures
        setting(p + q, f, d) == setting(q, f, setting(p, f, d)),
    decreases q.len(),
{
    if q.len() == 0 {
        assert(p + q =~= p);
    } else {
        lemma_setting_concat(p, q.drop_last(), f, d);
        assert((p + q).drop_last() =~= p + q.drop_last());
        assert((p + q).last() == q.last());
    }
}

/// What a piece of a pull's arguments sets a flag to: an empty piece or one
/// of another flag leaves it as it was; a flag with its value, or the
/// switch, sets it.
proof fn lemma_piece_setting(piece: Seq<Seq<char>>, f: Seq<char>, d: Seq<char>)
    requires
        piece.len() == 0 || (piece.len() == 2 && !is_switch(piece[0])) || (piece.len() == 1 && is_switch(piece[0])),
    ensures
        setting(read_settings(piece), f, d) == (if piece.len() == 2 && piece[0] == f {
            piece[1]
        } else if piece.len() == 1 && piece[0] == f {
            "true"@
        } else {
            d
        }),
{
    let none = Seq::<(Seq<char>, Seq<char>)>::empty();
    assert(read_settings(Seq::<Seq<char>>::empty()) == none);
    if piece.len() == 2 {
        assert(piece.skip(2) =~= Seq::<Seq<char>>::empty());
        assert(read_settings(piece) == seq![(piece[0], piece[1])] + read_settings(piece.skip(2)));
        assert(read_settings(piece) =~= seq![(piece[0], piece[1])]);
        let ps = read_settings(piece);
        assert(ps.drop_last() =~= none);
        assert(ps.last() == (piece[0], piece[1]));
        assert(setting(none, f, d) == d);
    } else if piece.len() == 1 {
        assert(piece.skip(1) =~= Seq::<Seq<char>>::empty());
        assert(read_settings(piece) == seq![(piece[0], "true"@)] + read_settings(piece.skip(1)));
        assert(read_settings(piece) =~= seq![(piece[0], "true"@)]);
        let ps = read_settings(piece);
        assert(ps.drop_last() =~= none);
        assert(ps.last() == (piece[0], "true"@));
        assert(setting(none, f, d) == d);
    } else {
        assert(piece =~= Seq::<Seq<char>>::empty());
    }
}

/// Repeating a flag other than `f` leaves `f` as it was.
proof fn lemma_each_setting(g: Seq<char>, items: Seq<Seq<char>>, f: Seq<char>, d: Seq<char>)
    requires
        emitted_flag(g),
        !is_switch(g),
        g != f,
    ensures
        flag_list(flag_each(g, items)),
        setting(read_settings(flag_each(g, items)), f, d) == d,
    decreases items.len(),
{
    lemma_flag_each(g, items);
    if items.len() > 0 {
        lemma_each_setting(g, items.drop_last(), f, d);
        lemma_read_concat(flag_each(g, items.drop_last()), seq![g, items.last()]);
        lemma_setting_concat(
            read_settings(flag_each(g, items.drop_last())),
            read_settings(seq![g, items.last()]),
            f,
            d,
        );
        lemma_piece_setting(seq![g, items.last()], f, d);
    }
}

/// Every value given to a flag, in order.
pub open spec fn all_values(ps: Seq<(Seq<char>, Seq<char>)>, flag: Seq<char>) -> Seq<Seq<char>>
    decreases ps.len(),
{
    if ps.len() == 0 {
        Seq::empty()
    } else if ps.last().0 == flag {
        all_values(ps.drop_last(), flag).push(ps.last().1)
    } else {
        all_values(ps.drop_last(), flag)
    }
}

proof fn lemma_all_values_concat(p: Seq<(Seq<char>, Seq<char>)>, q: Seq<(Seq<char>, Seq<char>)>, f: Seq<char>)
    ensures
        all_values(p + q, f) == all_values(p, f) + all_values(q, f),
    decreases q.len(),
{
    if q.len() == 0 {
        assert(p + q =~= p);
        assert(all_values(p, f) + all_values(q, f) =~= all_values(p, f));
    } else {
        lemma_all_values_concat(p, q.drop_last(), f);
        assert((p + q).drop_last() =~= p + q.drop_last());
        assert((p + q).last() == q.last());
        if q.last().0 == f {
            assert(all_values(p + q, f) =~= all_values(p, f) + all_values(q, f));
        }
    }
}

/// The values of a piece of a pull's arguments for a flag.
proof fn lemma_piece_values(piece: Seq<Seq<char>>, f: Seq<char>)
    requires
        piece.len() == 0 || (piece.len() == 2 && !is_switch(piece[0])) || (piece.len() == 1 && is_switch(piece[0])),
    ensures
        all_values(read_settings(piece), f) == (if piece.len() == 2 && piece[0] == f {
            seq![piece[1]]
        } else if piece.len() == 1 && piece[0] == f {
            seq!["true"@]
        } else {
            Seq::<Seq<char>>::empty()
        }),
{
    let none = Seq::<(Seq<char>, Seq<char>)>::empty();
    assert(read_settings(Seq::<Seq<char>>::empty()) == none);
    if piece.len() == 2 {
        assert(piece.skip(2) =~= Seq::<Seq<char>>::empty());
        assert(read_settings(piece) == seq![(piece[0], piece[1])] + read_settings(piece.skip(2)));
        assert(read_settings(piece) =~= seq![(piece[0], piece[1])]);
        let ps = read_settings(piece);
        assert(ps.drop_last() =~= none);
        assert(ps.last() == (piece[0], piece[1]));
        assert(all_values(none, f) =~= Seq::<Seq<char>>::empty());
        assert(Seq::<Seq<char>>::empty().push(piece[1]) =~= seq![piece[1]]);
        assert(all_values(ps, f) == (if piece[0] == f {
            all_values(ps.drop_last(), f).push(piece[1])
        } else {
            all_values(ps.drop_last(), f)
        }));
    } else if piece.len() == 1 {
        assert(piece.skip(1) =~= Seq::<Seq<char>>::empty());
        assert(read_settings(piece) == seq![(piece[0], "true"@)] + read_settings(piece.skip(1)));
        assert(read_settings(piece) =~= seq![(piece[0], "true"@)]);
        let ps = read_settings(piece);
        assert(ps.drop_last() =~= none);
        assert(ps.last() == (piece[0], "true"@));
        assert(all_values(none, f) =~= Seq::<Seq<char>>::empty());
        assert(Seq::<Seq<char>>::empty().push("true"@) =~= seq!["true"@]);
        assert(all_values(ps, f) == (if piece[0] == f {
            all_values(ps.drop_last(), f).push("true"@)
        } else {
            all_values(ps.drop_last(), f)
        }));
    } else {
        assert(piece =~= Seq::<Seq<char>>::empty());
        assert(all_values(none, f) =~= Seq::<Seq<char>>::empty());
    }
}

/// The values that repeating a flag gives: its items for that flag, none for
/// another.
proof fn lemma_each_values(g: Seq<char>, items: Seq<Seq<char>>, f: Seq<char>)
    requires
        emitted_flag(g),
        !is_switch(g),
    ensures
        all_values(read_settings(flag_each(g, items)), f) == (if g == f {
            items
        } else {
            Seq::<Seq<char>>::empty()
        }),
    decreases items.len(),
{
    lemma_flag_each(g, items);
    if items.len() == 0 {
        assert(read_settings(Seq::<Seq<char>>::empty()) == Seq::<(Seq<char>, Seq<char>)>::empty());
    } else {
        lemma_each_values(g, items.drop_last(), f);
        lemma_flag_each(g, items.drop_last());
        lemma_read_concat(flag_each(g, items.drop_last()), seq![g, items.last()]);
        lemma_all_values_concat(read_settings(flag_each(g, items.drop_last())), read_settings(seq![g, items.last()]), f);
        lemma_piece_values(seq![g, items.last()], f);
        if g == f {
            assert(items.drop_last() + seq![items.last()] =~= items);
        } else {
            assert(Seq::<Seq<char>>::empty() + Seq::<Seq<char>>::empty() =~= Seq::<Seq<char>>::empty());
        }
    }
}

/// Law: reading the arguments of a pull back flag by flag gives its
/// replacements (in their text form) and its commands, all of them, in
/// order.
pub proof fn pull_lists_read_back(pull: PullConfig, global: Config)
    ensures
        all_values(read_settings(pull_args(pull, global)), "--pull-replacement"@) == formatted_replacements(
            pull.replacements@,
        ),
        all_values(read_settings(pull_args(pull, global)), "--pull-commands"@) == string_views(pull.commands@),
{
    reveal_strlit("--pull-source");
    reveal_strlit("--pull-target");
    reveal_strlit("--pull-type");
    reveal_strlit("--pull-repository");
    reveal_strlit("--pull-tag");
    reveal_strlit("--pull-reset");
    reveal_strlit("--pull-require-clean-target");
    reveal_strlit("--pull-must-succeed");
    reveal_strlit("--pull-replacement");
    reveal_strlit("--pull-commands");
    assert("--pull-source"@.len() == 13);
    assert("--pull-target"@.len() == 13);
    assert("--pull-type"@.len() == 11);
    assert("--pull-reset"@.len() == 12);
    assert("--pull-require-clean-target"@.len() == 27);
    assert("--pull-must-succeed"@.len() == 19);
    assert("--pull-replacement"@.len() == 18);
    assert("--pull-commands"@.len() == 15);
    assert("--pull-repository"@.len() == 17);
    assert("--pull-tag"@.len() == 10);
    lemma_pull_values(pull, global, "--pull-replacement"@);
    lemma_pull_values(pull, global, "--pull-commands"@);
}

/// The values of a replacement or command flag in a pull's arguments.
proof fn lemma_pull_values(pull: PullConfig, global: Config, f: Seq<char>)
    requires
        f == "--pull-replacement"@ || f == "--pull-commands"@,
        f != "--pull-source"@,
        f != "--pull-target"@,
        f != "--pull-type"@,
        f != "--pull-repository"@,
        f != "--pull-tag"@,
        f != "--pull-reset"@,
        f != "--pull-require-clean-target"@,
        f != "--pull-must-succeed"@,
        "--pull-replacement"@ != "--pull-commands"@,
    ensures
        all_values(read_settings(pull_args(pull, global)), f) == (if f == "--pull-replacement"@ {
            formatted_replacements(pull.replacements@)
        } else {
            string_views(pull.commands@)
        }),
{
    lemma_value_flags();
    let h1 = seq!["--pull-source"@, pull.source@];
    let h2 = seq!["--pull-target"@, pull.target@];
    let t = type_args(pull);
    let r = override_args("--pull-repository"@, pull.repository, global.repository);
    let g = override_args("--pull-tag"@, pull.tag, global.tag);
    let z = switch_if(pull.reset, "--pull-reset"@);
    let c = flag_if(!pull.require_clean_target, "--pull-require-clean-target"@, "false"@);
    let m = flag_if(!pull.must_succeed, "--pull-must-succeed"@, "false"@);
    let e = flag_each("--pull-replacement"@, formatted_replacements(pull.replacements@));
    let k = flag_each("--pull-commands"@, string_views(pull.commands@));
    assert(seq!["--pull-source"@, pull.source@, "--pull-target"@, pull.target@] =~= h1 + h2);
    assert(pull_args(pull, global) == h1 + h2 + t + r + g + z + c + m + e + k);
    lemma_pair("--pull-source"@, pull.source@);
    lemma_pair("--pull-target"@, pull.target@);
    if pull.pull_type@ != "directory"@ {
        lemma_pair("--pull-type"@, pull.pull_type@);
    }
    match pull.repository {
        Some(v) => { lemma_pair("--pull-repository"@, v@); },
        None => {},
    }
    match pull.tag {
        Some(v) => { lemma_pair("--pull-tag"@, v@); },
        None => {},
    }
    lemma_switch("--pull-reset"@);
    lemma_pair("--pull-require-clean-target"@, "false"@);
    lemma_pair("--pull-must-succeed"@, "false"@);
    assert(flag_list(Seq::<Seq<char>>::empty()));
    lemma_flag_list_concat(h1, h2);
    lemma_flag_list_concat(h1 + h2, t);
    lemma_flag_list_concat(h1 + h2 + t, r);
    lemma_flag_list_concat(h1 + h2 + t + r, g);
    lemma_flag_list_concat(h1 + h2 + t + r + g, z);
    lemma_flag_list_concat(h1 + h2 + t + r + g + z, c);
    lemma_flag_list_concat(h1 + h2 + t + r + g + z + c, m);
    lemma_flag_each("--pull-replacement"@, formatted_replacements(pull.replacements@));
    lemma_flag_list_concat(h1 + h2 + t + r + g + z + c + m, e);
    lemma_read_concat(h1, h2);
    lemma_read_concat(h1 + h2, t);
    lemma_read_concat(h1 + h2 + t, r);
    lemma_read_concat(h1 + h2 + t + r, g);
    lemma_read_concat(h1 + h2 + t + r + g, z);
    lemma_read_concat(h1 + h2 + t + r + g + z, c);
    lemma_read_concat(h1 + h2 + t + r + g + z + c, m);
    lemma_read_concat(h1 + h2 + t + r + g + z + c + m, e);
    lemma_read_concat(h1 + h2 + t + r + g + z + c + m + e, k);
    lemma_all_values_concat(read_settings(h1), read_settings(h2), f);
    lemma_all_values_concat(read_settings(h1 + h2), read_settings(t), f);
    lemma_all_values_concat(read_settings(h1 + h2 + t), read_settings(r), f);
    lemma_all_values_concat(read_settings(h1 + h2 + t + r), read_settings(g), f);
    lemma_all_values_concat(read_settings(h1 + h2 + t + r + g), read_settings(z), f);
    lemma_all_values_concat(read_settings(h1 + h2 + t + r + g + z), read_settings(c), f);
    lemma_all_values_concat(read_settings(h1 + h2 + t + r + g + z + c), read_settings(m), f);
    lemma_all_values_concat(read_settings(h1 + h2 + t + r + g + z + c + m), read_settings(e), f);
    lemma_all_values_concat(read_settings(h1 + h2 + t + r + g + z + c + m + e), read_settings(k), f);
    lemma_piece_values(h1, f);
    lemma_piece_values(h2, f);
    lemma_piece_values(t, f);
    lemma_piece_values(r, f);
    lemma_piece_values(g, f);
    lemma_piece_values(z, f);
    lemma_piece_values(c, f);
    lemma_piece_values(m, f);
    lemma_each_values("--pull-replacement"@, formatted_replacements(pull.replacements@), f);
    lemma_each_values("--pull-commands"@, string_views(pull.commands@), f);
    let none = Seq::<Seq<char>>::empty();
    assert(none + none + none + none + none + none + none + none + formatted_replacements(pull.replacements@) + none
        =~= formatted_replacements(pull.replacements@));
    assert(none + none + none + none + none + none + none + none + none + string_views(pull.commands@) =~= string_views(
        pull.commands@,
    ));
}

/// What reading a pull's arguments sets a flag to, for a flag that is
/// neither a replacement nor a command flag.
proof fn lemma_pull_setting(pull: PullConfig, global: Config, f: Seq<char>, d: Seq<char>)
    requires
        f != "--pull-replacement"@,
        f != "--pull-commands"@,
    ensures
        setting(read_settings(pull_args(pull, global)), f, d) == (if f == "--pull-must-succeed"@
            && !pull.must_succeed {
            "false"@
        } else if f == "--pull-require-clean-target"@ && !pull.require_clean_target {
            "false"@
        } else if f == "--pull-reset"@ && pull.reset {
            "true"@
        } else if f == "--pull-tag"@ && override_args("--pull-tag"@, pull.tag, global.tag).len() == 2 {
            override_args("--pull-tag"@, pull.tag, global.tag)[1]
        } else if f == "--pull-repository"@ && override_args("--pull-repository"@, pull.repository, global.repository).len()
            == 2 {
            override_args("--pull-repository"@, pull.repository, global.repository)[1]
        } else if f == "--pull-type"@ && pull.pull_type@ != "directory"@ {
            pull.pull_type@
        } else if f == "--pull-target"@ {
            pull.target@
        } else if f == "--pull-source"@ {
            pull.source@
        } else {
            d
        }),
{
    lemma_value_flags();
    let h1 = seq!["--pull-source"@, pull.source@];
    let h2 = seq!["--pull-target"@, pull.target@];
    let t = type_args(pull);
    let r = override_args("--pull-repository"@, pull.repository, global.repository);
    let g = override_args("--pull-tag"@, pull.tag, global.tag);
    let z = switch_if(pull.reset, "--pull-reset"@);
    let c = flag_if(!pull.require_clean_target, "--pull-require-clean-target"@, "false"@);
    let m = flag_if(!pull.must_succeed, "--pull-must-succeed"@, "false"@);
    let e = flag_each("--pull-replacement"@, formatted_replacements(pull.replacements@));
    let k = flag_each("--pull-commands"@, string_views(pull.commands@));
    assert(seq!["--pull-source"@, pull.source@, "--pull-target"@, pull.target@] =~= h1 + h2);
    assert(pull_args(pull, global) == h1 + h2 + t + r + g + z + c + m + e + k);
    lemma_pair("--pull-source"@, pull.source@);
    lemma_pair("--pull-target"@, pull.target@);
    if pull.pull_type@ != "directory"@ {
        lemma_pair("--pull-type"@, pull.pull_type@);
    }
    match pull.repository {
        Some(v) => { lemma_pair("--pull-repository"@, v@); },
        None => {},
    }
    match pull.tag {
        Some(v) => { lemma_pair("--pull-tag"@, v@); },
        None => {},
    }
    lemma_switch("--pull-reset"@);
    lemma_pair("--pull-require-clean-target"@, "false"@);
    lemma_pair("--pull-must-succeed"@, "false"@);
    assert(flag_list(Seq::<Seq<char>>::empty()));
    lemma_flag_list_concat(h1, h2);
    lemma_flag_list_concat(h1 + h2, t);
    lemma_flag_list_concat(h1 + h2 + t, r);
    lemma_flag_list_concat(h1 + h2 + t + r, g);
    lemma_flag_list_concat(h1 + h2 + t + r + g, z);
    lemma_flag_list_concat(h1 + h2 + t + r + g + z, c);
    lemma_flag_list_concat(h1 + h2 + t + r + g + z + c, m);
    lemma_flag_each("--pull-replacement"@, formatted_replacements(pull.replacements@));
    lemma_flag_list_concat(h1 + h2 + t + r + g + z + c + m, e);
    lemma_read_concat(h1, h2);
    lemma_read_concat(h1 + h2, t);
    lemma_read_concat(h1 + h2 + t, r);
    lemma_read_concat(h1 + h2 + t + r, g);
    lemma_read_concat(h1 + h2 + t + r + g, z);
    lemma_read_concat(h1 + h2 + t + r + g + z, c);
    lemma_read_concat(h1 + h2 + t + r + g + z + c, m);
    lemma_read_concat(h1 + h2 + t + r + g + z + c + m, e);
    lemma_read_concat(h1 + h2 + t + r + g + z + c + m + e, k);
    lemma_setting_concat(read_settings(h1), read_settings(h2), f, d);
    lemma_setting_concat(read_settings(h1 + h2), read_settings(t), f, d);
    lemma_setting_concat(read_settings(h1 + h2 + t), read_settings(r), f, d);
    lemma_setting_concat(read_settings(h1 + h2 + t + r), read_settings(g), f, d);
    lemma_setting_concat(read_settings(h1 + h2 + t + r + g), read_settings(z), f, d);
    lemma_setting_concat(read_settings(h1 + h2 + t + r + g + z), read_settings(c), f, d);
    lemma_setting_concat(read_settings(h1 + h2 + t + r + g + z + c), read_settings(m), f, d);
    lemma_setting_concat(read_settings(h1 + h2 + t + r + g + z + c + m), read_settings(e), f, d);
    lemma_setting_concat(read_settings(h1 + h2 + t + r + g + z + c + m + e), read_settings(k), f, d);
    let x1 = setting(read_settings(h1), f, d);
    let x2 = setting(read_settings(h2), f, x1);
    let x3 = setting(read_settings(t), f, x2);
    let x4 = setting(read_settings(r), f, x3);
    let x5 = setting(read_settings(g), f, x4);
    let x6 = setting(read_settings(z), f, x5);
    let x7 = setting(read_settings(c), f, x6);
    let x8 = setting(read_settings(m), f, x7);
    lemma_piece_setting(h1, f, d);
    lemma_piece_setting(h2, f, x1);
    lemma_piece_setting(t, f, x2);
    lemma_piece_setting(r, f, x3);
    lemma_piece_setting(g, f, x4);
    lemma_piece_setting(z, f, x5);
    lemma_piece_setting(c, f, x6);
    lemma_piece_setting(m, f, x7);
    lemma_each_setting("--pull-replacement"@, formatted_replacements(pull.replacements@), f, x8);
    lemma_each_setting("--pull-commands"@, string_views(pull.commands@), f, x8);
}

/// Law: reading the arguments of a pull back flag by flag, as the
/// command-line parser does, gives the pull's own settings: its source,
/// target and type, and whether it resets its target, requires a clean
/// target and must succeed, and the repository and tag it is fetched from
/// (its own, or the configuration's given by `--repository` and `--tag`; a
/// flag left out reads as its default).
pub proof fn pull_args_read_back(pull: PullConfig, global: Config)
    ensures
        setting(read_settings(pull_args(pull, global)), "--pull-source"@, Seq::empty()) == pull.source@,
        setting(read_settings(pull_args(pull, global)), "--pull-target"@, Seq::empty()) == pull.target@,
        setting(read_settings(pull_args(pull, global)), "--pull-type"@, "directory"@) == pull.pull_type@,
        setting(read_settings(pull_args(pull, global)), "--pull-reset"@, "false"@) == bool_text(pull.reset),
        setting(read_settings(pull_args(pull, global)), "--pull-require-clean-target"@, "true"@) == bool_text(
            pull.require_clean_target,
        ),
        setting(read_settings(pull_args(pull, global)), "--pull-must-succeed"@, "true"@) == bool_text(
            pull.must_succeed,
        ),
        setting(read_settings(pull_args(pull, global)), "--pull-tag"@, opt_text(global.tag)) == opt_text(
            own_or_global(pull.tag, global.tag),
        ),
        setting(read_settings(pull_args(pull, global)), "--pull-repository"@, opt_text(global.repository))
            == opt_text(own_or_global(pull.repository, global.repository)),
{
    reveal_strlit("--pull-source");
    reveal_strlit("--pull-target");
    reveal_strlit("--pull-type");
    reveal_strlit("--pull-repository");
    reveal_strlit("--pull-tag");
    reveal_strlit("--pull-reset");
    reveal_strlit("--pull-require-clean-target");
    reveal_strlit("--pull-must-succeed");
    reveal_strlit("--pull-replacement");
    reveal_strlit("--pull-commands");
    assert("--pull-source"@[7] != "--pull-target"@[7]);
    assert("--pull-source"@.len() == 13);
    assert("--pull-target"@.len() == 13);
    assert("--pull-type"@.len() == 11);
    assert("--pull-reset"@.len() == 12);
    assert("--pull-require-clean-target"@.len() == 27);
    assert("--pull-must-succeed"@.len() == 19);
    assert("--pull-replacement"@.len() == 18);
    assert("--pull-commands"@.len() == 15);
    assert("--pull-repository"@.len() == 17);
    assert("--pull-tag"@.len() == 10);
    lemma_pull_setting(pull, global, "--pull-source"@, Seq::empty());
    lemma_pull_setting(pull, global, "--pull-target"@, Seq::empty());
    lemma_pull_setting(pull, global, "--pull-type"@, "directory"@);
    lemma_pull_setting(pull, global, "--pull-reset"@, "false"@);
    lemma_pull_setting(pull, global, "--pull-require-clean-target"@, "true"@);
    lemma_pull_setting(pull, global, "--pull-must-succeed"@, "true"@);
    lemma_pull_setting(pull, global, "--pull-tag"@, opt_text(global.tag));
    lemma_pull_setting(pull, global, "--pull-repository"@, opt_text(global.repository));
}

/// The execution flags are not among the emitted ones.
proof fn lemma_not_execution_flag(f: Seq<char>)
    requires
        emitted_flag(f),
    ensures
        f != "--config"@,
        f != "--dry-run"@,
        f != "--verbose"@,
{
    reveal_strlit("--config");
    reveal_strlit("--dry-run");
    reveal_strlit("--verbose");
    reveal_strlit("--repository");
    reveal_strlit("--tag");
    reveal_strlit("--pull-source");
    reveal_strlit("--pull-target");
    reveal_strlit("--pull-type");
    reveal_strlit("--pull-repository");
    reveal_strlit("--pull-tag");
    reveal_strlit("--pull-reset");
    reveal_strlit("--pull-require-clean-target");
    reveal_strlit("--pull-must-succeed");
    reveal_strlit("--pull-replacement");
    reveal_strlit("--pull-commands");
    assert("--config"@.len() == 8);
    assert("--dry-run"@.len() == 9);
    assert("--verbose"@.len() == 9);
    assert(f.len() != 8 && f.len() != 9);
}

/// Law: the command line is the program's name followed by flags, each one
/// of the flags above and each but the `--pull-reset` switch followed by its
/// value; none of those flags is `--config`, `--dry-run` or `--verbose`.
pub proof fn command_line_is_config_free(config: Config)
    ensures
        command_line_args(config)[0] == "tixgraft"@,
        flag_list(command_line_args(config).skip(1)),
        forall|f: Seq<char>|
            #[trigger] emitted_flag(f) ==> f != "--config"@ && f != "--dry-run"@ && f != "--verbose"@,
{
    lemma_value_flags();
    assert(flag_list(Seq::<Seq<char>>::empty()));
    match config.repository {
        Some(v) => { lemma_pair("--repository"@, v@); },
        None => {},
    }
    match config.tag {
        Some(v) => { lemma_pair("--tag"@, v@); },
        None => {},
    }
    lemma_pulls_flags(config.pulls@, config);
    let g = global_args("--repository"@, config.repository);
    let t = global_args("--tag"@, config.tag);
    let p = pulls_args(config.pulls@, config);
    lemma_flag_list_concat(g, t);
    lemma_flag_list_concat(g + t, p);
    let all = command_line_args(config);
    assert(all.skip(1) =~= g + t + p);
    assert forall|f: Seq<char>| #[trigger] emitted_flag(f) implies f != "--config"@ && f
        != "--dry-run"@ && f != "--verbose"@ by {
        lemma_not_execution_flag(f);
    }
}

} // verus!
