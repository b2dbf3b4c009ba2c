//! Command-line arguments and the configurations built from them.
//!
//! The program parses the command line into [`Args`]; this module holds the
//! plain values and the logic that reads them.

use vstd::prelude::*;
use crate::config::context::ContextValues;
use crate::error::{ErrorKind, GraftError};
use crate::json::{json_parse, member_models, models, parse_json, JsonModel, JsonValue};
use crate::text::{chars_of, find_char, first_index_of, lemma_first_index_props, owned, str_eq, string_from_range};
use crate::json::lemma_models_len;

verus! {

/// Command-line arguments for tixgraft.
#[derive(Debug)]
pub struct Args {
    /// Git repository URL or account/repo format.
    pub repository: Option<String>,
    /// Git reference (branch, tag, or commit hash).
    pub tag: Option<String>,
    /// Configuration file path (default `./tixgraft.yaml`).
    pub config: String,
    /// Preview operations without executing.
    pub dry_run: bool,
    /// Enable verbose logging output.
    pub verbose: bool,
    /// Output the equivalent command-line invocation instead of executing.
    pub to_command_line: bool,
    /// Output the equivalent YAML configuration instead of executing.
    pub to_config: bool,
    /// Output format for to-command-line: shell or json (default `shell`).
    pub output_format: String,
    /// Context values in KEY=VALUE format; several values with one key make an array.
    pub context: Vec<String>,
    /// Context values as JSON in KEY=JSON format.
    pub context_json: Vec<String>,
    /// Pull operations.
    pub pulls: PullArgs,
    /// Skill management arguments.
    pub skill: SkillArgs,
}

/// Arguments for individual pull operations.
#[derive(Debug)]
pub struct PullArgs {
    /// Repository for specific pull.
    pub repositories: Vec<String>,
    /// Git reference for specific pull.
    pub tags: Vec<String>,
    /// Pull type: file or directory.
    pub types: Vec<String>,
    /// Source path in Git repository.
    pub sources: Vec<String>,
    /// Target path in local workspace.
    pub targets: Vec<String>,
    /// Reset target directory before copying.
    pub resets: Vec<bool>,
    /// Require clean git target directory before pulling (default: true).
    pub require_clean_targets: Vec<bool>,
    /// Whether a pull failure is fatal (default: true).
    pub must_succeeds: Vec<bool>,
    /// Commands to execute after copying (comma-separated, one entry per pull).
    pub commands: Vec<String>,
    /// Text replacements in format "SOURCE=TARGET" or "SOURCE=env:ENV_VAR".
    pub replacements: Vec<String>,
}

/// Skill management arguments.
#[derive(Debug)]
pub struct SkillArgs {
    /// Install the tixgraft skill of the coding assistant.
    pub skill_install: bool,
    /// Uninstall the tixgraft skill of the coding assistant.
    pub skill_uninstall: bool,
    /// Test whether the skill is installed and up to date.
    pub skill_test: bool,
    /// Apply the skill operation globally.
    pub global: bool,
    /// Auto-confirm prompts.
    pub yes: bool,
}

/// Individual pull configuration.
#[derive(Debug)]
pub struct PullConfig {
    pub source: String,
    pub target: String,
    /// `file` or `directory` (default `directory`).
    pub pull_type: String,
    pub repository: Option<String>,
    pub tag: Option<String>,
    /// Default false.
    pub reset: bool,
    /// Default true.
    pub require_clean_target: bool,
    /// Default true.
    pub must_succeed: bool,
    pub commands: Vec<String>,
    pub replacements: Vec<ReplacementConfig>,
    /// Context values for this pull.
    pub context: ContextValues,
}

/// Text replacement configuration.
#[derive(Debug)]
pub struct ReplacementConfig {
    pub source: String,
    pub target: Option<String>,
    pub value_from_env: Option<String>,
}

impl ReplacementConfig {
    /// A replacement from its parts.
    pub fn new(source: String, target: Option<String>, value_from_env: Option<String>) -> (r: Self)
        ensures
            r.source == source,
            r.target == target,
            r.value_from_env == value_from_env,
    {
        ReplacementConfig { source, target, value_from_env }
    }

    /// A copy of this replacement.
    pub fn clone_replacement(&self) -> (r: Self)
        ensures
            r.source@ == self.source@,
            opt_view(r.target) == opt_view(self.target),
            opt_view(r.value_from_env) == opt_view(self.value_from_env),
    {
        ReplacementConfig {
            source: self.source.clone(),
            target: clone_opt(&self.target),
            value_from_env: clone_opt(&self.value_from_env),
        }
    }
}

/// The view of an optional string.
pub open spec fn opt_view(o: Option<String>) -> Option<Seq<char>> {
    match o {
        Some(s) => Some(s@),
        None => None,
    }
}

/// A copy of an optional string.
pub fn clone_opt(o: &Option<String>) -> (r: Option<String>)
    ensures
        opt_view(r) == opt_view(*o),
{
    match o {
        Some(s) => Some(s.clone()),
        None => None,
    }
}


/// A `KEY=VALUE` argument split at its first `=`.
pub open spec fn key_value(arg: Seq<char>) -> Option<(Seq<char>, Seq<char>)> {
    match first_index_of(arg, '=') {
        Some(i) => Some((arg.take(i), arg.skip(i + 1))),
        None => None,
    }
}

/// The message of an argument without `=`.
pub open spec fn key_value_message(arg: Seq<char>) -> Seq<char> {
    "Invalid context format '"@ + arg + "'. Expected KEY=VALUE"@
}

/// Parse a `KEY=VALUE` string into its key and value (split at the first `=`).
pub fn parse_key_value(arg: &str) -> (r: Result<(String, String), GraftError>)
    ensures
        match key_value(arg@) {
            Some((k, v)) => r matches Ok(p) && p.0@ == k && p.1@ == v,
            None => r matches Err(e) && e.is(ErrorKind::Other, key_value_message(arg@)),
        },
{
    let v = chars_of(arg);
    proof {
        lemma_first_index_props(v@, '=');
    }
    match find_char(v.as_slice(), '=') {
        Some(i) => {
            let key = string_from_range(v.as_slice(), 0, i);
            let value = string_from_range(v.as_slice(), i + 1, v.len());
            assert(v@.subrange(0, i as int) =~= arg@.take(i as int));
            assert(v@.subrange(i + 1, v.len() as int) =~= arg@.skip(i + 1));
            Ok((key, value))
        },
        None => {
            let mut m = owned("Invalid context format '");
            m.append(arg);
            m.append("'. Expected KEY=VALUE");
            Err(GraftError::other(m))
        },
    }
}

/// The (key, value) pairs of `--context` arguments (values as strings), in
/// order, or the message of the first malformed one.
pub open spec fn context_pairs(args: Seq<String>) -> Result<Seq<(Seq<char>, JsonModel)>, Seq<char>>
    decreases args.len(),
{
    if args.len() == 0 {
        Ok(Seq::empty())
    } else {
        match context_pairs(args.drop_last()) {
            Err(m) => Err(m),
            Ok(ps) => match key_value(args.last()@) {
                Some((k, v)) => Ok(ps.push((k, JsonModel::Str(v)))),
                None => Err(key_value_message(args.last()@)),
            },
        }
    }
}

/// The (key, value) pairs of `--context-json` arguments (values parsed as
/// JSON), in order, or the message of the first bad one.
pub open spec fn json_pairs(args: Seq<String>) -> Result<Seq<(Seq<char>, JsonModel)>, Seq<char>>
    decreases args.len(),
{
    if args.len() == 0 {
        Ok(Seq::empty())
    } else {
        match json_pairs(args.drop_last()) {
            Err(m) => Err(m),
            Ok(ps) => match key_value(args.last()@) {
                Some((k, text)) => match json_parse(text) {
                    Ok(v) => Ok(ps.push((k, v))),
                    Err(e) => Err(
                        "Invalid JSON in --context-json for key '"@ + k + "': "@ + e + "\nValue: "@ + text,
                    ),
                },
                None => Err(key_value_message(args.last()@)),
            },
        }
    }
}

/// The values given for a key, in order.
pub open spec fn values_of(pairs: Seq<(Seq<char>, JsonModel)>, k: Seq<char>) -> Seq<JsonModel>
    decreases pairs.len(),
{
    if pairs.len() == 0 {
        Seq::empty()
    } else {
        values_of(pairs.drop_last(), k) + if pairs.last().0 == k {
            seq![pairs.last().1]
        } else {
            Seq::empty()
        }
    }
}

/// Is the key given at all?
pub open spec fn has_key(pairs: Seq<(Seq<char>, JsonModel)>, k: Seq<char>) -> bool {
    exists|i: int| 0 <= i < pairs.len() && (#[trigger] pairs[i]).0 == k
}

/// The value of a key: its only value, or an array of all its values.
pub open spec fn grouped_value(pairs: Seq<(Seq<char>, JsonModel)>, k: Seq<char>) -> JsonModel {
    if values_of(pairs, k).len() == 1 {
        values_of(pairs, k)[0]
    } else {
        JsonModel::Array(values_of(pairs, k))
    }
}

/// The context that the pairs give.
pub open spec fn grouped(pairs: Seq<(Seq<char>, JsonModel)>) -> Map<Seq<char>, JsonModel> {
    Map::new(|k: Seq<char>| has_key(pairs, k), |k: Seq<char>| grouped_value(pairs, k))
}

/// What the context arguments give: the `--context` pairs then the
/// `--context-json` pairs, grouped by key.
pub open spec fn parsed_context(context_args: Seq<String>, json_args: Seq<String>) -> Result<
    Map<Seq<char>, JsonModel>,
    Seq<char>,
> {
    match context_pairs(context_args) {
        Err(m) => Err(m),
        Ok(a) => match json_pairs(json_args) {
            Err(m) => Err(m),
            Ok(b) => Ok(grouped(a + b)),
        },
    }
}

/// The values given for a key, copied.
fn collect_values(pairs: &Vec<(String, JsonValue)>, key: &str) -> (r: Vec<JsonValue>)
    ensures
        models(r@) == values_of(member_models(pairs@), key@),
{
    let mut out: Vec<JsonValue> = Vec::new();
    let mut j: usize = 0;
    while j < pairs.len()
        invariant
            j <= pairs.len(),
            models(out@) == values_of(member_models(pairs@.take(j as int)), key@),
        decreases pairs.len() - j,
    {
        proof {
            assert(pairs@.take(j as int + 1).drop_last() =~= pairs@.take(j as int));
            let mm = member_models(pairs@.take(j as int + 1));
            assert(mm.drop_last() =~= member_models(pairs@.take(j as int)));
        }
        let ghost before = out@;
        if str_eq(pairs[j].0.as_str(), key) {
            let v = pairs[j].1.clone_value();
            out.push(v);
            assert(out@.drop_last() =~= before);
        }
        proof {
            let mm = member_models(pairs@.take(j as int + 1));
            assert(models(out@) =~= values_of(mm, key@));
        }
        j = j + 1;
    }
    assert(pairs@.take(j as int) =~= pairs@);
    out
}

proof fn lemma_member_models_len(s: Seq<(String, JsonValue)>)
    ensures
        member_models(s).len() == s.len(),
        forall|i: int| 0 <= i < s.len() ==> (#[trigger] member_models(s)[i]).0 == s[i].0@,
    decreases s.len(),
{
    if s.len() > 0 {
        lemma_member_models_len(s.drop_last());
        assert forall|i: int| 0 <= i < s.len() implies (#[trigger] member_models(s)[i]).0 == s[i].0@ by {
            if i < s.len() - 1 {
                assert(member_models(s)[i] == member_models(s.drop_last())[i]);
            }
        }
    }
}

/// Group the pairs by key.
fn group_pairs(pairs: &Vec<(String, JsonValue)>) -> (r: ContextValues)
    ensures
        r@ == grouped(member_models(pairs@)),
{
    let ghost ms = member_models(pairs@);
    proof {
        lemma_member_models_len(pairs@);
    }
    let mut result = ContextValues::new();
    let mut i: usize = 0;
    while i < pairs.len()
        invariant
            i <= pairs.len(),
            ms == member_models(pairs@),
            ms.len() == pairs@.len(),
            forall|q: int| 0 <= q < pairs@.len() ==> (#[trigger] ms[q]).0 == pairs@[q].0@,
            result@ == Map::new(
                |k: Seq<char>| has_key(ms.take(i as int), k),
                |k: Seq<char>| grouped_value(ms, k),
            ),
        decreases pairs.len() - i,
    {
        let key = &pairs[i].0;
        let mut seen = false;
        let mut j: usize = 0;
        while j < i
            invariant
                j <= i,
                i < pairs.len(),
                forall|q: int| 0 <= q < pairs@.len() ==> (#[trigger] ms[q]).0 == pairs@[q].0@,
                ms.len() == pairs@.len(),
                seen == exists|q: int| 0 <= q < j && (#[trigger] ms[q]).0 == key@,
            decreases i - j,
        {
            assert(ms[j as int].0 == pairs@[j as int].0@);
            if str_eq(pairs[j].0.as_str(), key.as_str()) {
                seen = true;
            }
            j = j + 1;
        }
        let ghost before = result@;
        if !seen {
            let vals = collect_values(pairs, key.as_str());
            proof {
                lemma_models_len(vals@);
            }
            let value = if vals.len() == 1 {
                proof {
                    lemma_models_one(vals@);
                }
                vals[0].clone_value()
            } else {
                JsonValue::Array(vals)
            };
            assert(value@ == grouped_value(ms, key@));
            result.insert(key.clone(), value);
        }
        proof {
            assert(ms.take(i as int + 1)[i as int].0 == key@);
            assert forall|k: Seq<char>| has_key(ms.take(i as int + 1), k) == (has_key(ms.take(i as int), k) || k == key@) by {
                if has_key(ms.take(i as int + 1), k) {
                    let q = choose|q: int| 0 <= q < i + 1 && (#[trigger] ms.take(i as int + 1)[q]).0 == k;
                    if q < i {
                        assert(ms.take(i as int)[q] == ms.take(i as int + 1)[q]);
                    }
                }
                if has_key(ms.take(i as int), k) {
                    let q = choose|q: int| 0 <= q < i && (#[trigger] ms.take(i as int)[q]).0 == k;
                    assert(ms.take(i as int + 1)[q] == ms.take(i as int)[q]);
                }
            }
            if seen {
                let q = choose|q: int| 0 <= q < i && (#[trigger] ms[q]).0 == key@;
                assert(ms.take(i as int)[q] == ms[q]);
                assert(has_key(ms.take(i as int), key@));
            }
            assert(result@ =~= Map::new(
                |k: Seq<char>| has_key(ms.take(i as int + 1), k),
                |k: Seq<char>| grouped_value(ms, k),
            ));
        }
        i = i + 1;
    }
    assert(ms.take(i as int) =~= ms);
    assert(result@ =~= grouped(ms));
    result
}

proof fn lemma_models_one(v: Seq<JsonValue>)
    requires
        v.len() == 1,
    ensures
        models(v).len() == 1,
        models(v)[0] == v[0]@,
{
    reveal_with_fuel(models, 2);
    assert(v.drop_last() =~= Seq::<JsonValue>::empty());
    assert(models(v.drop_last()) =~= Seq::<JsonModel>::empty());
}

/// Parse the `--context` and `--context-json` arguments: each is split at
/// its first `=`; several values for one key make an array.
pub fn parse_context_args(context_args: &[String], context_json_args: &[String]) -> (r: Result<
    ContextValues,
    GraftError,
>)
    ensures
        match parsed_context(context_args@, context_json_args@) {
            Ok(m) => r matches Ok(c) && c@ == m,
            Err(msg) => r matches Err(e) && e.is(ErrorKind::Other, msg),
        },
{
    let mut pairs: Vec<(String, JsonValue)> = Vec::new();
    let mut i: usize = 0;
    while i < context_args.len()
        invariant
            i <= context_args.len(),
            context_pairs(context_args@.take(i as int)) == Ok::<Seq<(Seq<char>, JsonModel)>, Seq<char>>(
                member_models(pairs@),
            ),
        decreases context_args.len() - i,
    {
        assert(context_args@.take(i as int + 1).drop_last() =~= context_args@.take(i as int));
        assert(context_args@.take(i as int + 1).last() == context_args@[i as int]);
        let (key, value) = match parse_key_value(context_args[i].as_str()) {
            Ok(p) => p,
            Err(e) => {
                proof {
                    lemma_context_pairs_err(context_args@, i as int);
                }
                return Err(e);
            },
        };
        assert(key_value(context_args@[i as int]@) == Some((key@, value@)));
        let ghost before = pairs@;
        let ghost kv = key@;
        let ghost vv = value@;
        pairs.push((key, JsonValue::String(value)));
        assert(pairs@.drop_last() =~= before);
        assert(pairs@.last().1@ == JsonModel::Str(vv));
        assert(member_models(pairs@) == member_models(before).push((kv, JsonModel::Str(vv))));
        i = i + 1;
    }
    assert(context_args@.take(i as int) =~= context_args@);
    let ghost a = member_models(pairs@);
    let ghost na = pairs@.len();
    proof {
        lemma_member_models_len(pairs@);
        assert(pairs@.take(na as int) =~= pairs@);
        assert(member_models(pairs@).skip(na as int) =~= Seq::<(Seq<char>, JsonModel)>::empty());
        assert(context_json_args@.take(0) =~= Seq::<String>::empty());
    }
    let mut k: usize = 0;
    while k < context_json_args.len()
        invariant
            k <= context_json_args.len(),
            context_pairs(context_args@) == Ok::<Seq<(Seq<char>, JsonModel)>, Seq<char>>(a),
            na <= pairs@.len(),
            a == member_models(pairs@.take(na as int)),
            json_pairs(context_json_args@.take(k as int)) == Ok::<Seq<(Seq<char>, JsonModel)>, Seq<char>>(
                member_models(pairs@).skip(na as int),
            ),
        decreases context_json_args.len() - k,
    {
        assert(context_json_args@.take(k as int + 1).drop_last() =~= context_json_args@.take(k as int));
        assert(context_json_args@.take(k as int + 1).last() == context_json_args@[k as int]);
        let (key, text) = match parse_key_value(context_json_args[k].as_str()) {
            Ok(p) => p,
            Err(e) => {
                proof {
                    lemma_json_pairs_err(context_json_args@, k as int);
                }
                return Err(e);
            },
        };
        let value = match parse_json(text.as_str()) {
            Ok(v) => v,
            Err(err) => {
                let mut m = owned("Invalid JSON in --context-json for key '");
                m.append(key.as_str());
                m.append("': ");
                m.append(err.as_str());
                m.append("\nValue: ");
                m.append(text.as_str());
                proof {
                    lemma_json_pairs_err(context_json_args@, k as int);
                }
                return Err(GraftError::other(m));
            },
        };
        let ghost before = pairs@;
        pairs.push((key, value));
        proof {
            assert(pairs@.drop_last() =~= before);
            lemma_member_models_len(before);
            assert(pairs@.take(na as int) =~= before.take(na as int));
            assert(member_models(pairs@).skip(na as int) =~= member_models(before).skip(na as int).push(
                (key@, value@),
            ));
        }
        k = k + 1;
    }
    assert(context_json_args@.take(k as int) =~= context_json_args@);
    proof {
        lemma_member_models_split(pairs@, na as int);
    }
    Ok(group_pairs(&pairs))
}

/// The first malformed argument decides the outcome.
proof fn lemma_context_pairs_err(args: Seq<String>, i: int)
    requires
        0 <= i < args.len(),
        context_pairs(args.take(i + 1)) is Err,
    ensures
        context_pairs(args) == context_pairs(args.take(i + 1)),
    decreases args.len() - i,
{
    if i + 1 < args.len() {
        assert(args.take(i + 2).drop_last() =~= args.take(i + 1));
        lemma_context_pairs_err(args, i + 1);
    } else {
        assert(args.take(i + 1) =~= args);
    }
}

/// The first bad JSON argument decides the outcome.
proof fn lemma_json_pairs_err(args: Seq<String>, i: int)
    requires
        0 <= i < args.len(),
        json_pairs(args.take(i + 1)) is Err,
    ensures
        json_pairs(args) == json_pairs(args.take(i + 1)),
    decreases args.len() - i,
{
    if i + 1 < args.len() {
        assert(args.take(i + 2).drop_last() =~= args.take(i + 1));
        lemma_json_pairs_err(args, i + 1);
    } else {
        assert(args.take(i + 1) =~= args);
    }
}

proof fn lemma_member_models_split(s: Seq<(String, JsonValue)>, n: int)
    requires
        0 <= n <= s.len(),
    ensures
        member_models(s) == member_models(s.take(n)) + member_models(s).skip(n),
        member_models(s).len() == s.len(),
    decreases s.len(),
{
    lemma_member_models_len(s);
    if s.len() > n {
        lemma_member_models_split(s.drop_last(), n);
        assert(s.drop_last().take(n) =~= s.take(n));
    } else {
        assert(s.take(n) =~= s);
    }
    assert(member_models(s) =~= member_models(s.take(n)) + member_models(s).skip(n));
}


/// Copies of strings.
pub fn clone_strings(v: &Vec<String>) -> (r: Vec<String>)
    ensures
        r@ == v@,
{
    let mut out: Vec<String> = Vec::new();
    let mut i: usize = 0;
    while i < v.len()
        invariant
            i <= v.len(),
            out@ == v@.take(i as int),
        decreases v.len() - i,
    {
        out.push(v[i].clone());
        assert(out@ =~= v@.take(i as int + 1));
        i = i + 1;
    }
    assert(v@.take(i as int) =~= v@);
    out
}

impl PullConfig {
    /// A copy of this pull.
    pub fn clone_pull(&self) -> (r: PullConfig)
        ensures
            r.source == self.source,
            r.target == self.target,
            r.pull_type == self.pull_type,
            r.repository == self.repository,
            r.tag == self.tag,
            r.reset == self.reset,
            r.require_clean_target == self.require_clean_target,
            r.must_succeed == self.must_succeed,
            r.commands@ == self.commands@,
            r.replacements@.len() == self.replacements@.len(),
            forall|i: int| 0 <= i < r.replacements@.len() ==> {
                &&& (#[trigger] r.replacements@[i]).source@ == self.replacements@[i].source@
                &&& opt_view(r.replacements@[i].target) == opt_view(self.replacements@[i].target)
                &&& opt_view(r.replacements@[i].value_from_env) == opt_view(self.replacements@[i].value_from_env)
            },
            r.context@ == self.context@,
    {
        let mut reps: Vec<ReplacementConfig> = Vec::new();
        let mut i: usize = 0;
        while i < self.replacements.len()
            invariant
                i <= self.replacements.len(),
                reps@.len() == i,
                forall|k: int| 0 <= k < i ==> {
                    &&& (#[trigger] reps@[k]).source@ == self.replacements@[k].source@
                    &&& opt_view(reps@[k].target) == opt_view(self.replacements@[k].target)
                    &&& opt_view(reps@[k].value_from_env) == opt_view(self.replacements@[k].value_from_env)
                },
            decreases self.replacements.len() - i,
        {
            reps.push(self.replacements[i].clone_replacement());
            i = i + 1;
        }
        PullConfig {
            source: self.source.clone(),
            target: self.target.clone(),
            pull_type: self.pull_type.clone(),
            repository: match &self.repository {
                Some(s) => Some(s.clone()),
                None => None,
            },
            tag: match &self.tag {
                Some(s) => Some(s.clone()),
                None => None,
            },
            reset: self.reset,
            require_clean_target: self.require_clean_target,
            must_succeed: self.must_succeed,
            commands: clone_strings(&self.commands),
            replacements: reps,
            context: self.context.clone_values(),
        }
    }
}

impl Args {
    /// Parse the context arguments (`--context` then `--context-json`).
    pub fn parse_context(&self) -> (r: Result<ContextValues, GraftError>)
        ensures
            match parsed_context(self.context@, self.context_json@) {
                Ok(m) => r matches Ok(c) && c@ == m,
                Err(msg) => r matches Err(e) && e.is(ErrorKind::Other, msg),
            },
    {
        parse_context_args(self.context.as_slice(), self.context_json.as_slice())
    }
}

} // verus!
