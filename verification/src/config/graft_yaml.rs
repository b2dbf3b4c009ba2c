//! `.graft.yaml` files: the context a graft needs, its replacements and the
//! commands run after them.
//!
//! The program reads the YAML text into these types; this module checks a
//! loaded file and reads the post-command form that the file format allows.

use vstd::prelude::*;
use crate::cli::args::{clone_opt, opt_view};
use crate::config::context::{ContextDataType, ContextPropertyDefinition};
use crate::error::{ErrorKind, GraftError};
use crate::json::{json_debug, to_debug_text, JsonModel, JsonValue};
use crate::system::System;
use crate::text::{owned, str_eq, string_views};

verus! {

/// Complete `.graft.yaml` configuration.
#[derive(Debug)]
pub struct GraftConfig {
    /// Context property definitions.
    pub context: Vec<ContextPropertyDefinition>,
    /// Post-commands to execute after replacements.
    pub post_commands: Vec<PostCommand>,
    /// Text replacements.
    pub replacements: Vec<GraftReplacement>,
}

/// Replacement configuration in `.graft.yaml`.
#[derive(Debug)]
pub struct GraftReplacement {
    /// Source pattern to search for.
    pub source: String,
    /// Static replacement value.
    pub target: Option<String>,
    /// Context property to get value from.
    pub value_from_context: Option<String>,
    /// Environment variable to get value from.
    pub value_from_env: Option<String>,
}

impl GraftReplacement {
    /// A replacement from its parts.
    pub fn new(
        source: String,
        target: Option<String>,
        value_from_env: Option<String>,
        value_from_context: Option<String>,
    ) -> (r: Self)
        ensures
            r.source == source,
            r.target == target,
            r.value_from_env == value_from_env,
            r.value_from_context == value_from_context,
    {
        GraftReplacement { source, target, value_from_context, value_from_env }
    }
}

/// Post-command configuration.
#[derive(Debug)]
pub enum PostCommand {
    /// Conditional choice based on test command.
    Choice { options: Vec<ChoiceOption> },
    /// Simple command execution.
    Command { command: String, args: Vec<String>, cwd: Option<String> },
}

impl PostCommand {
    /// A simple command.
    pub fn new(command: String, args: Vec<String>, cwd: Option<String>) -> (r: Self)
        ensures
            r == (PostCommand::Command { command, args, cwd }),
    {
        PostCommand::Command { command, args, cwd }
    }

    /// The empty command (what a post-command is when nothing is given).
    pub fn default_command() -> (r: Self)
        ensures
            r matches PostCommand::Command { command, args, cwd } && command@.len() == 0
                && args@.len() == 0 && cwd is None,
    {
        PostCommand::Command { command: String::new(), args: Vec::new(), cwd: None }
    }
}

/// Choice option for conditional execution.
#[derive(Debug)]
pub struct ChoiceOption {
    /// Expected output pattern to match.
    pub expected_output: String,
    /// Command to execute if match succeeds.
    pub on_match: Box<PostCommand>,
    /// Test command to run.
    pub test: TestCommand,
}

impl ChoiceOption {
    /// An option from its parts.
    pub fn new(test: TestCommand, expected_output: String, on_match: Box<PostCommand>) -> (r: Self)
        ensures
            r.test == test,
            r.expected_output == expected_output,
            r.on_match == on_match,
    {
        ChoiceOption { expected_output, on_match, test }
    }
}

/// Test command for conditional execution.
#[derive(Debug)]
pub struct TestCommand {
    pub args: Vec<String>,
    pub command: String,
    pub cwd: Option<String>,
}

impl TestCommand {
    /// A test command from its parts.
    pub fn new(command: String, args: Vec<String>, cwd: Option<String>) -> (r: Self)
        ensures
            r.command == command,
            r.args == args,
            r.cwd == cwd,
    {
        TestCommand { args, command, cwd }
    }
}

/// The `Debug` name of a data type.
pub open spec fn data_type_debug(t: ContextDataType) -> Seq<char> {
    match t {
        ContextDataType::Array => "Array"@,
        ContextDataType::Boolean => "Boolean"@,
        ContextDataType::Number => "Number"@,
        ContextDataType::String => "String"@,
    }
}

fn data_type_debug_text(t: ContextDataType) -> (r: &'static str)
    ensures
        r@ == data_type_debug(t),
{
    match t {
        ContextDataType::Array => "Array",
        ContextDataType::Boolean => "Boolean",
        ContextDataType::Number => "Number",
        ContextDataType::String => "String",
    }
}

/// Does a value have the kind of a data type?
pub open spec fn has_type(v: JsonModel, t: ContextDataType) -> bool {
    match t {
        ContextDataType::String => v is Str,
        ContextDataType::Number => v is Number,
        ContextDataType::Boolean => v is Bool,
        ContextDataType::Array => v is Array,
    }
}

/// The message of a default value of the wrong type.
pub open spec fn wrong_type_message(name: Seq<char>, v: JsonModel, t: ContextDataType) -> Seq<char> {
    "Default value for property '"@ + name + "' has wrong type (expected "@ + data_type_debug(t)
        + ", got "@ + json_debug(v) + ")"@
}

/// Validate that a value matches the expected data type.
pub fn validate_value_type(name: &str, value: &JsonValue, expected_type: ContextDataType) -> (r: Result<
    (),
    GraftError,
>)
    ensures
        has_type(value@, expected_type) ==> r is Ok,
        !has_type(value@, expected_type) ==> (r matches Err(e) && e.is(
            ErrorKind::Configuration,
            wrong_type_message(name@, value@, expected_type),
        )),
{
    let matches = match expected_type {
        ContextDataType::String => value.is_string(),
        ContextDataType::Number => value.is_number(),
        ContextDataType::Boolean => value.is_boolean(),
        ContextDataType::Array => value.is_array(),
    };
    if !matches {
        let mut m = owned("Default value for property '");
        m.append(name);
        m.append("' has wrong type (expected ");
        m.append(data_type_debug_text(expected_type));
        m.append(", got ");
        m.append(to_debug_text(value).as_str());
        m.append(")");
        return Err(GraftError::configuration(m));
    }
    Ok(())
}

/// What is wrong with a context definition, if anything.
pub open spec fn definition_error(d: ContextPropertyDefinition) -> Option<Seq<char>> {
    if d.name@.len() == 0 {
        Some("Context property name cannot be empty"@)
    } else if d.description@.len() == 0 {
        Some("Context property '"@ + d.name@ + "' must have a description"@)
    } else {
        match d.default_value {
            Some(v) => if has_type(v@, d.data_type) {
                None
            } else {
                Some(wrong_type_message(d.name@, v@, d.data_type))
            },
            None => None,
        }
    }
}

/// How many of a replacement's value sources are set.
pub open spec fn source_count(r: GraftReplacement) -> nat {
    (if r.target is Some { 1nat } else { 0nat }) + (if r.value_from_env is Some { 1nat } else { 0nat })
        + (if r.value_from_context is Some { 1nat } else { 0nat })
}

/// What is wrong with a replacement, if anything.
pub open spec fn replacement_error(r: GraftReplacement) -> Option<Seq<char>> {
    if source_count(r) != 1 {
        Some("Replacement for '"@ + r.source@
            + "' must specify exactly one of: target, valueFromEnv, or valueFromContext"@)
    } else {
        None
    }
}

/// The first definition error, in order.
pub open spec fn first_definition_error(defs: Seq<ContextPropertyDefinition>) -> Option<Seq<char>>
    decreases defs.len(),
{
    if defs.len() == 0 {
        None
    } else {
        match first_definition_error(defs.drop_last()) {
            Some(e) => Some(e),
            None => definition_error(defs.last()),
        }
    }
}

/// The first replacement error, in order.
pub open spec fn first_replacement_error(reps: Seq<GraftReplacement>) -> Option<Seq<char>>
    decreases reps.len(),
{
    if reps.len() == 0 {
        None
    } else {
        match first_replacement_error(reps.drop_last()) {
            Some(e) => Some(e),
            None => replacement_error(reps.last()),
        }
    }
}

/// What is wrong with a `.graft.yaml` configuration: definitions are checked
/// before replacements.
pub open spec fn graft_config_error(c: GraftConfig) -> Option<Seq<char>> {
    match first_definition_error(c.context@) {
        Some(e) => Some(e),
        None => first_replacement_error(c.replacements@),
    }
}

proof fn lemma_first_definition_error(s: Seq<ContextPropertyDefinition>, i: int, k: int)
    requires
        0 <= i < k <= s.len(),
        first_definition_error(s.take(i)) is None,
        definition_error(s[i]) is Some,
    ensures
        first_definition_error(s.take(k)) == definition_error(s[i]),
    decreases k - i,
{
    assert(s.take(k).drop_last() =~= s.take(k - 1));
    if k > i + 1 {
        lemma_first_definition_error(s, i, k - 1);
    }
}

proof fn lemma_first_replacement_error(s: Seq<GraftReplacement>, i: int, k: int)
    requires
        0 <= i < k <= s.len(),
        first_replacement_error(s.take(i)) is None,
        replacement_error(s[i]) is Some,
    ensures
        first_replacement_error(s.take(k)) == replacement_error(s[i]),
    decreases k - i,
{
    assert(s.take(k).drop_last() =~= s.take(k - 1));
    if k > i + 1 {
        lemma_first_replacement_error(s, i, k - 1);
    }
}

impl GraftConfig {
    /// No definitions, post-commands or replacements.
    pub fn empty() -> (r: Self)
        ensures
            r.context@.len() == 0,
            r.post_commands@.len() == 0,
            r.replacements@.len() == 0,
    {
        GraftConfig { context: Vec::new(), post_commands: Vec::new(), replacements: Vec::new() }
    }

    /// Validate the `.graft.yaml` configuration.
    pub fn validate(&self) -> (r: Result<(), GraftError>)
        ensures
            match graft_config_error(*self) {
                None => r is Ok,
                Some(m) => r matches Err(e) && e.is(ErrorKind::Configuration, m),
            },
    {
        let mut i: usize = 0;
        while i < self.context.len()
            invariant
                i <= self.context.len(),
                first_definition_error(self.context@.take(i as int)) is None,
            decreases self.context.len() - i,
        {
            let def = &self.context[i];
            proof {
                assert(self.context@.take(i as int + 1).drop_last() =~= self.context@.take(i as int));
            }
            proof {
                if definition_error(*def) is Some {
                    lemma_first_definition_error(self.context@, i as int, self.context.len() as int);
                    assert(self.context@.take(self.context.len() as int) =~= self.context@);
                }
            }
            if def.name.as_str().is_empty() {
                return Err(GraftError::configuration(owned("Context property name cannot be empty")));
            }
            if def.description.as_str().is_empty() {
                let mut m = owned("Context property '");
                m.append(def.name.as_str());
                m.append("' must have a description");
                return Err(GraftError::configuration(m));
            }
            if let Some(dv) = &def.default_value {
                validate_value_type(def.name.as_str(), dv, def.data_type)?;
            }
            i = i + 1;
        }
        assert(self.context@.take(i as int) =~= self.context@);
        let mut j: usize = 0;
        while j < self.replacements.len()
            invariant
                j <= self.replacements.len(),
                first_definition_error(self.context@) is None,
                first_replacement_error(self.replacements@.take(j as int)) is None,
            decreases self.replacements.len() - j,
        {
            let rep = &self.replacements[j];
            proof {
                assert(self.replacements@.take(j as int + 1).drop_last() =~= self.replacements@.take(j as int));
            }
            proof {
                if replacement_error(*rep) is Some {
                    lemma_first_replacement_error(self.replacements@, j as int, self.replacements.len() as int);
                    assert(self.replacements@.take(self.replacements.len() as int) =~= self.replacements@);
                }
            }
            let count: u8 = (if rep.target.is_some() { 1u8 } else { 0u8 }) + (if rep.value_from_env.is_some() {
                1u8
            } else {
                0u8
            }) + (if rep.value_from_context.is_some() { 1u8 } else { 0u8 });
            if count != 1 {
                let mut m = owned("Replacement for '");
                m.append(rep.source.as_str());
                m.append("' must specify exactly one of: target, valueFromEnv, or valueFromContext");
                return Err(GraftError::configuration(m));
            }
            j = j + 1;
        }
        assert(self.replacements@.take(j as int) =~= self.replacements@);
        Ok(())
    }
}

/// The message of a missing `.graft.yaml`.
pub open spec fn graft_not_found_message(path: Seq<char>) -> Seq<char> {
    ".graft.yaml not found: "@ + path
}

/// Read the text of a `.graft.yaml` file: a missing file is a configuration
/// error; a failure to look or to read is an uncategorised one.
pub fn read_graft_file<S: System>(system: &S, path: &str) -> (r: Result<String, GraftError>)
    ensures
        r matches Err(e) ==> e.is(ErrorKind::Configuration, graft_not_found_message(path@)) || (
        e.kind_of() == ErrorKind::Other),
{
    match system.path_exists(path) {
        Ok(true) => {},
        Ok(false) => {
            let mut m = owned(".graft.yaml not found: ");
            m.append(path);
            return Err(GraftError::configuration(m));
        },
        Err(e) => return Err(GraftError::other(e.message)),
    }
    match system.read_to_string(path) {
        Ok(text) => Ok(text),
        Err(e) => {
            let mut m = owned("Failed to read .graft.yaml file: ");
            m.append(path);
            m.append(": ");
            m.append(e.message.as_str());
            Err(GraftError::other(m))
        },
    }
}

/// The value of the last member with the key, when there is one.
pub open spec fn member(ms: Seq<(Seq<char>, JsonModel)>, key: Seq<char>) -> Option<JsonModel>
    decreases ms.len(),
{
    if ms.len() == 0 {
        None
    } else if ms.last().0 == key {
        Some(ms.last().1)
    } else {
        member(ms.drop_last(), key)
    }
}

/// A member of an object value, when it is an object with that member.
pub fn object_member<'a>(members: &'a Vec<(String, JsonValue)>, key: &str) -> (r: Option<&'a JsonValue>)
    ensures
        match member(crate::json::member_models(members@), key@) {
            Some(m) => r matches Some(v) && v@ == m,
            None => r is None,
        },
{
    let mut found: Option<usize> = None;
    let mut i: usize = 0;
    while i < members.len()
        invariant
            i <= members.len(),
            match member(crate::json::member_models(members@.take(i as int)), key@) {
                Some(m) => found matches Some(j) && j < i && members@[j as int].1@ == m,
                None => found is None,
            },
        decreases members.len() - i,
    {
        proof {
            assert(members@.take(i as int + 1).drop_last() =~= members@.take(i as int));
            let mm = crate::json::member_models(members@.take(i as int + 1));
            assert(mm.drop_last() =~= crate::json::member_models(members@.take(i as int)));
            assert(mm.last() == (members@[i as int].0@, members@[i as int].1@));
        }
        if str_eq(members[i].0.as_str(), key) {
            found = Some(i);
        }
        i = i + 1;
    }
    assert(members@.take(i as int) =~= members@);
    match found {
        Some(j) => Some(&members[j].1),
        None => None,
    }
}


/// A post-command as its JSON form gives it: a command with its arguments
/// and directory, or a choice whose options are still to be read.
#[derive(Debug)]
pub enum PostCommandForm {
    Command { command: String, args: Vec<String>, cwd: Option<String> },
    Choice { options: JsonValue },
}

/// The model of a post-command form.
pub enum FormModel {
    Command(Seq<char>, Seq<Seq<char>>, Option<Seq<char>>),
    Choice(JsonModel),
}

/// The model of a form.
pub open spec fn form_model(f: PostCommandForm) -> FormModel {
    match f {
        PostCommandForm::Command { command, args, cwd } => FormModel::Command(
            command@,
            string_views(args@),
            opt_view(cwd),
        ),
        PostCommandForm::Choice { options } => FormModel::Choice(options@),
    }
}

/// The strings among the items, in order (other items are skipped).
pub open spec fn string_items(items: Seq<JsonModel>) -> Seq<Seq<char>>
    decreases items.len(),
{
    if items.len() == 0 {
        Seq::empty()
    } else {
        string_items(items.drop_last()) + match items.last() {
            JsonModel::Str(s) => seq![s],
            _ => Seq::empty(),
        }
    }
}

/// A command read from an object's members: `command` must be a string;
/// `args` gives its string items when it is an array; `cwd` counts when it
/// is a string.
pub open spec fn command_form(ms: Seq<(Seq<char>, JsonModel)>) -> Result<FormModel, Seq<char>> {
    match member(ms, "command"@) {
        Some(JsonModel::Str(c)) => Ok(
            FormModel::Command(
                c,
                match member(ms, "args"@) {
                    Some(JsonModel::Array(items)) => string_items(items),
                    _ => Seq::empty(),
                },
                match member(ms, "cwd"@) {
                    Some(JsonModel::Str(d)) => Some(d),
                    _ => None,
                },
            ),
        ),
        _ => Err("Missing 'command' field"@),
    }
}

/// The form of a post-command value: an object whose `type` is `command`
/// or `choice`; without a `type` it is a command.
pub open spec fn post_command_form(v: JsonModel) -> Result<FormModel, Seq<char>> {
    match v {
        JsonModel::Object(ms) => match member(ms, "type"@) {
            Some(t) => match t {
                JsonModel::Str(ty) => if ty == "command"@ {
                    command_form(ms)
                } else if ty == "choice"@ {
                    match member(ms, "options"@) {
                        Some(o) => Ok(FormModel::Choice(o)),
                        None => Err("Missing 'options' field for choice type"@),
                    }
                } else {
                    Err("Unknown PostCommand type: "@ + ty)
                },
                _ => Err("'type' field must be a string"@),
            },
            None => command_form(ms),
        },
        _ => Err("Expected object"@),
    }
}

/// The string items of an array.
fn string_items_of(items: &Vec<JsonValue>) -> (r: Vec<String>)
    ensures
        string_views(r@) == string_items(crate::json::models(items@)),
{
    let mut out: Vec<String> = Vec::new();
    let mut i: usize = 0;
    while i < items.len()
        invariant
            i <= items.len(),
            string_views(out@) == string_items(crate::json::models(items@.take(i as int))),
        decreases items.len() - i,
    {
        let ghost before = out@;
        proof {
            assert(items@.take(i as int + 1).drop_last() =~= items@.take(i as int));
            let ms = crate::json::models(items@.take(i as int + 1));
            assert(ms.drop_last() =~= crate::json::models(items@.take(i as int)));
            assert(items@.take(i as int + 1).last() == items@[i as int]);
            assert(ms.last() == items@[i as int]@);
        }
        match &items[i] {
            JsonValue::String(s) => {
                out.push(s.clone());
                assert(string_views(out@) =~= string_views(before).push(s@));
            },
            _ => {},
        }
        proof {
            let ms = crate::json::models(items@.take(i as int + 1));
            assert(string_views(out@) =~= string_items(ms));
        }
        i = i + 1;
    }
    assert(items@.take(i as int) =~= items@);
    out
}

fn read_command_form(members: &Vec<(String, JsonValue)>) -> (r: Result<PostCommandForm, String>)
    ensures
        match command_form(crate::json::member_models(members@)) {
            Ok(f) => r matches Ok(g) && form_model(g) == f,
            Err(m) => r matches Err(e) && e@ == m,
        },
{
    let command = match object_member(members, "command") {
        Some(JsonValue::String(c)) => c.clone(),
        _ => return Err(owned("Missing 'command' field")),
    };
    let args = match object_member(members, "args") {
        Some(JsonValue::Array(items)) => string_items_of(items),
        _ => {
            let v: Vec<String> = Vec::new();
            assert(string_views(v@) =~= Seq::<Seq<char>>::empty());
            v
        },
    };
    let cwd = match object_member(members, "cwd") {
        Some(JsonValue::String(d)) => Some(d.clone()),
        _ => None,
    };
    Ok(PostCommandForm::Command { command, args, cwd })
}

/// Read the form of a post-command from its JSON value (a missing `type`
/// means a command).
pub fn read_post_command(value: &JsonValue) -> (r: Result<PostCommandForm, String>)
    ensures
        match post_command_form(value@) {
            Ok(f) => r matches Ok(g) && form_model(g) == f,
            Err(m) => r matches Err(e) && e@ == m,
        },
{
    let members = match value {
        JsonValue::Object(ms) => ms,
        _ => return Err(owned("Expected object")),
    };
    match object_member(members, "type") {
        Some(t) => match t {
            JsonValue::String(ty) => {
                if str_eq(ty.as_str(), "command") {
                    read_command_form(members)
                } else if str_eq(ty.as_str(), "choice") {
                    match object_member(members, "options") {
                        Some(o) => Ok(PostCommandForm::Choice { options: o.clone_value() }),
                        None => Err(owned("Missing 'options' field for choice type")),
                    }
                } else {
                    let mut m = owned("Unknown PostCommand type: ");
                    m.append(ty.as_str());
                    Err(m)
                }
            },
            _ => Err(owned("'type' field must be a string")),
        },
        None => read_command_form(members),
    }
}

} // verus!
