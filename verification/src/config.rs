//! Configuration: the context that grafts are filled with, `.graft.yaml`
//! files, and the checks run on a loaded configuration.

pub mod context;
pub mod graft_yaml;
pub mod validation;
pub mod yaml;

use vstd::prelude::*;
use crate::cli::args::{clone_strings, PullConfig};
use crate::config::context::ContextValues;
use crate::config::graft_yaml::GraftConfig;
use crate::error::{ErrorKind, GraftError};
use crate::system::System;

verus! {

/// Main configuration structure.
#[derive(Debug)]
pub struct Config {
    /// Global repository URL or account/repo format.
    pub repository: Option<String>,
    /// Global Git reference (branch, tag, or commit).
    pub tag: Option<String>,
    /// Global context values.
    pub context: ContextValues,
    /// List of pull operations.
    pub pulls: Vec<PullConfig>,
    /// Paths to child tixgraft.yaml files to execute.
    pub children: Vec<String>,
    /// If true, execute children before parent pulls (default: false).
    pub process_children_first: bool,
}


/// Reads the text forms of configuration files. The program implements it
/// with a YAML parser; it promises nothing of what comes back.
pub trait ConfigParser {
    /// Read a `tixgraft.yaml` text; an error is its message.
    fn parse_config(&self, text: &str) -> Result<Config, String>;

    /// Read a `.graft.yaml` text; an error is its message.
    fn parse_graft_config(&self, text: &str) -> Result<GraftConfig, String>;
}

impl Config {
    /// An empty configuration: no repository, tag, context, pulls or children.
    pub fn empty() -> (r: Config)
        ensures
            r.repository is None,
            r.tag is None,
            r.context@ == Map::<Seq<char>, crate::json::JsonModel>::empty(),
            r.pulls@.len() == 0,
            r.children@.len() == 0,
            !r.process_children_first,
    {
        Config {
            repository: None,
            tag: None,
            context: ContextValues::new(),
            pulls: Vec::new(),
            children: Vec::new(),
            process_children_first: false,
        }
    }

    /// A copy of this configuration.
    pub fn clone_config(&self) -> (r: Config)
        ensures
            r.repository == self.repository,
            r.tag == self.tag,
            r.context@ == self.context@,
            r.pulls@.len() == self.pulls@.len(),
            r.children@ == self.children@,
            r.process_children_first == self.process_children_first,
    {
        let mut pulls: Vec<PullConfig> = Vec::new();
        let mut i: usize = 0;
        while i < self.pulls.len()
            invariant
                i <= self.pulls.len(),
                pulls@.len() == i,
            decreases self.pulls.len() - i,
        {
            pulls.push(self.pulls[i].clone_pull());
            i = i + 1;
        }
        Config {
            repository: match &self.repository {
                Some(s) => Some(s.clone()),
                None => None,
            },
            tag: match &self.tag {
                Some(s) => Some(s.clone()),
                None => None,
            },
            context: self.context.clone_values(),
            pulls,
            children: clone_strings(&self.children),
            process_children_first: self.process_children_first,
        }
    }

    /// Load a configuration from a file.
    pub fn load_from_file<S: System, C: ConfigParser>(system: &S, parser: &C, path: &str) -> (r: Result<
        Config,
        GraftError,
    >)
        ensures
            r matches Ok(c) ==> forall|i: int|
                0 <= i < c.pulls.len() ==> crate::config::validation::pull_statically_valid(
                    #[trigger] c.pulls@[i],
                    i as nat,
                ),
    {
        crate::config::yaml::load_config(system, parser, path)
    }

    /// Validate the configuration.
    pub fn validate<S: System>(&self, system: &S) -> (r: Result<(), GraftError>)
        ensures
            self.repository is Some && crate::config::validation::url_check(self.repository->Some_0@) is Err
                ==> (r matches Err(e) && e.is(
                ErrorKind::Other,
                crate::config::validation::url_check(self.repository->Some_0@)->Err_0,
            )),
            (self.repository is Some ==> crate::config::validation::url_check(self.repository->Some_0@) is Ok)
                && self.pulls.len() == 0 && self.children.len() == 0 ==> (r matches Err(e) && e.is(
                ErrorKind::Other,
                crate::config::validation::nothing_to_do_message(),
            )),
            r is Ok ==> forall|i: int|
                0 <= i < self.children.len() ==> crate::config::validation::child_path_error(
                    #[trigger] self.children@[i]@,
                    i as nat,
                ) is None,
            r is Ok ==> forall|i: int|
                0 <= i < self.pulls.len() ==> crate::config::validation::pull_statically_valid(
                    #[trigger] self.pulls@[i],
                    i as nat,
                ),
    {
        crate::config::validation::validate_config(system, self)
    }
}

} // verus!
