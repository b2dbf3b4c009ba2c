//! Loading a configuration file.

use vstd::prelude::*;
use crate::config::{Config, ConfigParser};
use crate::config::validation::{pull_statically_valid, validate_config_with_base_dir};
use crate::error::{ErrorKind, GraftError};
use crate::path::path_parent;
use crate::system::System;
use crate::text::owned;

verus! {

/// Load and check a configuration file: it must exist, read, parse, and
/// pass validation (children resolved against the file's directory).
pub fn load_config<S: System, C: ConfigParser>(system: &S, parser: &C, path: &str) -> (r: Result<
    Config,
    GraftError,
>)
    ensures
        r matches Ok(c) ==> forall|i: int|
            0 <= i < c.pulls.len() ==> pull_statically_valid(#[trigger] c.pulls@[i], i as nat),
{
    let exists = match system.path_exists(path) {
        Ok(b) => b,
        Err(_) => false,
    };
    if !exists {
        let mut m = owned("Configuration file not found: ");
        m.append(path);
        m.append("\nCreate a tixgraft.yaml file or specify a different path with --config");
        return Err(GraftError::other(m));
    }
    let content = match system.read_to_string(path) {
        Ok(c) => c,
        Err(e) => {
            let mut m = owned("Failed to read configuration file: ");
            m.append(path);
            m.append(": ");
            m.append(e.message.as_str());
            return Err(GraftError::other(m));
        },
    };
    let config = match parser.parse_config(content.as_str()) {
        Ok(c) => c,
        Err(detail) => {
            let mut m = owned("Failed to parse YAML configuration in file: ");
            m.append(path);
            m.append("\nPlease check the syntax and structure of your configuration file: ");
            m.append(detail.as_str());
            return Err(GraftError::other(m));
        },
    };
    let base = path_parent(path);
    let base_dir: Option<&str> = match &base {
        Some(b) => Some(b.as_str()),
        None => None,
    };
    validate_config_with_base_dir(system, &config, base_dir)?;
    Ok(config)
}

} // verus!
