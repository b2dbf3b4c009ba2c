//! Command-line interface: the arguments the program takes and the pull
//! configurations they describe.

pub mod args;

pub use args::{Args, PullArgs, PullConfig, ReplacementConfig, SkillArgs};
