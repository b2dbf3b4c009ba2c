//! The operations that a pull performs, and the conversions of a
//! configuration into other forms.

pub mod commands;
pub mod copy;
pub mod discovery;
pub mod post_commands;
pub mod pull;
pub mod replace;
pub mod skill;
pub mod to_command_line;
