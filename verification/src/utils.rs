//! Path and filesystem utilities.

pub mod fs;
pub mod path;
