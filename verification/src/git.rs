//! Git operations: repository sources, URL handling and version checks.

pub mod repository;
pub mod sparse_checkout;
