//! Feature capabilities and the catalog that bundles them.

pub mod catalog;
pub mod common;
pub mod minimal;
