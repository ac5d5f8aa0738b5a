//! The client registry and its authentication rules.
pub mod registry;
