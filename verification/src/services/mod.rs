//! The registry of relying parties ("services") and its authentication rules.
pub mod client;
pub mod registry;
pub mod service;
