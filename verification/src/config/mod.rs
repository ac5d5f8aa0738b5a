//! The configuration data structure and loaders.
pub mod data;
pub mod default;
pub mod loader;
pub mod toml;
pub mod yaml;
