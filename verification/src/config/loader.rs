//! The common interface to configuration loaders. Reading a file is
//! the caller's collaborator concern; a loader hands back a `Config`
//! or a message saying why it could not.
use vstd::prelude::*;
use crate::config::data::Config;

verus! {

/// A source that the configuration can be loaded from.
pub trait ConfigLoader {
    /// Load the configuration; the error carries a diagnostic message.
    fn load(&self) -> Result<Config, String>;
}

} // verus!
