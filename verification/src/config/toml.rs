//! The name of a TOML configuration file to load. Reading and decoding
//! the file is outside this core; this type only carries the path.
use vstd::prelude::*;

verus! {

pub struct TomlConfigLoader {
    file: String,
}

impl TomlConfigLoader {
    pub fn new(p_config_file: String) -> (r: TomlConfigLoader)
        ensures
            r@ == p_config_file@,
    {
        TomlConfigLoader { file: p_config_file }
    }

    /// The path this loader reads from.
    pub fn file(&self) -> (r: &String)
        ensures
            r@ == self@,
    {
        &self.file
    }
}

impl View for TomlConfigLoader {
    type V = Seq<char>;

    closed spec fn view(&self) -> Seq<char> {
        self.file@
    }
}

} // verus!
