//! The name of a YAML configuration file to load. Reading and decoding
//! the file is outside this core; this type only carries the path.
use vstd::prelude::*;

verus! {

pub struct YamlConfigLoader {
    file: String,
}

impl YamlConfigLoader {
    pub fn new(p_config_file: String) -> (r: YamlConfigLoader)
        ensures
            r@ == p_config_file@,
    {
        YamlConfigLoader { file: p_config_file }
    }

    /// The path this loader reads from.
    pub fn file(&self) -> (r: &String)
        ensures
            r@ == self@,
    {
        &self.file
    }
}

impl View for YamlConfigLoader {
    type V = Seq<char>;

    closed spec fn view(&self) -> Seq<char> {
        self.file@
    }
}

} // verus!
