//! Configuration of the reader.
use vstd::prelude::*;

verus! {

/// Options of the parser. There are none yet.
#[derive(Debug, Clone, Copy, PartialEq, Eq)]
pub struct ParserConfig;

impl ParserConfig {
    /// The default configuration.
    pub fn new() -> (r: Self)
        ensures
            r == ParserConfig,
    {
        ParserConfig
    }
}

impl Default for ParserConfig {
    fn default() -> (r: Self)
        ensures
            r == ParserConfig,
    {
        ParserConfig
    }
}

} // verus!
