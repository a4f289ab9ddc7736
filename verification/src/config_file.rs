//! The settings that a configuration file can give to the tree layout flags.

use vstd::prelude::*;

verus! {

/// Values read from a configuration file; `None` where the file is silent.
pub struct Config {
    pub max_shown: Option<i64>,
    pub tree_columns: Option<bool>,
}

impl Config {
    /// A configuration that sets nothing.
    pub fn with_none() -> (c: Config)
        ensures
            c.max_shown is None,
            c.tree_columns is None,
    {
        Config { max_shown: None, tree_columns: None }
    }
}

} // verus!
