//! The `TreeColumns` flag: whether to pack top-level tree subtrees side by
//! side. It is set from the command line, else from the configuration file,
//! else false (see `configure_from`).

use vstd::prelude::*;
use crate::cli::Cli;
use crate::config_file::Config;

verus! {

/// Whether to pack top-level tree subtrees horizontally into terminal-width columns.
#[derive(Clone, Copy, Debug, PartialEq, Eq, Structural)]
pub struct TreeColumns(pub bool);

impl TreeColumns {
    /// `Some(TreeColumns(true))` if the flag was passed, otherwise `None`.
    pub fn from_cli(cli: &Cli) -> (r: Option<TreeColumns>)
        ensures
            r == (if cli.tree_columns { Some(TreeColumns(true)) } else { None }),
    {
        if cli.tree_columns {
            Some(TreeColumns(true))
        } else {
            None
        }
    }

    /// The configured value wrapped in `TreeColumns`, or `None`.
    pub fn from_config(config: &Config) -> (r: Option<TreeColumns>)
        ensures
            r == (match config.tree_columns {
                Some(b) => Some(TreeColumns(b)),
                None => None,
            }),
    {
        match config.tree_columns {
            Some(b) => Some(TreeColumns(b)),
            None => None,
        }
    }

    /// The flag's value: the command line wins over the configuration, which
    /// wins over the default (`false`).
    pub fn configure_from(cli: &Cli, config: &Config) -> (r: TreeColumns)
        ensures
            r == (if cli.tree_columns {
                TreeColumns(true)
            } else {
                match config.tree_columns {
                    Some(b) => TreeColumns(b),
                    None => TreeColumns(false),
                }
            }),
    {
        match TreeColumns::from_cli(cli) {
            Some(v) => v,
            None => match TreeColumns::from_config(config) {
                Some(v) => v,
                None => TreeColumns::default(),
            },
        }
    }
}

impl Default for TreeColumns {
    fn default() -> (r: TreeColumns)
        ensures
            r == TreeColumns(false),
    {
        TreeColumns(false)
    }
}

} // verus!
