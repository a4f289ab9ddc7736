//! The `MaxShown` flag: how many entries each directory level of a tree shows.
//! It is set from the command line, else from the configuration file, else
//! left unset (see `configure_from`).

use vstd::prelude::*;
use crate::cli::Cli;
use crate::config_file::Config;

verus! {

/// Max number of items to show per directory level in tree layout.
///
/// A negative cli/config value resolves to `MaxShown::Auto`, which is later
/// replaced at render time by the top-level entry count, so every depth
/// truncates to whatever the root level shows.
#[derive(Clone, Copy, Debug, PartialEq, Eq, Structural)]
pub enum MaxShown {
    Unset,
    Auto,
    Count(usize),
}

/// The value a signed setting stands for: negative means `Auto`.
pub open spec fn spec_from_signed(n: i64) -> MaxShown {
    if n < 0 {
        MaxShown::Auto
    } else {
        MaxShown::Count(n as usize)
    }
}

impl MaxShown {
    /// The concrete cap `self` stands for, given the top-level entry count.
    pub open spec fn spec_resolve(self, top_count: usize) -> Option<usize> {
        match self {
            MaxShown::Unset => None,
            MaxShown::Auto => Some(top_count),
            MaxShown::Count(n) => Some(n),
        }
    }

    /// Resolve to a concrete `Option<usize>` cap. `top_count` is used when self is `Auto`.
    pub fn resolve(self, top_count: usize) -> (r: Option<usize>)
        ensures
            r == self.spec_resolve(top_count),
    {
        match self {
            MaxShown::Unset => None,
            MaxShown::Auto => Some(top_count),
            MaxShown::Count(n) => Some(n),
        }
    }

    /// True when the user gave any explicit value (positive, zero, or negative/auto).
    pub fn is_set(self) -> (b: bool)
        ensures
            b == !(self is Unset),
    {
        !matches!(self, MaxShown::Unset)
    }

    /// Get a potential `MaxShown` value from the command line: negative values
    /// map to `Auto`, nonnegative ones to `Count`; `None` when `--max-shown` is
    /// not on the command line.
    pub fn from_cli(cli: &Cli) -> (r: Option<MaxShown>)
        ensures
            r == (match cli.max_shown {
                Some(n) => Some(spec_from_signed(n)),
                None => None,
            }),
    {
        match cli.max_shown {
            Some(n) => Some(from_signed(n)),
            None => None,
        }
    }

    /// Get a potential `MaxShown` value from a configuration, with the same
    /// negative/nonnegative mapping as `from_cli`.
    pub fn from_config(config: &Config) -> (r: Option<MaxShown>)
        ensures
            r == (match config.max_shown {
                Some(n) => Some(spec_from_signed(n)),
                None => None,
            }),
    {
        match config.max_shown {
            Some(n) => Some(from_signed(n)),
            None => None,
        }
    }

    /// The flag's value: the command line wins over the configuration, which
    /// wins over the default (`Unset`).
    pub fn configure_from(cli: &Cli, config: &Config) -> (r: MaxShown)
        ensures
            r == (match cli.max_shown {
                Some(n) => spec_from_signed(n),
                None => match config.max_shown {
                    Some(n) => spec_from_signed(n),
                    None => MaxShown::Unset,
                },
            }),
    {
        match MaxShown::from_cli(cli) {
            Some(v) => v,
            None => match MaxShown::from_config(config) {
                Some(v) => v,
                None => MaxShown::default(),
            },
        }
    }
}

impl Default for MaxShown {
    fn default() -> (r: MaxShown)
        ensures
            r == MaxShown::Unset,
    {
        MaxShown::Unset
    }
}

/// The value of a signed cli/config setting.
pub fn from_signed(n: i64) -> (r: MaxShown)
    ensures
        r == spec_from_signed(n),
{
    if n < 0 {
        MaxShown::Auto
    } else {
        MaxShown::Count(n as usize)
    }
}

/// `resolve` gives a cap exactly when the flag is set.
pub proof fn lemma_resolve_some_iff_set(m: MaxShown, top_count: usize)
    ensures
        m.spec_resolve(top_count) is Some <==> !(m is Unset),
{
}

/// In `Auto` mode the cap is the top-level entry count; an explicit count
/// ignores it.
pub proof fn lemma_resolve_auto_and_count(n: usize, top_count: usize)
    ensures
        MaxShown::Auto.spec_resolve(top_count) == Some(top_count),
        MaxShown::Count(n).spec_resolve(top_count) == Some(n),
{
}

} // verus!
