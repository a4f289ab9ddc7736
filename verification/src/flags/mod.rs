//! Command-line and configuration flags.

pub mod blocks;
pub mod max_shown;
pub mod tree_columns;

use vstd::prelude::*;
use crate::flags::blocks::Block;
use crate::flags::max_shown::MaxShown;
use crate::flags::tree_columns::TreeColumns;

verus! {

/// How entries are laid out.
#[derive(Clone, Copy, Debug, PartialEq, Eq, Structural)]
pub enum Layout {
    Grid,
    Tree,
    OneLine,
}

/// Which entries a listing shows; `DirectoryOnly` lists directories
/// themselves rather than their contents.
#[derive(Clone, Copy, Debug, PartialEq, Eq, Structural)]
pub enum Display {
    All,
    AlmostAll,
    DirectoryOnly,
    VisibleOnly,
    SystemProtected,
}

/// When names are written as terminal hyperlinks.
#[derive(Clone, Copy, Debug, PartialEq, Eq, Structural)]
pub enum HyperlinkOption {
    Always,
    Auto,
    Never,
}

/// The settings that the renderers read.
pub struct Flags {
    /// The columns shown for each entry, in order.
    pub blocks: Vec<Block>,
    pub layout: Layout,
    pub display: Display,
    /// Whether a grid listing starts with a row of column titles.
    pub header: bool,
    pub hyperlink: HyperlinkOption,
    pub no_symlink: bool,
    pub dereference: bool,
    pub max_shown: MaxShown,
    pub tree_columns: TreeColumns,
    /// Whether a tree filter is set; each entry's `tree_filter_match` then
    /// says whether its name matches it.
    pub tree_filter: bool,
}

} // verus!
