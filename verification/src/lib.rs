//! Rendering of directory listings as grids and trees, with the flags that
//! steer the tree layout.

pub mod cli;
pub mod color;
pub mod columns;
pub mod config_file;
pub mod display;
pub mod flags;
pub mod grid;
pub mod listing;
pub mod meta;
pub mod text;
pub mod tree;
pub mod width;
