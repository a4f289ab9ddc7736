# lsd listing renderers

The grid and tree renderers of the `lsd` directory lister, with the flags
that steer them (`--max-shown`, `--tree-columns`), verified with Verus.

- `src/` is the library. Every function carries a contract over spec
  functions (`grid_text`, `tree_text`, `columns_text`, `visible_width`, ...)
  and is proved against it. Column layout is done by the `term_grid` crate,
  display widths by `unicode-width`, and header underlining by `crossterm`,
  each called through a small trusted wrapper whose contract is written next
  to it.
  - `listing.rs`: grid and one-per-line listings, recursive directories.
  - `display.rs`, `tree.rs`, `columns.rs`: tree listings, the entry cap and
    filter, and packing subtrees side by side.
  - `width.rs`: the visible width of styled text.
  - `flags/`, `cli.rs`, `config_file.rs`: the flags and where they come from.
- `tests/` runs the library on concrete listings.
- `app/` reads the terminal width and prints the warnings the tree layout
  reports.
