//! Grid and tree rendering of directory listings.

use vstd::prelude::*;
use crate::color::{Colors, Elem, Style, styled};
use crate::flags::{Flags, Layout, HyperlinkOption};
use crate::flags::blocks::Block;
use crate::meta::{Meta, Name, Size, DisplayOption, is_dir_like, dir_like};
use crate::text::{concat2, concat3, repeat_space, spaces, lines_of, split_lines};
use crate::tree::{
    tree_cells, single_tree_cells, inner_display_tree, same_but_tree_columns, lemma_tree_cells_same,
    kept, kept_indices, items_cells, entry_rows, entry_cells, entry_prefix, shown_count,
};
use crate::columns::{
    pack, pack_rows, render_rows, rows_text, rows_view, blocks_view, lines_view, sum_upto,
    gutter, lemma_pack_in_range, lines_fit, positions, lemma_pack_partition, segment, line_at,
    row_height, lemma_row_height_covers, lemma_padded_keeps_line,
};
use crate::grid::{
    GridDirection, grid_of, grid_fit_into_columns, grid_fit_into_width, within_grid_bounds,
    grid_bounds, term_grid_columns, term_grid_width,
};
use crate::width::{
    get_visible_width, try_get_visible_width, visible_width, width_fits, lemma_visible_width_bounded,
};
use crate::flags::max_shown::MaxShown;
use vstd::string::StringExecFns;

verus! {

broadcast use vstd::string::group_string_axioms;

/// One cell of a listing: its text and the columns that text takes.
pub struct Cell {
    pub contents: String,
    pub width: usize,
}

/// A cell, over plain values.
pub open spec fn cell_view(c: Cell) -> (Seq<char>, usize) {
    (c.contents@, c.width)
}

/// Cells, over plain values.
pub open spec fn cells_view(cs: Seq<Cell>) -> Seq<(Seq<char>, usize)> {
    cs.map_values(|c: Cell| cell_view(c))
}

/// Whether the width of every cell's text can be measured: its invisible
/// bytes are no more than its Unicode width.
pub open spec fn cells_fit(cs: Seq<(Seq<char>, usize)>, hyperlink: bool) -> bool {
    forall|i: int| 0 <= i < cs.len() ==> width_fits(#[trigger] cs[i].0, hyperlink)
}

/// The cells of two runs can be measured exactly when those of each can.
pub proof fn lemma_cells_fit_concat(a: Seq<(Seq<char>, usize)>, b: Seq<(Seq<char>, usize)>, hyperlink: bool)
    ensures
        cells_fit(a + b, hyperlink) == (cells_fit(a, hyperlink) && cells_fit(b, hyperlink)),
{
    if cells_fit(a + b, hyperlink) {
        assert forall|i: int| 0 <= i < a.len() implies width_fits(#[trigger] a[i].0, hyperlink) by {
            assert((a + b)[i] == a[i]);
        }
        assert forall|i: int| 0 <= i < b.len() implies width_fits(#[trigger] b[i].0, hyperlink) by {
            assert((a + b)[a.len() + i] == b[i]);
        }
    }
    if cells_fit(a, hyperlink) && cells_fit(b, hyperlink) {
        assert forall|i: int| 0 <= i < (a + b).len() implies width_fits(#[trigger] (a + b)[i].0, hyperlink) by {
            if i < a.len() {
                assert((a + b)[i] == a[i]);
            } else {
                assert((a + b)[i] == b[i - a.len()]);
            }
        }
    }
}

/// Whether names are always written as hyperlinks.
pub open spec fn hyperlink_always(flags: Flags) -> bool {
    flags.hyperlink == HyperlinkOption::Always
}

/// Move the cells of `more` to the end of `cells`.
pub fn extend_cells(cells: &mut Vec<Cell>, more: Vec<Cell>)
    ensures
        cells_view(final(cells)@) == cells_view(old(cells)@) + cells_view(more@),
{
    let mut more = more;
    let ghost a = cells@;
    let ghost b = more@;
    cells.append(&mut more);
    assert(cells_view(cells@) =~= cells_view(a) + cells_view(b));
}

/// Alignment of the size column: the widest size value, where the size
/// column is shown.
pub struct PaddingRules {
    pub size_value: Option<usize>,
}

/// Whether `blocks` holds `b`.
pub open spec fn has_block(blocks: Seq<Block>, b: Block) -> bool {
    exists|i: int| 0 <= i < blocks.len() && blocks[i] == b
}

/// Whether `blocks` holds `b`.
pub fn contains_block(blocks: &Vec<Block>, b: Block) -> (r: bool)
    ensures
        r == has_block(blocks@, b),
{
    let mut i: usize = 0;
    while i < blocks.len()
        invariant
            i <= blocks@.len(),
            forall|j: int| 0 <= j < i ==> blocks@[j] != b,
        decreases blocks@.len() - i,
    {
        if blocks[i] == b {
            return true;
        }
        i = i + 1;
    }
    false
}

/// The byte length of a string (which always fits in `usize`).
pub open spec fn str_len(s: Seq<char>) -> nat {
    (vstd::utf8::encode_utf8(s).len() as usize) as nat
}

/// The byte length of the plain size value of `m`, 0 where it has none.
pub open spec fn size_value_len(m: Meta) -> nat {
    match m.size {
        Some(sz) => str_len(sz.value_plain@),
        None => 0,
    }
}

/// The widest size value of `m` and, in a tree layout, of everything below it.
pub open spec fn meta_size_len(m: Meta, tree: bool) -> nat
    decreases m, 0nat,
{
    let own = size_value_len(m);
    match m.content {
        Some(c) => if tree {
            let sub = list_size_len(c@, c@.len() as int, tree);
            if sub > own { sub } else { own }
        } else {
            own
        },
        None => own,
    }
}

/// The widest size value among the first `n` entries of `metas` (and, in a
/// tree layout, everything below them).
pub open spec fn list_size_len(metas: Seq<Meta>, n: int, tree: bool) -> nat
    decreases metas, n,
{
    if n <= 0 || n > metas.len() {
        0
    } else {
        let rest = list_size_len(metas, n - 1, tree);
        let here = meta_size_len(metas[n - 1], tree);
        if here > rest { here } else { rest }
    }
}

/// The widest size value among `metas` (and, in a tree layout, everything
/// below them).
pub fn detect_size_lengths(metas: &Vec<Meta>, flags: &Flags) -> (r: usize)
    ensures
        r == list_size_len(metas@, metas@.len() as int, flags.layout == Layout::Tree),
    decreases metas@,
{
    let tree = flags.layout == Layout::Tree;
    let mut max_value_length: usize = 0;
    let mut i: usize = 0;
    while i < metas.len()
        invariant
            i <= metas@.len(),
            tree == (flags.layout == Layout::Tree),
            max_value_length == list_size_len(metas@, i as int, tree),
        decreases metas@.len() - i,
    {
        let meta = &metas[i];
        let ghost before = max_value_length;
        let value_len: usize = match &meta.size {
            Some(size) => size.value_plain.as_str().len(),
            None => 0,
        };
        assert(value_len == size_value_len(metas@[i as int]));
        if value_len > max_value_length {
            max_value_length = value_len;
        }
        let ghost mut here: nat = value_len as nat;
        if tree {
            match &meta.content {
                Some(subs) => {
                    proof {
                        assert(decreases_to!(metas@ => metas@[i as int]));
                    }
                    let sub_length = detect_size_lengths(subs, flags);
                    if sub_length > max_value_length {
                        max_value_length = sub_length;
                    }
                    proof {
                        if sub_length > here {
                            here = sub_length as nat;
                        }
                    }
                },
                None => {},
            }
        }
        assert(here == meta_size_len(metas@[i as int], tree));
        assert(max_value_length == (if here > before { here } else { before as nat }));
        i = i + 1;
    }
    max_value_length
}


/// The padding rules of a listing of `metas`: the size alignment exactly
/// when the size column is shown.
pub open spec fn padding_rules_of(metas: Seq<Meta>, flags: Flags) -> Option<usize> {
    if has_block(flags.blocks@, Block::Size) {
        Some(list_size_len(metas, metas.len() as int, flags.layout == Layout::Tree) as usize)
    } else {
        None
    }
}

/// The padding rules of a listing of `metas`.
pub fn get_padding_rules(metas: &Vec<Meta>, flags: &Flags) -> (r: PaddingRules)
    ensures
        r.size_value == padding_rules_of(metas@, *flags),
{
    if contains_block(&flags.blocks, Block::Size) {
        let size_val = detect_size_lengths(metas, flags);
        PaddingRules { size_value: Some(size_val) }
    } else {
        PaddingRules { size_value: None }
    }
}

/// The padding rules of a listing of `meta` alone.
pub fn get_padding_rules_single(meta: &Meta, flags: &Flags) -> (r: PaddingRules)
    ensures
        r.size_value == padding_rules_of(seq![*meta], *flags),
{
    let tree = flags.layout == Layout::Tree;
    if contains_block(&flags.blocks, Block::Size) {
        let value_len: usize = match &meta.size {
            Some(size) => size.value_plain.as_str().len(),
            None => 0,
        };
        let mut size_val = value_len;
        if tree {
            match &meta.content {
                Some(subs) => {
                    let sub_length = detect_size_lengths(subs, flags);
                    if sub_length > size_val {
                        size_val = sub_length;
                    }
                },
                None => {},
            }
        }
        assert(size_val == meta_size_len(*meta, tree));
        assert(list_size_len(seq![*meta], 0, tree) == 0);
        PaddingRules { size_value: Some(size_val) }
    } else {
        PaddingRules { size_value: None }
    }
}

/// The top-level entry count: the children of a single listed directory,
/// else the number of listed entries.
pub open spec fn top_count(metas: Seq<Meta>) -> nat {
    if metas.len() == 1 {
        match metas[0].content {
            Some(c) => c@.len(),
            None => 1,
        }
    } else {
        metas.len()
    }
}

/// The top-level entry count used to resolve `MaxShown::Auto`: for a single
/// directory argument its immediate children, otherwise the number of
/// arguments.
pub fn compute_top_count(metas: &Vec<Meta>) -> (r: usize)
    ensures
        r == top_count(metas@),
{
    if metas.len() == 1 {
        match &metas[0].content {
            Some(c) => c.len(),
            None => 1,
        }
    } else {
        metas.len()
    }
}

/// The number of directories (or symlinks to directories) among the first
/// `n` entries of `metas`.
pub open spec fn count_dirs(metas: Seq<Meta>, n: int) -> nat
    decreases n,
{
    if n <= 0 {
        0
    } else {
        count_dirs(metas, n - 1) + if is_dir_like(metas[n - 1].file_type) { 1nat } else { 0nat }
    }
}

proof fn lemma_count_dirs_le(metas: Seq<Meta>, n: int)
    requires
        0 <= n,
    ensures
        count_dirs(metas, n) <= n,
    decreases n,
{
    if n > 0 {
        lemma_count_dirs_le(metas, n - 1);
    }
}

/// Whether a listing at `depth` prints each directory's path above its
/// contents: always below the top level; at the top level unless the
/// arguments are exactly one directory.
pub open spec fn folder_path_shown(depth: usize, metas: Seq<Meta>) -> bool {
    depth > 0 || {
        let folders = count_dirs(metas, metas.len() as int);
        folders > 1 || folders < metas.len()
    }
}

/// Whether to print each directory's path above its contents.
pub fn should_display_folder_path(depth: usize, metas: &Vec<Meta>) -> (r: bool)
    ensures
        r == folder_path_shown(depth, metas@),
{
    if depth > 0 {
        true
    } else {
        let mut folder_number: usize = 0;
        let mut i: usize = 0;
        while i < metas.len()
            invariant
                i <= metas@.len(),
                folder_number == count_dirs(metas@, i as int),
            decreases metas@.len() - i,
        {
            proof {
                lemma_count_dirs_le(metas@, i as int);
            }
            if dir_like(metas[i].file_type) {
                folder_number = folder_number + 1;
            }
            i = i + 1;
        }
        folder_number > 1 || folder_number < metas.len()
    }
}

/// The line that introduces a directory's contents at `depth`: its path,
/// indented by two spaces per level below the top, and a colon.
pub open spec fn folder_path_text(path: Seq<char>, depth: nat) -> Seq<char> {
    spaces((depth + 1) * 2) + path + seq![':', '\n']
}

/// The line that introduces the contents of `meta` at `depth`.
pub fn display_folder_path(meta: &Meta, depth: usize) -> (r: String)
    requires
        (depth + 1) * 2 <= usize::MAX,
    ensures
        r@ == folder_path_text(meta.path@, depth as nat),
{
    let indent = repeat_space((depth + 1) * 2);
    let mut r = concat2(indent.as_str(), meta.path.as_str());
    crate::text::push_char(&mut r, ':');
    crate::text::push_char(&mut r, '\n');
    assert(r@ =~= folder_path_text(meta.path@, depth as nat));
    r
}


/// `s` styled as a value that could not be read.
pub open spec fn missing(colors: Colors, s: Seq<char>) -> Seq<char> {
    styled(colors.no_access, s)
}

/// The form of a name that `option` selects.
pub open spec fn name_text(name: Name, option: DisplayOption) -> Seq<char> {
    match option {
        DisplayOption::AsGiven => name.path@,
        DisplayOption::FileName => name.file_name@,
        DisplayOption::Relative => name.relative@,
    }
}

/// A size, its value left-padded to `pad` bytes where a padding is given.
pub open spec fn size_text(sz: Size, pad: Option<usize>) -> Seq<char> {
    let len = str_len(sz.value_plain@);
    let left = match pad {
        Some(p) => if p > len { spaces((p - len) as nat) } else { Seq::<char>::empty() },
        None => Seq::<char>::empty(),
    };
    left + sz.value@ + sz.unit@
}

/// The padding of the size column: none for the first column of a tree
/// whose connectors stand in that column, the listing's alignment otherwise.
pub open spec fn size_pad(flags: Flags, tree_index: usize, i: int, padding: Option<usize>) -> Option<usize> {
    if flags.layout == Layout::Tree && tree_index == 0 && i == 0 {
        None
    } else {
        padding
    }
}

/// What column `block` shows for `meta` (without tree connectors).
pub open spec fn block_body(
    meta: Meta,
    colors: Colors,
    flags: Flags,
    option: DisplayOption,
    padding: Option<usize>,
    tree_index: usize,
    i: int,
    block: Block,
) -> Seq<char> {
    let q = seq!['?'];
    match block {
        Block::INode => match meta.inode {
            Some(s) => s@,
            None => missing(colors, q),
        },
        Block::Links => match meta.links {
            Some(s) => s@,
            None => missing(colors, q),
        },
        Block::Permission => meta.file_type_render@ + match meta.permissions {
            Some(p) => p@,
            None => missing(colors, seq!['?', '?', '?', '?', '?', '?', '?', '?', '?']),
        } + match meta.access_control {
            Some(a) => a.method@,
            None => missing(colors, Seq::<char>::empty()),
        },
        Block::User => match meta.owner {
            Some(o) => o.user@,
            None => missing(colors, q),
        },
        Block::Group => match meta.owner {
            Some(o) => o.group@,
            None => missing(colors, q),
        },
        Block::Context => match meta.access_control {
            Some(a) => a.context@,
            None => missing(colors, q),
        },
        Block::Size => match meta.size {
            Some(sz) => size_text(sz, size_pad(flags, tree_index, i, padding)),
            None => missing(colors, q),
        },
        Block::SizeValue => match meta.size {
            Some(sz) => sz.value@,
            None => missing(colors, q),
        },
        Block::Date => match meta.date {
            Some(s) => s@,
            None => missing(colors, q),
        },
        Block::Name => name_text(meta.name, option) + meta.indicator@ + if !(flags.no_symlink
            || flags.dereference || flags.layout == Layout::Grid) {
            meta.symlink@
        } else {
            Seq::<char>::empty()
        },
        Block::GitStatus => match meta.git_status {
            Some(g) => g@,
            None => Seq::<char>::empty(),
        },
    }
}

/// What the `i`-th column shows for `meta`: in a tree, the column at
/// `tree_index` starts with the styled connector `tree_prefix`.
pub open spec fn block_text(
    meta: Meta,
    colors: Colors,
    flags: Flags,
    option: DisplayOption,
    padding: Option<usize>,
    tree_index: usize,
    tree_prefix: Seq<char>,
    i: int,
) -> Seq<char> {
    let edge = if flags.layout == Layout::Tree && tree_index == i {
        styled(colors.tree_edge, tree_prefix)
    } else {
        Seq::<char>::empty()
    };
    edge + block_body(meta, colors, flags, option, padding, tree_index, i, flags.blocks@[i])
}

/// The padding the columns of an entry need: an alignment wherever the size
/// column is shown, except as the first column of a tree whose connectors
/// stand in that column (which is never padded).
pub open spec fn padding_fits(flags: Flags, tree_index: usize, padding: Option<usize>) -> bool {
    forall|i: int|
        0 <= i < flags.blocks@.len() && #[trigger] flags.blocks@[i] == Block::Size && !(flags.layout
            == Layout::Tree && tree_index == 0 && i == 0) ==> padding is Some
}

/// The padding rules of a listing meet what each of its entries needs.
pub proof fn lemma_padding_rules_fit(metas: Seq<Meta>, flags: Flags, tree_index: usize)
    ensures
        padding_fits(flags, tree_index, padding_rules_of(metas, flags)),
{
    assert forall|i: int|
        0 <= i < flags.blocks@.len() && #[trigger] flags.blocks@[i] == Block::Size && !(flags.layout
            == Layout::Tree && tree_index == 0 && i == 0) implies padding_rules_of(metas, flags) is Some by {
        assert(has_block(flags.blocks@, Block::Size));
    }
}

/// The text of each column for `meta`.
pub fn get_output(
    meta: &Meta,
    colors: &Colors,
    flags: &Flags,
    display_option: DisplayOption,
    padding_rules: &PaddingRules,
    tree_index: usize,
    tree_prefix: &str,
) -> (r: Vec<String>)
    requires
        padding_fits(*flags, tree_index, padding_rules.size_value),
    ensures
        r@.len() == flags.blocks@.len(),
        forall|i: int|
            0 <= i < r@.len() ==> #[trigger] r@[i]@ == block_text(
                *meta,
                *colors,
                *flags,
                display_option,
                padding_rules.size_value,
                tree_index,
                tree_prefix@,
                i,
            ),
{
    let mut strings: Vec<String> = Vec::new();
    let mut i: usize = 0;
    while i < flags.blocks.len()
        invariant
            i <= flags.blocks@.len(),
            padding_fits(*flags, tree_index, padding_rules.size_value),
            strings@.len() == i,
            forall|j: int|
                0 <= j < i ==> #[trigger] strings@[j]@ == block_text(
                    *meta,
                    *colors,
                    *flags,
                    display_option,
                    padding_rules.size_value,
                    tree_index,
                    tree_prefix@,
                    j,
                ),
        decreases flags.blocks@.len() - i,
    {
        let block = flags.blocks[i];
        let mut text = if flags.layout == Layout::Tree && tree_index == i {
            colors.colorize(tree_prefix, Elem::TreeEdge)
        } else {
            String::new()
        };
        let body = render_block(meta, colors, flags, display_option, padding_rules, tree_index, i, block);
        text.append(body.as_str());
        strings.push(text);
        i = i + 1;
    }
    strings
}

/// The styled placeholder `s` for a value that could not be read.
fn colorize_missing(colors: &Colors, s: &str) -> (r: String)
    ensures
        r@ == missing(*colors, s@),
{
    colors.colorize(s, Elem::NoAccess)
}

/// A size, its value left-padded to `pad` bytes where a padding is given.
fn render_size(sz: &Size, pad: Option<usize>) -> (r: String)
    ensures
        r@ == size_text(*sz, pad),
{
    let len = sz.value_plain.as_str().len();
    let left = match pad {
        Some(p) => if p > len { repeat_space(p - len) } else { String::new() },
        None => String::new(),
    };
    concat3(left.as_str(), sz.value.as_str(), sz.unit.as_str())
}

/// What column `block` (the `i`-th) shows for `meta`.
fn render_block(
    meta: &Meta,
    colors: &Colors,
    flags: &Flags,
    display_option: DisplayOption,
    padding_rules: &PaddingRules,
    tree_index: usize,
    i: usize,
    block: Block,
) -> (r: String)
    requires
        padding_fits(*flags, tree_index, padding_rules.size_value),
        i < flags.blocks@.len(),
        block == flags.blocks@[i as int],
    ensures
        r@ == block_body(
            *meta,
            *colors,
            *flags,
            display_option,
            padding_rules.size_value,
            tree_index,
            i as int,
            block,
        ),
{
    proof {
        reveal_strlit("?");
        reveal_strlit("?????????");
        reveal_strlit("");
    }
    match block {
        Block::INode => match &meta.inode {
            Some(s) => s.clone(),
            None => colorize_missing(colors, "?"),
        },
        Block::Links => match &meta.links {
            Some(s) => s.clone(),
            None => colorize_missing(colors, "?"),
        },
        Block::Permission => {
            let perms = match &meta.permissions {
                Some(p) => p.clone(),
                None => colorize_missing(colors, "?????????"),
            };
            let method = match &meta.access_control {
                Some(a) => a.method.clone(),
                None => colorize_missing(colors, ""),
            };
            concat3(meta.file_type_render.as_str(), perms.as_str(), method.as_str())
        },
        Block::User => match &meta.owner {
            Some(o) => o.user.clone(),
            None => colorize_missing(colors, "?"),
        },
        Block::Group => match &meta.owner {
            Some(o) => o.group.clone(),
            None => colorize_missing(colors, "?"),
        },
        Block::Context => match &meta.access_control {
            Some(a) => a.context.clone(),
            None => colorize_missing(colors, "?"),
        },
        Block::Size => {
            let pad = if flags.layout == Layout::Tree && tree_index == 0 && i == 0 {
                None
            } else {
                padding_rules.size_value
            };
            match &meta.size {
                Some(sz) => render_size(sz, pad),
                None => colorize_missing(colors, "?"),
            }
        },
        Block::SizeValue => match &meta.size {
            Some(sz) => sz.value.clone(),
            None => colorize_missing(colors, "?"),
        },
        Block::Date => match &meta.date {
            Some(s) => s.clone(),
            None => colorize_missing(colors, "?"),
        },
        Block::Name => {
            let name = match display_option {
                DisplayOption::AsGiven => &meta.name.path,
                DisplayOption::FileName => &meta.name.file_name,
                DisplayOption::Relative => &meta.name.relative,
            };
            let mut r = concat2(name.as_str(), meta.indicator.as_str());
            if !(flags.no_symlink || flags.dereference || flags.layout == Layout::Grid) {
                r.append(meta.symlink.as_str());
            }
            r
        },
        Block::GitStatus => match &meta.git_status {
            Some(g) => g.clone(),
            None => String::new(),
        },
    }
}


/// The widest of the first `n` lines, in visible columns.
pub open spec fn max_line_width(lines: Seq<Seq<char>>, hyperlink: bool, n: int) -> nat
    decreases n,
{
    if n <= 0 {
        0
    } else {
        let rest = max_line_width(lines, hyperlink, n - 1);
        let w = visible_width(lines[n - 1], hyperlink);
        if w > rest { w } else { rest }
    }
}

/// The width of a rendered subtree: its widest line, 0 for none.
pub open spec fn block_width(lines: Seq<Seq<char>>, hyperlink: bool) -> usize {
    max_line_width(lines, hyperlink, lines.len() as int) as usize
}

/// The cells of the tree of `m` alone, as a block of a packed listing.
pub open spec fn subtree_cells(m: Meta, colors: Colors, flags: Flags, cap: Option<usize>) -> Seq<
    (Seq<char>, usize),
> {
    tree_cells(seq![m], colors, flags, padding_rules_of(seq![m], flags), 0, cap, false, Seq::empty())
}

/// The lines of the tree of `m` alone, laid out in one column.
pub open spec fn subtree_lines(m: Meta, colors: Colors, flags: Flags, cap: Option<usize>) -> Seq<
    Seq<char>,
> {
    lines_of(term_grid_columns(subtree_cells(m, colors, flags, cap), 1, true, 1))
}

/// Whether the one-column layout of the tree of `m` completes: the widths
/// of its cells can be measured, and its layout stays within machine
/// arithmetic.
pub open spec fn subtree_fits(m: Meta, colors: Colors, flags: Flags, cap: Option<usize>) -> bool {
    let cells = subtree_cells(m, colors, flags, cap);
    cells_fit(cells, hyperlink_always(flags)) && grid_bounds(cells, 1) && cells.len() + 1 <= usize::MAX
}

/// The rendered subtree of each of `metas`.
pub open spec fn columns_blocks(metas: Seq<Meta>, colors: Colors, flags: Flags, cap: Option<usize>) -> Seq<
    Seq<Seq<char>>,
> {
    Seq::new(metas.len(), |i: int| subtree_lines(metas[i], colors, flags, cap))
}

/// The width of each subtree of `metas`.
pub open spec fn columns_widths(metas: Seq<Meta>, colors: Colors, flags: Flags, cap: Option<usize>) -> Seq<
    usize,
> {
    Seq::new(
        metas.len(),
        |i: int| block_width(columns_blocks(metas, colors, flags, cap)[i], hyperlink_always(flags)),
    )
}

/// Whether packing the subtrees of `metas` completes: each subtree is laid
/// out, the widths of its lines can be measured, and the packing stays
/// within machine arithmetic.
pub open spec fn columns_fit(metas: Seq<Meta>, colors: Colors, flags: Flags, cap: Option<usize>) -> bool {
    &&& forall|i: int| 0 <= i < metas.len() ==> #[trigger] subtree_fits(metas[i], colors, flags, cap)
    &&& forall|i: int|
        0 <= i < metas.len() ==> lines_fit(
            #[trigger] columns_blocks(metas, colors, flags, cap)[i],
            hyperlink_always(flags),
        )
    &&& sum_upto(columns_widths(metas, colors, flags, cap), metas.len() as int) + gutter() * metas.len()
        <= usize::MAX
}

/// The subtrees of `metas` packed side by side in rows that fit `term_width`.
pub open spec fn columns_text(
    metas: Seq<Meta>,
    colors: Colors,
    flags: Flags,
    cap: Option<usize>,
    term_width: Option<usize>,
) -> Seq<char> {
    if metas.len() == 0 {
        Seq::empty()
    } else {
        let blocks = columns_blocks(metas, colors, flags, cap);
        let widths = columns_widths(metas, colors, flags, cap);
        let rows = pack(widths, term_width);
        rows_text(blocks, widths, rows, hyperlink_always(flags), rows.len() as int)
    }
}

/// The widest of `lines`, in visible columns; `None` where the width of a
/// line cannot be measured.
fn widest_line(lines: &Vec<String>, hyperlink: bool) -> (r: Option<usize>)
    ensures
        r is Some <==> lines_fit(lines_view(*lines), hyperlink),
        r matches Some(w) ==> w == block_width(lines_view(*lines), hyperlink),
{
    let ghost lv = lines_view(*lines);
    let mut w: usize = 0;
    let mut k: usize = 0;
    while k < lines.len()
        invariant
            k <= lines@.len(),
            lv == lines_view(*lines),
            forall|t: int| 0 <= t < k ==> width_fits(#[trigger] lv[t], hyperlink),
            w == max_line_width(lv, hyperlink, k as int),
        decreases lines@.len() - k,
    {
        assert(lv[k as int] == lines@[k as int]@);
        let v = match try_get_visible_width(lines[k].as_str(), hyperlink) {
            Some(v) => v,
            None => {
                return None;
            },
        };
        if v > w {
            w = v;
        }
        k = k + 1;
    }
    Some(w)
}

/// Render each of `metas` as its own subtree and pack the subtrees side by
/// side into rows that fit `term_width` (one row where it is unknown);
/// `None` where that leaves machine arithmetic.
fn tree_columns(
    metas: &Vec<Meta>,
    flags: &Flags,
    colors: &Colors,
    max_cap: Option<usize>,
    term_width: Option<usize>,
) -> (r: Option<String>)
    ensures
        r is Some <==> columns_fit(metas@, *colors, *flags, max_cap),
        r matches Some(s) ==> s@ == columns_text(metas@, *colors, *flags, max_cap, term_width),
{
    let hyperlink = flags.hyperlink == HyperlinkOption::Always;
    let ghost blocks_s = columns_blocks(metas@, *colors, *flags, max_cap);
    let mut blocks: Vec<Vec<String>> = Vec::new();
    let mut i: usize = 0;
    while i < metas.len()
        invariant
            i <= metas@.len(),
            blocks_s == columns_blocks(metas@, *colors, *flags, max_cap),
            blocks@.len() == i,
            forall|j: int| 0 <= j < i ==> #[trigger] lines_view(blocks@[j]) == blocks_s[j],
            forall|j: int| 0 <= j < i ==> #[trigger] subtree_fits(metas@[j], *colors, *flags, max_cap),
        decreases metas@.len() - i,
    {
        let meta = &metas[i];
        let padding_rules = get_padding_rules_single(meta, flags);
        let cells = match single_tree_cells(meta, colors, flags, &padding_rules, 0, max_cap) {
            Some(cells) => cells,
            None => {
                assert(!subtree_fits(metas@[i as int], *colors, *flags, max_cap));
                return None;
            },
        };
        assert(cells_view(cells@) == subtree_cells(metas@[i as int], *colors, *flags, max_cap));
        if !within_grid_bounds(&cells, 1) || cells.len() >= usize::MAX {
            assert(!subtree_fits(metas@[i as int], *colors, *flags, max_cap));
            return None;
        }
        let grid = grid_of(&cells, 1, GridDirection::LeftToRight);
        let text = grid_fit_into_columns(&grid, 1);
        let lines = split_lines(text.as_str());
        assert(lines_view(lines) =~= blocks_s[i as int]);
        blocks.push(lines);
        i = i + 1;
    }
    if blocks.len() == 0 {
        return Some(String::new());
    }
    assert(blocks_view(blocks@) =~= blocks_s);
    let ghost widths_s = columns_widths(metas@, *colors, *flags, max_cap);
    let mut widths: Vec<usize> = Vec::new();
    let mut total: usize = 0;
    let mut k: usize = 0;
    while k < blocks.len()
        invariant
            k <= blocks@.len(),
            blocks@.len() == metas@.len(),
            blocks_view(blocks@) == blocks_s,
            widths_s == columns_widths(metas@, *colors, *flags, max_cap),
            blocks_s == columns_blocks(metas@, *colors, *flags, max_cap),
            hyperlink == hyperlink_always(*flags),
            widths@ == widths_s.take(k as int),
            total == sum_upto(widths_s, k as int) + gutter() * k,
            forall|t: int| 0 <= t < k ==> lines_fit(#[trigger] blocks_s[t], hyperlink),
        decreases blocks@.len() - k,
    {
        assert(blocks_view(blocks@)[k as int] == lines_view(blocks@[k as int]));
        let w = match widest_line(&blocks[k], hyperlink) {
            Some(w) => w,
            None => {
                assert(!lines_fit(blocks_s[k as int], hyperlink));
                return None;
            },
        };
        assert(w == widths_s[k as int]);
        if w > usize::MAX - total || usize::MAX - total - w < 2 {
            proof {
                lemma_sum_upto_tail(widths_s, k + 1, metas@.len() as int);
            }
            return None;
        }
        total = total + w + 2;
        widths.push(w);
        assert(widths@ =~= widths_s.take(k + 1));
        k = k + 1;
    }
    assert(widths@ =~= widths_s);
    let rows = pack_rows(&widths, term_width);
    proof {
        lemma_pack_in_range(widths@, term_width);
    }
    let out = render_rows(&blocks, &widths, &rows, hyperlink);
    Some(out)
}

/// In the `li`-th line of packed row `k`, the `p`-th subtree: it is one of
/// `metas`, its block is its own one-column tree, the row is tall enough for
/// all its lines, and its piece of the line is its own line (empty below its
/// last one) followed only by padding spaces.
pub open spec fn shows_subtree(
    metas: Seq<Meta>,
    colors: Colors,
    flags: Flags,
    cap: Option<usize>,
    term_width: Option<usize>,
    k: int,
    p: int,
    li: int,
) -> bool {
    let blocks = columns_blocks(metas, colors, flags, cap);
    let widths = columns_widths(metas, colors, flags, cap);
    let rows = pack(widths, term_width);
    let b = rows[k][p];
    let line = line_at(blocks[b], li);
    let sg = segment(blocks, widths, rows[k], li, p, hyperlink_always(flags));
    &&& 0 <= b < metas.len()
    &&& blocks[b] == subtree_lines(metas[b], colors, flags, cap)
    &&& blocks[b].len() <= row_height(blocks, rows[k], rows[k].len() as int)
    &&& line.len() <= sg.len()
    &&& sg.take(line.len() as int) == line
    &&& forall|c: int| line.len() <= c < sg.len() ==> sg[c] == ' '
}

/// Packing shows every subtree whole and in place: the text is the packed
/// rows of the subtrees' one-column trees; the rows hold each of `metas`
/// exactly once, in order; and every piece of every line is as
/// `shows_subtree` says. Where each piece stands in its line, and each line
/// and row in the text, is given by `lemma_row_line_segments`,
/// `lemma_row_lines_in_order` and `lemma_rows_in_order`.
pub proof fn lemma_columns_show_subtrees(
    metas: Seq<Meta>,
    colors: Colors,
    flags: Flags,
    cap: Option<usize>,
    term_width: Option<usize>,
)
    ensures
        metas.len() > 0 ==> columns_text(metas, colors, flags, cap, term_width) == rows_text(
            columns_blocks(metas, colors, flags, cap),
            columns_widths(metas, colors, flags, cap),
            pack(columns_widths(metas, colors, flags, cap), term_width),
            hyperlink_always(flags),
            pack(columns_widths(metas, colors, flags, cap), term_width).len() as int,
        ),
        pack(columns_widths(metas, colors, flags, cap), term_width).flatten() == positions(
            metas.len() as int,
        ),
        forall|k: int, p: int, li: int|
            0 <= k < pack(columns_widths(metas, colors, flags, cap), term_width).len() && 0 <= p < pack(
                columns_widths(metas, colors, flags, cap),
                term_width,
            )[k].len() ==> #[trigger] shows_subtree(metas, colors, flags, cap, term_width, k, p, li),
{
    let blocks = columns_blocks(metas, colors, flags, cap);
    let widths = columns_widths(metas, colors, flags, cap);
    let rows = pack(widths, term_width);
    let h = hyperlink_always(flags);
    lemma_pack_partition(widths, term_width);
    lemma_pack_in_range(widths, term_width);
    assert forall|k: int, p: int, li: int| 0 <= k < rows.len() && 0 <= p < rows[k].len() implies
        #[trigger] shows_subtree(metas, colors, flags, cap, term_width, k, p, li) by {
        let b = rows[k][p];
        assert(0 <= b < metas.len());
        lemma_row_height_covers(blocks, rows[k], rows[k].len() as int, p);
        lemma_padded_keeps_line(line_at(blocks[b], li), widths[b], h);
    }
}

/// Widths only add: the gutters and widths of a prefix never exceed those of the whole.
proof fn lemma_sum_upto_tail(ws: Seq<usize>, k: int, n: int)
    requires
        0 <= k <= n <= ws.len(),
    ensures
        sum_upto(ws, k) + gutter() * k <= sum_upto(ws, n) + gutter() * n,
    decreases n - k,
{
    if k < n {
        lemma_sum_upto_tail(ws, k, n - 1);
    }
}


/// The root's name line alone, with no connectors and no children: the
/// header above the packed children of a single listed directory.
pub open spec fn root_header_text(m: Meta, colors: Colors, flags: Flags) -> Seq<char> {
    if flags.blocks@.len() > 0 {
        block_text(
            m,
            colors,
            flags,
            DisplayOption::FileName,
            padding_rules_of(seq![m], flags),
            0,
            Seq::empty(),
            0,
        )
    } else {
        Seq::empty()
    }
}

/// Render the root's name line alone; see `root_header_text`.
fn render_tree_root_header(meta: &Meta, flags: &Flags, colors: &Colors) -> (r: String)
    ensures
        r@ == root_header_text(*meta, *colors, *flags),
{
    proof {
        reveal_strlit("");
    }
    let padding_rules = get_padding_rules_single(meta, flags);
    let mut texts = get_output(meta, colors, flags, DisplayOption::FileName, &padding_rules, 0, "");
    if texts.len() > 0 {
        texts.swap_remove(0)
    } else {
        String::new()
    }
}

/// The header above the packed children of a single directory is that
/// directory's own first cell in a tree of it alone: its first column, with
/// no connector and nothing from its contents.
pub proof fn lemma_root_header_is_first_cell(m: Meta, colors: Colors, flags: Flags, cap: Option<usize>)
    requires
        flags.blocks@.len() > 0,
        kept(m, flags),
        cap matches Some(c) ==> c > 0,
    ensures
        ({
            let cells = tree_cells(seq![m], colors, flags, padding_rules_of(seq![m], flags), 0, cap, false, Seq::empty());
            cells.len() > 0 && cells[0].0 == root_header_text(m, colors, flags)
        }),
{
    let metas = seq![m];
    let padding = padding_rules_of(metas, flags);
    assert(kept_indices(metas, 0, flags) =~= Seq::<int>::empty());
    let idx = kept_indices(metas, 1, flags);
    assert(idx =~= seq![0int]);
    let shown = shown_count(idx.len() as int, cap);
    assert(shown == 1);
    let hidden = idx.len() - shown;
    let items = items_cells(metas, colors, flags, padding, 0, cap, false, Seq::empty(), idx, shown, hidden, 0);
    let rows = entry_rows(m, colors, flags, padding, 0, cap, false, true, Seq::empty());
    assert(items_cells(metas, colors, flags, padding, 0, cap, false, Seq::empty(), idx, shown, hidden, 1)
        =~= Seq::empty());
    assert(items == rows + Seq::<(Seq<char>, usize)>::empty());
    let own = entry_cells(m, colors, flags, padding, 0, entry_prefix(false, true, Seq::empty()));
    assert(entry_prefix(false, true, Seq::<char>::empty()) == Seq::<char>::empty());
    assert(own.len() > 0);
    assert(rows[0] == own[0]);
    let cells = tree_cells(metas, colors, flags, padding, 0, cap, false, Seq::empty());
    assert(cells[0] == items[0]);
}

/// Why a packed tree was not drawn although asked for.
#[derive(Clone, Copy, Debug, PartialEq, Eq, Structural)]
pub enum TreeColumnsFallback {
    /// Packing needs a cap on the entries shown.
    MaxShownUnset,
    /// Packing draws names only.
    MultipleBlocks,
}

impl TreeColumnsFallback {
    /// The warning to print for this fallback.
    pub fn message(self) -> (r: &'static str)
        ensures
            r@ == (match self {
                TreeColumnsFallback::MaxShownUnset => "lsd: --tree-columns requires --max-shown; falling back to vertical layout"@,
                TreeColumnsFallback::MultipleBlocks => "lsd: --tree-columns only supports name-only output; falling back to vertical layout"@,
            }),
    {
        match self {
            TreeColumnsFallback::MaxShownUnset => {
                "lsd: --tree-columns requires --max-shown; falling back to vertical layout"
            },
            TreeColumnsFallback::MultipleBlocks => {
                "lsd: --tree-columns only supports name-only output; falling back to vertical layout"
            },
        }
    }
}

/// A rendered tree, and why packing was given up where it was asked for.
pub struct TreeRender {
    pub output: String,
    pub fallback: Option<TreeColumnsFallback>,
}

/// Why the flags ask for packing and it cannot be done, if they do.
pub open spec fn columns_fallback(flags: Flags) -> Option<TreeColumnsFallback> {
    if flags.tree_columns.0 {
        if flags.max_shown is Unset {
            Some(TreeColumnsFallback::MaxShownUnset)
        } else if flags.blocks@.len() > 1 {
            Some(TreeColumnsFallback::MultipleBlocks)
        } else {
            None
        }
    } else {
        None
    }
}

/// Whether the tree is drawn packed: asked for, with a cap, names only.
pub open spec fn columns_mode(flags: Flags) -> bool {
    flags.tree_columns.0 && !(flags.max_shown is Unset) && flags.blocks@.len() <= 1
}

/// The cap on entries per directory, resolved once from the top-level count.
pub open spec fn tree_cap(metas: Seq<Meta>, flags: Flags) -> Option<usize> {
    flags.max_shown.spec_resolve(top_count(metas) as usize)
}

/// A single listed directory with children: its children are packed below
/// its name.
pub open spec fn unwraps_root(metas: Seq<Meta>) -> bool {
    metas.len() == 1 && metas[0].content is Some && metas[0].content->0@.len() > 0
}

/// The position of the first name column at or after `i`, else 0.
pub open spec fn name_index_from(blocks: Seq<Block>, i: int) -> int
    decreases blocks.len() - i,
{
    if i < 0 || i >= blocks.len() {
        0
    } else if blocks[i] == Block::Name {
        i
    } else {
        name_index_from(blocks, i + 1)
    }
}

/// The cells of the vertical tree of `metas`: connectors in the name column.
pub open spec fn vertical_cells(metas: Seq<Meta>, colors: Colors, flags: Flags) -> Seq<
    (Seq<char>, usize),
> {
    tree_cells(
        metas,
        colors,
        flags,
        padding_rules_of(metas, flags),
        name_index_from(flags.blocks@, 0) as usize,
        tree_cap(metas, flags),
        false,
        Seq::empty(),
    )
}

/// Whether drawing the tree of `metas` completes: the vertical layout needs
/// a column and arithmetic within `usize`; the packed layout the latter.
pub open spec fn tree_fits(metas: Seq<Meta>, colors: Colors, flags: Flags) -> bool {
    let cap = tree_cap(metas, flags);
    if columns_mode(flags) {
        if unwraps_root(metas) {
            columns_fit(metas[0].content->0@, colors, flags, cap)
        } else {
            columns_fit(metas, colors, flags, cap)
        }
    } else {
        let cells = vertical_cells(metas, colors, flags);
        flags.blocks@.len() > 0 && cells_fit(cells, hyperlink_always(flags)) && grid_bounds(cells, 1)
            && cells.len() + flags.blocks@.len() <= usize::MAX
    }
}

/// The tree listing of `metas`.
pub open spec fn tree_text(
    metas: Seq<Meta>,
    colors: Colors,
    flags: Flags,
    term_width: Option<usize>,
) -> Seq<char> {
    let cap = tree_cap(metas, flags);
    if columns_mode(flags) {
        if unwraps_root(metas) {
            let header = root_header_text(metas[0], colors, flags);
            let packed = columns_text(metas[0].content->0@, colors, flags, cap, term_width);
            if header.len() == 0 {
                packed
            } else {
                header + seq!['\n'] + packed
            }
        } else {
            columns_text(metas, colors, flags, cap, term_width)
        }
    } else {
        term_grid_columns(vertical_cells(metas, colors, flags), 1, true, flags.blocks@.len() as usize)
    }
}

/// The position of the first name column, else 0.
fn name_index(blocks: &Vec<Block>) -> (r: usize)
    ensures
        r == name_index_from(blocks@, 0),
{
    let mut i: usize = 0;
    while i < blocks.len()
        invariant
            i <= blocks@.len(),
            name_index_from(blocks@, 0) == name_index_from(blocks@, i as int),
        decreases blocks@.len() - i,
    {
        if blocks[i] == Block::Name {
            return i;
        }
        i = i + 1;
    }
    0
}

/// Draw the tree of `metas`, or `None` where drawing would not complete.
fn render_tree(metas: &Vec<Meta>, flags: &Flags, colors: &Colors, term_width: Option<usize>) -> (r:
    Option<String>)
    ensures
        r is Some <==> tree_fits(metas@, *colors, *flags),
        r matches Some(s) ==> s@ == tree_text(metas@, *colors, *flags, term_width),
{
    // resolve once at entry: Auto mode reads the top-level entry count and
    // uses that cap at every depth
    let top_count = compute_top_count(metas);
    let max_cap = flags.max_shown.resolve(top_count);
    if flags.tree_columns.0 && flags.max_shown.is_set() && flags.blocks.len() <= 1 {
        // a single directory argument: pack its children below its name
        if metas.len() == 1 {
            match &metas[0].content {
                Some(children) => {
                    if children.len() > 0 {
                        let header = render_tree_root_header(&metas[0], flags, colors);
                        let packed = tree_columns(children, flags, colors, max_cap, term_width);
                        return match packed {
                            Some(p) => if header.as_str().is_empty() {
                                Some(p)
                            } else {
                                proof {
                                    reveal_strlit("\n");
                                }
                                Some(concat3(header.as_str(), "\n", p.as_str()))
                            },
                            None => None,
                        };
                    }
                },
                None => {},
            }
        }
        return tree_columns(metas, flags, colors, max_cap, term_width);
    }
    let padding_rules = get_padding_rules(metas, flags);
    let index = name_index(&flags.blocks);
    proof {
        reveal_strlit("");
        assert(""@ =~= Seq::<char>::empty());
    }
    let cells = match inner_display_tree(metas, colors, flags, 0, "", &padding_rules, index, max_cap) {
        Some(cells) => cells,
        None => {
            return None;
        },
    };
    if flags.blocks.len() == 0 || !within_grid_bounds(&cells, 1) || cells.len() > usize::MAX
        - flags.blocks.len() {
        return None;
    }
    let grid = grid_of(&cells, 1, GridDirection::LeftToRight);
    Some(grid_fit_into_columns(&grid, flags.blocks.len()))
}

/// Draw `metas` as a tree: each entry below its parent with connectors, at
/// most the resolved `max_shown` entries per directory (then a `... and N
/// more` line), non-matching files left out under a tree filter; packed
/// side by side in `term_width` where `tree_columns` asks for it and can be
/// honored. `fallback` says why packing was given up.
pub fn tree(metas: &Vec<Meta>, flags: &Flags, colors: &Colors, term_width: Option<usize>) -> (r:
    TreeRender)
    requires
        tree_fits(metas@, *colors, *flags),
    ensures
        r.output@ == tree_text(metas@, *colors, *flags, term_width),
        r.fallback == columns_fallback(*flags),
{
    let output = match render_tree(metas, flags, colors, term_width) {
        Some(s) => s,
        None => String::new(),
    };
    TreeRender { output, fallback: tree_fallback(flags) }
}

/// `tree`, where drawing completes; `None` where it would leave machine
/// arithmetic or where the vertical layout has no column.
pub fn try_tree(metas: &Vec<Meta>, flags: &Flags, colors: &Colors, term_width: Option<usize>) -> (r:
    Option<TreeRender>)
    ensures
        r is Some <==> tree_fits(metas@, *colors, *flags),
        r matches Some(t) ==> t.output@ == tree_text(metas@, *colors, *flags, term_width)
            && t.fallback == columns_fallback(*flags),
{
    match render_tree(metas, flags, colors, term_width) {
        Some(output) => Some(TreeRender { output, fallback: tree_fallback(flags) }),
        None => None,
    }
}

/// Why packing was given up, if it was asked for.
fn tree_fallback(flags: &Flags) -> (r: Option<TreeColumnsFallback>)
    ensures
        r == columns_fallback(*flags),
{
    if flags.tree_columns.0 {
        if !flags.max_shown.is_set() {
            Some(TreeColumnsFallback::MaxShownUnset)
        } else if flags.blocks.len() > 1 {
            Some(TreeColumnsFallback::MultipleBlocks)
        } else {
            None
        }
    } else {
        None
    }
}


/// Packing is used exactly when asked for with a cap and names only;
/// otherwise a request for it comes back as a fallback.
pub proof fn lemma_columns_gate(flags: Flags)
    ensures
        columns_mode(flags) ==> columns_fallback(flags) is None,
        flags.tree_columns.0 && !columns_mode(flags) ==> columns_fallback(flags) is Some,
        !flags.tree_columns.0 ==> !columns_mode(flags) && columns_fallback(flags) is None,
        flags.tree_columns.0 && flags.max_shown is Auto && flags.blocks@.len() <= 1 ==> columns_mode(
            flags,
        ),
{
}

/// A packing request that cannot be honored changes nothing in the tree:
/// it is drawn, and completes, exactly as without the request; only the
/// fallback (see `columns_fallback`) tells the two apart.
pub proof fn lemma_fallback_draws_vertical(
    metas: Seq<Meta>,
    colors: Colors,
    asked: Flags,
    plain: Flags,
    term_width: Option<usize>,
)
    requires
        same_but_tree_columns(asked, plain),
        columns_fallback(asked) is Some,
        !plain.tree_columns.0,
    ensures
        tree_text(metas, colors, asked, term_width) == tree_text(metas, colors, plain, term_width),
        tree_fits(metas, colors, asked) == tree_fits(metas, colors, plain),
        columns_fallback(plain) is None,
{
    assert(padding_rules_of(metas, asked) == padding_rules_of(metas, plain));
    assert(name_index_from(asked.blocks@, 0) == name_index_from(plain.blocks@, 0));
    assert(tree_cap(metas, asked) == tree_cap(metas, plain));
    lemma_tree_cells_same(
        metas,
        colors,
        asked,
        plain,
        padding_rules_of(metas, asked),
        name_index_from(asked.blocks@, 0) as usize,
        tree_cap(metas, asked),
        false,
        Seq::empty(),
    );
    assert(vertical_cells(metas, colors, asked) == vertical_cells(metas, colors, plain));
}

proof fn lemma_max_line_width(lines: Seq<Seq<char>>, hyperlink: bool, n: int)
    requires
        0 <= n <= lines.len(),
    ensures
        max_line_width(lines, hyperlink, n) <= usize::MAX,
        forall|k: int| 0 <= k < n ==> visible_width(#[trigger] lines[k], hyperlink) <= max_line_width(lines, hyperlink, n),
        n == 0 ==> max_line_width(lines, hyperlink, n) == 0,
        n > 0 ==> exists|k: int| 0 <= k < n && visible_width(#[trigger] lines[k], hyperlink) == max_line_width(lines, hyperlink, n),
    decreases n,
{
    if n > 0 {
        lemma_max_line_width(lines, hyperlink, n - 1);
        lemma_visible_width_bounded(lines[n - 1], hyperlink);
        if max_line_width(lines, hyperlink, n) != visible_width(lines[n - 1], hyperlink) {
            let k = choose|k: int| 0 <= k < n - 1 && visible_width(#[trigger] lines[k], hyperlink) == max_line_width(lines, hyperlink, n - 1);
            assert(visible_width(lines[k], hyperlink) == max_line_width(lines, hyperlink, n));
        }
    }
}

/// A block of lines is as wide as its widest line in visible columns (its
/// Unicode width less escape bytes, not its number of characters): no line
/// is wider, one line is exactly that wide, and no lines make width 0.
pub proof fn lemma_block_width_is_widest_line(lines: Seq<Seq<char>>, hyperlink: bool)
    ensures
        forall|k: int| 0 <= k < lines.len() ==> visible_width(#[trigger] lines[k], hyperlink) <= block_width(lines, hyperlink),
        lines.len() > 0 ==> exists|k: int| 0 <= k < lines.len() && visible_width(#[trigger] lines[k], hyperlink) == block_width(lines, hyperlink),
        lines.len() == 0 ==> block_width(lines, hyperlink) == 0,
{
    lemma_max_line_width(lines, hyperlink, lines.len() as int);
}

/// The width each packed subtree gets is the widest visible width of the
/// lines of its own one-column tree: no line of it is wider, one line is
/// exactly that wide, and a subtree without lines gets width 0.
pub proof fn lemma_columns_widths_are_widest_lines(
    metas: Seq<Meta>,
    colors: Colors,
    flags: Flags,
    cap: Option<usize>,
    i: int,
)
    requires
        0 <= i < metas.len(),
    ensures
        ({
            let lines = subtree_lines(metas[i], colors, flags, cap);
            let w = columns_widths(metas, colors, flags, cap)[i];
            let h = hyperlink_always(flags);
            &&& forall|k: int| 0 <= k < lines.len() ==> visible_width(#[trigger] lines[k], h) <= w
            &&& lines.len() > 0 ==> exists|k: int| 0 <= k < lines.len() && visible_width(#[trigger] lines[k], h) == w
            &&& lines.len() == 0 ==> w == 0
        }),
{
    let lines = subtree_lines(metas[i], colors, flags, cap);
    assert(columns_blocks(metas, colors, flags, cap)[i] == lines);
    lemma_block_width_is_widest_line(lines, hyperlink_always(flags));
}

/// Where more than one entry (or none) is listed, `Auto` caps every level at
/// the number of listed entries, whatever those entries hold; where a single
/// directory is listed, at the number of its children; a single entry that
/// lists no children caps at 1.
pub proof fn lemma_auto_cap_counts_arguments(metas: Seq<Meta>, flags: Flags)
    requires
        flags.max_shown is Auto,
        metas.len() <= usize::MAX,
    ensures
        metas.len() != 1 ==> tree_cap(metas, flags) == Some(metas.len() as usize),
        metas.len() == 1 && metas[0].content is None ==> tree_cap(metas, flags) == Some(1usize),
        metas.len() == 1 && metas[0].content is Some ==> tree_cap(metas, flags) == Some(
            metas[0].content->0@.len() as usize,
        ),
{
}

/// The size alignment covers the whole listing: it is at least the byte
/// length of every listed entry's size value and, in a tree layout, at least
/// the alignment of every listed directory's own contents (so of every
/// entry at any depth); and it is one of those (0 for an empty listing).
pub proof fn lemma_size_alignment_covers_tree(metas: Seq<Meta>, n: int, tree: bool)
    requires
        0 <= n <= metas.len(),
    ensures
        forall|i: int| 0 <= i < n ==> size_value_len(#[trigger] metas[i]) <= list_size_len(metas, n, tree),
        tree ==> forall|i: int|
            0 <= i < n && (#[trigger] metas[i]).content is Some ==> list_size_len(
                metas[i].content->0@,
                metas[i].content->0@.len() as int,
                tree,
            ) <= list_size_len(metas, n, tree),
        n == 0 ==> list_size_len(metas, n, tree) == 0,
        n > 0 ==> exists|i: int|
            0 <= i < n && (list_size_len(metas, n, tree) == size_value_len(#[trigger] metas[i]) || (tree
                && metas[i].content is Some && list_size_len(metas, n, tree) == list_size_len(
                metas[i].content->0@,
                metas[i].content->0@.len() as int,
                tree,
            ))),
    decreases n,
{
    if n > 0 {
        lemma_size_alignment_covers_tree(metas, n - 1, tree);
        let m = metas[n - 1];
        let total = list_size_len(metas, n, tree);
        if total == meta_size_len(m, tree) {
            assert(0 <= n - 1 < n && (total == size_value_len(metas[n - 1]) || (tree && metas[n - 1].content is Some
                && total == list_size_len(metas[n - 1].content->0@, metas[n - 1].content->0@.len() as int, tree))));
        } else {
            let i = choose|i: int|
                0 <= i < n - 1 && (list_size_len(metas, n - 1, tree) == size_value_len(#[trigger] metas[i]) || (tree
                    && metas[i].content is Some && list_size_len(metas, n - 1, tree) == list_size_len(
                    metas[i].content->0@,
                    metas[i].content->0@.len() as int,
                    tree,
                )));
            assert(0 <= i < n);
        }
    }
}

/// The cap resolves once, from the top-level count: `Auto` caps every
/// directory level at the number of top-level entries.
pub proof fn lemma_auto_cap_is_top_count(metas: Seq<Meta>, flags: Flags)
    requires
        flags.max_shown is Auto,
        top_count(metas) <= usize::MAX,
    ensures
        tree_cap(metas, flags) == Some(top_count(metas) as usize),
{
}

/// Directory paths are printed below the top level, and at the top level
/// unless the arguments are one directory (or symlink to one) and nothing else.
pub proof fn lemma_folder_path_shown(depth: usize, metas: Seq<Meta>)
    ensures
        depth > 0 ==> folder_path_shown(depth, metas),
        depth == 0 && metas.len() == 1 ==> (folder_path_shown(depth, metas) <==> !is_dir_like(
            metas[0].file_type,
        )),
        depth == 0 && (exists|i: int| 0 <= i < metas.len() && !is_dir_like(#[trigger] metas[i].file_type))
            ==> folder_path_shown(depth, metas),
{
    if depth == 0 {
        if exists|i: int| 0 <= i < metas.len() && !is_dir_like(#[trigger] metas[i].file_type) {
            let i = choose|i: int| 0 <= i < metas.len() && !is_dir_like(#[trigger] metas[i].file_type);
            lemma_count_dirs_below(metas, metas.len() as int, i);
        }
        if metas.len() == 1 {
            assert(count_dirs(metas, 0) == 0);
        }
    }
}

/// A non-directory among the first `n` entries leaves fewer directories than entries.
proof fn lemma_count_dirs_below(metas: Seq<Meta>, n: int, i: int)
    requires
        0 <= i < n <= metas.len(),
        !is_dir_like(metas[i].file_type),
    ensures
        count_dirs(metas, n) < n,
    decreases n,
{
    if n - 1 == i {
        lemma_count_dirs_le(metas, n - 1);
    } else {
        lemma_count_dirs_below(metas, n - 1, i);
    }
}

} // verus!
