//! Grid rendering: the entries of each directory level laid out in columns
//! (or one per line), each listed directory's contents after its path, one
//! indentation step deeper per level.

use vstd::prelude::*;
use crate::color::Colors;
use crate::display::{
    Cell, PaddingRules, block_text, cells_view, get_output, get_padding_rules, padding_fits,
    padding_rules_of, hyperlink_always, folder_path_shown, folder_path_text,
    should_display_folder_path, display_folder_path, cells_fit, lemma_cells_fit_concat,
};
use crate::flags::{Flags, Layout, Display, HyperlinkOption};
use crate::flags::blocks::{Block, header_of};
use crate::grid::{
    GridDirection, grid_of, grid_fit_into_columns, grid_fit_into_width, within_grid_bounds,
    grid_bounds, term_grid_columns, term_grid_width, widths_sum,
};
use crate::meta::{Meta, FileType, DisplayOption};
use crate::text::{
    append_chars, append_indented, indent_text, repeat_space, spaces, string_from_chars,
    trim_newlines, trim_trailing_newlines, concat3,
};
use crate::tree::push_row;
use crate::width::{get_visible_width, try_get_visible_width, visible_width, width_fits, lemma_plain_text_width};

verus! {

broadcast use vstd::string::group_string_axioms;

/// Whether the top level defers `m` to the listing of its contents: a
/// directory, or (with a single column) a symlink to one, unless the
/// directories themselves are listed.
pub open spec fn deferred(m: Meta, flags: Flags, depth: nat) -> bool {
    depth == 0 && flags.display != Display::DirectoryOnly && (m.file_type is Directory || ((
    m.file_type matches FileType::SymLink { is_dir } && is_dir) && flags.blocks@.len() == 1))
}

/// The cells of one entry of a grid listing: each column's text and width.
pub open spec fn row_cells(
    m: Meta,
    colors: Colors,
    flags: Flags,
    option: DisplayOption,
    padding: Option<usize>,
) -> Seq<(Seq<char>, usize)> {
    Seq::new(
        flags.blocks@.len(),
        |i: int|
            {
                let t = block_text(m, colors, flags, option, padding, 0, Seq::empty(), i);
                (t, visible_width(t, hyperlink_always(flags)) as usize)
            },
    )
}

/// The cells of the first `n` entries of a level that are not deferred.
pub open spec fn level_cells(
    metas: Seq<Meta>,
    colors: Colors,
    flags: Flags,
    option: DisplayOption,
    padding: Option<usize>,
    depth: nat,
    n: int,
) -> Seq<(Seq<char>, usize)>
    decreases n,
{
    if n <= 0 {
        Seq::empty()
    } else {
        level_cells(metas, colors, flags, option, padding, depth, n - 1) + if deferred(
            metas[n - 1],
            flags,
            depth,
        ) {
            Seq::empty()
        } else {
            row_cells(metas[n - 1], colors, flags, option, padding)
        }
    }
}

/// The widest of the first `n` cells in column `col` of `ncols`, or `init`.
pub open spec fn column_width(
    cells: Seq<(Seq<char>, usize)>,
    ncols: int,
    col: int,
    init: usize,
    n: int,
) -> usize
    decreases n,
{
    if n <= 0 {
        init
    } else {
        let rest = column_width(cells, ncols, col, init, n - 1);
        if (n - 1) % ncols == col && cells[n - 1].1 > rest {
            cells[n - 1].1
        } else {
            rest
        }
    }
}

/// The width of column `col`: its title's and its widest cell's.
pub open spec fn header_width(flags: Flags, cells: Seq<(Seq<char>, usize)>, col: int) -> usize {
    column_width(
        cells,
        flags.blocks@.len() as int,
        col,
        visible_width(header_of(flags.blocks@[col]), hyperlink_always(flags)) as usize,
        cells.len() as int,
    )
}

/// `s` centered in `w` characters (extra space on the right).
pub open spec fn center(s: Seq<char>, w: usize) -> Seq<char> {
    if s.len() < w {
        let pad = (w - s.len()) as nat;
        spaces(pad / 2) + s + spaces((pad + 1) / 2)
    } else {
        s
    }
}

/// `s` underlined by ANSI escapes: the SGR codes for underline and for reset
/// around it.
pub open spec fn underlined(s: Seq<char>) -> Seq<char> {
    seq!['\x1b', '[', '4', 'm'] + s + seq!['\x1b', '[', '0', 'm']
}

/// A column title as it came back from styling: underlined, or (on a console
/// that takes no ANSI escapes) empty.
pub open spec fn header_text(s: Seq<char>, styled: bool) -> Seq<char> {
    if styled {
        underlined(s)
    } else {
        Seq::empty()
    }
}

/// Which column titles of a grid listing came back underlined, the others
/// having come back empty: `level` for the header row of the level itself,
/// `subs[k]` for the listing of the contents of its `k`-th entry.
pub struct HeaderStyling {
    pub level: Seq<bool>,
    pub subs: Seq<HeaderStyling>,
}

/// The header row: each column's title, centered, as styling gave it back
/// (`styled[col]`: underlined, else empty).
pub open spec fn header_cells(flags: Flags, cells: Seq<(Seq<char>, usize)>, styled: Seq<bool>) -> Seq<
    (Seq<char>, usize),
> {
    Seq::new(
        flags.blocks@.len(),
        |col: int|
            {
                let w = header_width(flags, cells, col);
                (header_text(center(header_of(flags.blocks@[col]), w), styled[col]), w)
            },
    )
}

/// Whether a level gets a header row: asked for, one entry per line, and
/// something to head.
pub open spec fn has_header(flags: Flags, cells: Seq<(Seq<char>, usize)>) -> bool {
    flags.header && flags.layout == Layout::OneLine && cells.len() > 0
}

/// The cells of a level, after the header row where one is asked for.
pub open spec fn with_header(flags: Flags, cells: Seq<(Seq<char>, usize)>, styled: Seq<bool>) -> Seq<
    (Seq<char>, usize),
> {
    if has_header(flags, cells) {
        header_cells(flags, cells, styled) + cells
    } else {
        cells
    }
}

/// The spaces between grid columns: one per line-listing, two otherwise.
pub open spec fn grid_spaces(flags: Flags) -> usize {
    if flags.layout == Layout::OneLine { 1 } else { 2 }
}

/// The indentation of the contents at `depth`.
pub open spec fn content_indent(depth: nat) -> nat {
    (depth + 1) * 2
}

/// The width available at `depth`: the terminal's less the indentation.
pub open spec fn effective_width(term_width: Option<usize>, depth: nat) -> Option<usize> {
    if depth > 0 {
        match term_width {
            Some(w) => Some(if w >= content_indent(depth) { (w - content_indent(depth)) as usize } else { 0usize }),
            None => None,
        }
    } else {
        term_width
    }
}

/// The cells of a level laid out: within the available width for a grid
/// (one column where that fails or the width is unknown), else one entry
/// per line.
pub open spec fn level_layout(
    cells: Seq<(Seq<char>, usize)>,
    flags: Flags,
    depth: nat,
    term_width: Option<usize>,
) -> Seq<char> {
    let sp = grid_spaces(flags);
    let ltr = flags.layout == Layout::OneLine;
    if flags.layout == Layout::Grid {
        match effective_width(term_width, depth) {
            Some(tw) => match term_grid_width(cells, sp, ltr, tw) {
                Some(t) => t,
                None => term_grid_columns(cells, sp, ltr, 1),
            },
            None => term_grid_columns(cells, sp, ltr, 1),
        }
    } else {
        term_grid_columns(cells, sp, ltr, flags.blocks@.len() as usize)
    }
}

/// The cells of a level, header included.
pub open spec fn level_all_cells(
    metas: Seq<Meta>,
    colors: Colors,
    flags: Flags,
    option: DisplayOption,
    depth: nat,
    styled: Seq<bool>,
) -> Seq<(Seq<char>, usize)> {
    with_header(
        flags,
        level_cells(
            metas,
            colors,
            flags,
            option,
            padding_rules_of(metas, flags),
            depth,
            metas.len() as int,
        ),
        styled,
    )
}

/// The entries of one level laid out, indented below the top.
pub open spec fn level_text(
    metas: Seq<Meta>,
    colors: Colors,
    flags: Flags,
    option: DisplayOption,
    depth: nat,
    term_width: Option<usize>,
    styled: Seq<bool>,
) -> Seq<char> {
    let g = level_layout(
        level_all_cells(metas, colors, flags, option, depth, styled),
        flags,
        depth,
        term_width,
    );
    if depth > 0 {
        indent_text(g, spaces(content_indent(depth)))
    } else {
        g
    }
}

/// A grid listing of `metas` at `depth`: the level's entries, then each
/// listed directory's contents (after its path, where paths are shown); `hs`
/// says which column titles came back underlined.
pub open spec fn grid_text(
    option: DisplayOption,
    metas: Seq<Meta>,
    colors: Colors,
    flags: Flags,
    depth: nat,
    term_width: Option<usize>,
    hs: HeaderStyling,
) -> Seq<char>
    decreases metas, metas.len() + 1,
{
    folders_text(
        metas,
        colors,
        flags,
        depth,
        term_width,
        folder_path_shown(depth as usize, metas),
        hs.subs,
        level_text(metas, colors, flags, option, depth, term_width, hs.level),
        metas.len() as int,
    )
}

/// `acc` followed by the contents of each listed directory among the first
/// `n` of `metas` (the `k`-th styled by `subs[k]`); before each, where
/// `show`, the output so far loses its trailing newlines and gets one newline
/// and the directory's path line.
pub open spec fn folders_text(
    metas: Seq<Meta>,
    colors: Colors,
    flags: Flags,
    depth: nat,
    term_width: Option<usize>,
    show: bool,
    subs: Seq<HeaderStyling>,
    acc: Seq<char>,
    n: int,
) -> Seq<char>
    decreases metas, n,
{
    if n <= 0 || n > metas.len() {
        acc
    } else {
        let before = folders_text(metas, colors, flags, depth, term_width, show, subs, acc, n - 1);
        match metas[n - 1].content {
            Some(c) => {
                let a = if show {
                    trim_newlines(before) + seq!['\n'] + folder_path_text(metas[n - 1].path@, depth)
                } else {
                    before
                };
                a + grid_text(
                    DisplayOption::Relative,
                    c@,
                    colors,
                    flags,
                    depth + 1,
                    term_width,
                    subs[n - 1],
                )
            },
            None => before,
        }
    }
}

/// Whether the layout of one level completes: the widths of its entries'
/// cells can be measured, its indentation and its grid stay within machine
/// arithmetic, and it has a column to lay entries out in. (Only the
/// widths of the title cells count here, and those do not depend on how the
/// titles came back styled.)
pub open spec fn level_fits(
    metas: Seq<Meta>,
    colors: Colors,
    flags: Flags,
    option: DisplayOption,
    depth: nat,
) -> bool {
    let cells = level_all_cells(metas, colors, flags, option, depth, Seq::empty());
    let columns = if flags.layout == Layout::Grid { 1 } else { flags.blocks@.len() };
    &&& cells_fit(
        level_cells(metas, colors, flags, option, padding_rules_of(metas, flags), depth, metas.len() as int),
        hyperlink_always(flags),
    )
    &&& content_indent(depth) <= usize::MAX
    &&& columns > 0
    &&& grid_bounds(cells, grid_spaces(flags))
    &&& cells.len() + columns <= usize::MAX
}

/// Whether the grid listing of `metas` at `depth` completes, with every
/// listed directory below.
pub open spec fn grid_fits(
    option: DisplayOption,
    metas: Seq<Meta>,
    colors: Colors,
    flags: Flags,
    depth: nat,
) -> bool
    decreases metas, metas.len() + 1,
{
    level_fits(metas, colors, flags, option, depth) && folders_fit(metas, colors, flags, depth, 0)
}

/// Whether the listings of the directories among `metas[k..]` complete.
pub open spec fn folders_fit(metas: Seq<Meta>, colors: Colors, flags: Flags, depth: nat, k: int) -> bool
    decreases metas, metas.len() - k,
{
    if k < 0 || k >= metas.len() {
        true
    } else {
        (match metas[k].content {
            Some(c) => grid_fits(DisplayOption::Relative, c@, colors, flags, depth + 1),
            None => true,
        }) && folders_fit(metas, colors, flags, depth, k + 1)
    }
}


/// Where directories themselves are listed, and at every level below the
/// top, no entry is held back: the level's cells are each entry's row of
/// cells, one row per entry, in order (directories included).
pub proof fn lemma_every_entry_gets_its_row(
    metas: Seq<Meta>,
    colors: Colors,
    flags: Flags,
    option: DisplayOption,
    padding: Option<usize>,
    depth: nat,
    n: int,
)
    requires
        flags.display == Display::DirectoryOnly || depth > 0,
        0 <= n <= metas.len(),
    ensures
        level_cells(metas, colors, flags, option, padding, depth, n).len() == n * flags.blocks@.len(),
        forall|i: int|
            0 <= i < n ==> level_cells(metas, colors, flags, option, padding, depth, n).subrange(
                i * flags.blocks@.len(),
                i * flags.blocks@.len() + flags.blocks@.len(),
            ) == #[trigger] row_cells(metas[i], colors, flags, option, padding),
    decreases n,
{
    let b = flags.blocks@.len() as int;
    if n > 0 {
        lemma_every_entry_gets_its_row(metas, colors, flags, option, padding, depth, n - 1);
        let prev = level_cells(metas, colors, flags, option, padding, depth, n - 1);
        let row = row_cells(metas[n - 1], colors, flags, option, padding);
        let all = level_cells(metas, colors, flags, option, padding, depth, n);
        assert(!deferred(metas[n - 1], flags, depth));
        assert(all == prev + row);
        assert((n - 1) * b + b == n * b) by (nonlinear_arith);
        assert forall|i: int| 0 <= i < n implies all.subrange(i * b, i * b + b) == #[trigger] row_cells(
            metas[i],
            colors,
            flags,
            option,
            padding,
        ) by {
            if i < n - 1 {
                assert(i * b + b <= (n - 1) * b) by (nonlinear_arith)
                    requires
                        i < n - 1,
                        b >= 0,
                ;
                assert(0 <= i * b) by (nonlinear_arith)
                    requires
                        i >= 0,
                        b >= 0,
                ;
                assert(all.subrange(i * b, i * b + b) =~= prev.subrange(i * b, i * b + b));
            } else {
                assert(all.subrange(i * b, i * b + b) =~= row);
            }
        }
    } else {
        assert(0 * b == 0) by (nonlinear_arith);
    }
}

/// Whether `m` is deferred at `depth`.
fn is_deferred(m: &Meta, flags: &Flags, depth: usize) -> (b: bool)
    ensures
        b == deferred(*m, *flags, depth as nat),
{
    let skip_dirs = depth == 0 && flags.display != Display::DirectoryOnly;
    let dir = match m.file_type {
        FileType::Directory => true,
        _ => false,
    };
    let dir_link = match m.file_type {
        FileType::SymLink { is_dir } => is_dir,
        _ => false,
    };
    skip_dirs && (dir || dir_link && flags.blocks.len() == 1)
}

/// The cells of the entries of a level that are not deferred; `None` where
/// the width of a cell's text cannot be measured.
fn collect_level_cells(
    metas: &Vec<Meta>,
    colors: &Colors,
    flags: &Flags,
    option: DisplayOption,
    padding_rules: &PaddingRules,
    depth: usize,
) -> (r: Option<Vec<Cell>>)
    requires
        padding_fits(*flags, 0, padding_rules.size_value),
    ensures
        r is Some <==> cells_fit(
            level_cells(
                metas@,
                *colors,
                *flags,
                option,
                padding_rules.size_value,
                depth as nat,
                metas@.len() as int,
            ),
            hyperlink_always(*flags),
        ),
        r matches Some(cells) ==> cells_view(cells@) == level_cells(
            metas@,
            *colors,
            *flags,
            option,
            padding_rules.size_value,
            depth as nat,
            metas@.len() as int,
        ),
{
    let hyperlink = flags.hyperlink == HyperlinkOption::Always;
    proof {
        reveal_strlit("");
        assert(""@ =~= Seq::<char>::empty());
    }
    let mut cells: Vec<Cell> = Vec::new();
    let mut i: usize = 0;
    while i < metas.len()
        invariant
            i <= metas@.len(),
            padding_fits(*flags, 0, padding_rules.size_value),
            hyperlink == hyperlink_always(*flags),
            ""@ == Seq::<char>::empty(),
            cells_fit(cells_view(cells@), hyperlink),
            cells_view(cells@) == level_cells(
                metas@,
                *colors,
                *flags,
                option,
                padding_rules.size_value,
                depth as nat,
                i as int,
            ),
        decreases metas@.len() - i,
    {
        let meta = &metas[i];
        let ghost row = row_cells(*meta, *colors, *flags, option, padding_rules.size_value);
        if !is_deferred(meta, flags, depth) {
            let ghost before = cells_view(cells@);
            let texts = get_output(meta, colors, flags, option, padding_rules, 0, "");
            let ghost tv = texts@;
            assert(level_cells(
                metas@,
                *colors,
                *flags,
                option,
                padding_rules.size_value,
                depth as nat,
                i + 1,
            ) == before + row);
            if !push_row(&mut cells, texts, hyperlink) {
                proof {
                    let t = choose|t: int| 0 <= t < tv.len() && !width_fits(#[trigger] tv[t]@, hyperlink);
                    assert(row[t].0 == tv[t]@);
                    lemma_cells_fit_concat(before, row, hyperlink);
                    lemma_level_cells_fit_grows(
                        metas@,
                        *colors,
                        *flags,
                        option,
                        padding_rules.size_value,
                        depth as nat,
                        i + 1,
                        metas@.len() as int,
                    );
                }
                return None;
            }
            assert(cells_view(cells@) =~= before + row);
            assert forall|t: int| 0 <= t < row.len() implies width_fits(#[trigger] row[t].0, hyperlink) by {
                assert(row[t].0 == tv[t]@);
            }
            proof {
                lemma_cells_fit_concat(before, row, hyperlink);
            }
        } else {
            assert(cells_view(cells@) =~= cells_view(cells@) + Seq::<(Seq<char>, usize)>::empty());
        }
        i = i + 1;
    }
    Some(cells)
}

/// Where the cells of the first `k` entries cannot all be measured, neither
/// can those of the first `n >= k`.
proof fn lemma_level_cells_fit_grows(
    metas: Seq<Meta>,
    colors: Colors,
    flags: Flags,
    option: DisplayOption,
    padding: Option<usize>,
    depth: nat,
    k: int,
    n: int,
)
    requires
        k <= n,
    ensures
        cells_fit(level_cells(metas, colors, flags, option, padding, depth, n), hyperlink_always(flags))
            ==> cells_fit(level_cells(metas, colors, flags, option, padding, depth, k), hyperlink_always(flags)),
    decreases n - k,
{
    if k < n {
        lemma_level_cells_fit_grows(metas, colors, flags, option, padding, depth, k, n - 1);
        if n > 0 {
            let prev = level_cells(metas, colors, flags, option, padding, depth, n - 1);
            let add = if deferred(metas[n - 1], flags, depth) {
                Seq::empty()
            } else {
                row_cells(metas[n - 1], colors, flags, option, padding)
            };
            assert(level_cells(metas, colors, flags, option, padding, depth, n) == prev + add);
            lemma_cells_fit_concat(prev, add, hyperlink_always(flags));
        }
    }
}

/// With no columns, a level has no cells.
proof fn lemma_level_cells_no_columns(
    metas: Seq<Meta>,
    colors: Colors,
    flags: Flags,
    option: DisplayOption,
    padding: Option<usize>,
    depth: nat,
    n: int,
)
    requires
        flags.blocks@.len() == 0,
    ensures
        level_cells(metas, colors, flags, option, padding, depth, n).len() == 0,
    decreases n,
{
    if n > 0 {
        lemma_level_cells_no_columns(metas, colors, flags, option, padding, depth, n - 1);
    }
}

/// Calls crossterm's `Stylize::attribute` with `Attribute::Underlined` on `s`
/// and writes the styled text out. Where the terminal takes ANSI escapes
/// (always, outside Windows) crossterm writes the SGR code for underline, `s`
/// and the SGR code for reset; on a Windows console without ANSI support it
/// writes nothing. Which of the two happens is not stated.
#[verifier::external_body]
fn underline(s: String) -> (r: String)
    ensures
        r@ == underlined(s@) || r@.len() == 0,
{
    crossterm::style::Stylize::attribute(s, crossterm::style::Attribute::Underlined).to_string()
}

/// Equal widths give equal sums.
proof fn lemma_widths_sum_same(a: Seq<(Seq<char>, usize)>, b: Seq<(Seq<char>, usize)>)
    requires
        a.len() == b.len(),
        forall|i: int| 0 <= i < a.len() ==> #[trigger] a[i].1 == b[i].1,
    ensures
        widths_sum(a) == widths_sum(b),
    decreases a.len(),
{
    if a.len() > 0 {
        lemma_widths_sum_same(a.drop_last(), b.drop_last());
    }
}

/// The cells of a level take the same room however their titles came back.
proof fn lemma_with_header_room(
    flags: Flags,
    cells: Seq<(Seq<char>, usize)>,
    s1: Seq<bool>,
    s2: Seq<bool>,
)
    ensures
        with_header(flags, cells, s1).len() == with_header(flags, cells, s2).len(),
        widths_sum(with_header(flags, cells, s1)) == widths_sum(with_header(flags, cells, s2)),
{
    let a = with_header(flags, cells, s1);
    let b = with_header(flags, cells, s2);
    if has_header(flags, cells) {
        let h1 = header_cells(flags, cells, s1);
        let h2 = header_cells(flags, cells, s2);
        assert forall|i: int| 0 <= i < a.len() implies #[trigger] a[i].1 == b[i].1 by {
            if i < h1.len() {
                assert(a[i] == h1[i]);
                assert(b[i] == h2[i]);
            } else {
                assert(a[i] == cells[i - h1.len()]);
                assert(b[i] == cells[i - h2.len()]);
            }
        }
    }
    lemma_widths_sum_same(a, b);
}

/// `s` centered in `w` characters.
fn center_text(s: &str, w: usize) -> (r: String)
    ensures
        r@ == center(s@, w),
{
    let len = s.unicode_len();
    if len < w {
        let pad = w - len;
        let left = repeat_space(pad / 2);
        let right = repeat_space(pad - pad / 2);
        assert(pad - pad / 2 == (pad + 1) / 2);
        concat3(left.as_str(), s, right.as_str())
    } else {
        s.to_string()
    }
}

/// Column titles hold no escape character.
proof fn lemma_header_plain(b: Block)
    ensures
        forall|i: int| 0 <= i < header_of(b).len() ==> #[trigger] header_of(b)[i] != '\x1b',
{
}

/// The header row for the cells of a level, and which titles came back
/// underlined.
fn add_header(flags: &Flags, cells: &Vec<Cell>) -> (r: (Vec<Cell>, Ghost<Seq<bool>>))
    requires
        flags.blocks@.len() > 0,
    ensures
        cells_view(r.0@) == header_cells(*flags, cells_view(cells@), r.1@),
{
    let hyperlink = flags.hyperlink == HyperlinkOption::Always;
    let num_columns = flags.blocks.len();
    let ghost cv = cells_view(cells@);
    let mut widths: Vec<usize> = Vec::new();
    let mut b: usize = 0;
    while b < num_columns
        invariant
            b <= num_columns == flags.blocks@.len(),
            hyperlink == hyperlink_always(*flags),
            widths@.len() == b,
            forall|c: int|
                0 <= c < b ==> #[trigger] widths@[c] == visible_width(
                    header_of(flags.blocks@[c]),
                    hyperlink,
                ) as usize,
        decreases num_columns - b,
    {
        proof {
            lemma_header_plain(flags.blocks@[b as int]);
            lemma_plain_text_width(header_of(flags.blocks@[b as int]), hyperlink);
        }
        let w = get_visible_width(flags.blocks[b].get_header(), hyperlink);
        widths.push(w);
        b = b + 1;
    }
    let ghost init = widths@;
    // find the widest cell of each column
    let mut k: usize = 0;
    while k < cells.len()
        invariant
            k <= cells@.len(),
            num_columns == flags.blocks@.len() > 0,
            cv == cells_view(cells@),
            widths@.len() == num_columns,
            init.len() == num_columns,
            forall|c: int|
                0 <= c < num_columns ==> #[trigger] widths@[c] == column_width(
                    cv,
                    num_columns as int,
                    c,
                    init[c],
                    k as int,
                ),
        decreases cells@.len() - k,
    {
        let col = k % num_columns;
        let w = cells[k].width;
        if w > widths[col] {
            widths.set(col, w);
        }
        assert forall|c: int| 0 <= c < num_columns implies #[trigger] widths@[c] == column_width(
            cv,
            num_columns as int,
            c,
            init[c],
            k + 1,
        ) by {
            assert(cv[k as int].1 == cells@[k as int].width);
        }
        k = k + 1;
    }
    let mut header: Vec<Cell> = Vec::new();
    let ghost mut styled: Seq<bool> = Seq::empty();
    let mut idx: usize = 0;
    while idx < num_columns
        invariant
            idx <= num_columns == flags.blocks@.len(),
            hyperlink == hyperlink_always(*flags),
            cv == cells_view(cells@),
            widths@.len() == num_columns,
            forall|c: int|
                0 <= c < num_columns ==> #[trigger] widths@[c] == column_width(
                    cv,
                    num_columns as int,
                    c,
                    init[c],
                    cv.len() as int,
                ),
            forall|c: int|
                0 <= c < num_columns ==> #[trigger] init[c] == visible_width(
                    header_of(flags.blocks@[c]),
                    hyperlink,
                ) as usize,
            init.len() == num_columns,
            styled.len() == idx,
            cells_view(header@) == Seq::new(
                idx as nat,
                |c: int| header_cells(*flags, cv, styled)[c],
            ),
        decreases num_columns - idx,
    {
        let w = widths[idx];
        assert(w == header_width(*flags, cv, idx as int));
        let centered = center_text(flags.blocks[idx].get_header(), w);
        let ghost title = centered@;
        let underlined_header = underline(centered);
        let ghost is_styled = underlined_header@ == underlined(title);
        assert(underlined_header@ == header_text(title, is_styled));
        let ghost before = cells_view(header@);
        let ghost old_styled = styled;
        proof {
            styled = styled.push(is_styled);
        }
        assert forall|c: int| 0 <= c < idx implies header_cells(*flags, cv, styled)[c]
            == header_cells(*flags, cv, old_styled)[c] by {
            assert(styled[c] == old_styled[c]);
        }
        assert(header_cells(*flags, cv, styled)[idx as int] == (underlined_header@, w));
        header.push(Cell { contents: underlined_header, width: w });
        assert(cells_view(header@) =~= before.push((underlined_header@, w)));
        assert(cells_view(header@) =~= Seq::new(
            (idx + 1) as nat,
            |c: int| header_cells(*flags, cv, styled)[c],
        ));
        idx = idx + 1;
    }
    assert(cells_view(header@) =~= header_cells(*flags, cv, styled));
    (header, Ghost(styled))
}


/// Later styling choices do not change the text of the first `n` entries.
proof fn lemma_folders_text_frame(
    metas: Seq<Meta>,
    colors: Colors,
    flags: Flags,
    depth: nat,
    term_width: Option<usize>,
    show: bool,
    s1: Seq<HeaderStyling>,
    s2: Seq<HeaderStyling>,
    acc: Seq<char>,
    n: int,
)
    requires
        forall|j: int| 0 <= j < n ==> #[trigger] s1[j] == s2[j],
    ensures
        folders_text(metas, colors, flags, depth, term_width, show, s1, acc, n) == folders_text(
            metas,
            colors,
            flags,
            depth,
            term_width,
            show,
            s2,
            acc,
            n,
        ),
    decreases n,
{
    if n > 0 && n <= metas.len() {
        lemma_folders_text_frame(metas, colors, flags, depth, term_width, show, s1, s2, acc, n - 1);
        assert(s1[n - 1] == s2[n - 1]);
    }
}

/// A grid listing of `metas` at `depth`, or `None` where it would not
/// complete (see `grid_text`), and which column titles came back underlined.
fn inner_display_grid(
    option: DisplayOption,
    metas: &Vec<Meta>,
    colors: &Colors,
    flags: &Flags,
    depth: usize,
    term_width: Option<usize>,
) -> (r: (Option<Vec<char>>, Ghost<HeaderStyling>))
    ensures
        r.0 is Some <==> grid_fits(option, metas@, *colors, *flags, depth as nat),
        r.0 matches Some(v) ==> v@ == grid_text(
            option,
            metas@,
            *colors,
            *flags,
            depth as nat,
            term_width,
            r.1@,
        ),
    decreases metas@, 1nat,
{
    let ghost unstyled = HeaderStyling { level: Seq::empty(), subs: Seq::empty() };
    if depth >= usize::MAX / 2 {
        return (None, Ghost(unstyled));
    }
    let padding_rules = get_padding_rules(metas, flags);
    let cells = match collect_level_cells(metas, colors, flags, option, &padding_rules, depth) {
        Some(cells) => cells,
        None => {
            return (None, Ghost(unstyled));
        },
    };
    let ghost level = level_cells(
        metas@,
        *colors,
        *flags,
        option,
        padding_rules.size_value,
        depth as nat,
        metas@.len() as int,
    );
    let ghost mut level_styled: Seq<bool> = Seq::empty();
    let all = if flags.header && flags.layout == Layout::OneLine && cells.len() > 0 {
        proof {
            if flags.blocks@.len() == 0 {
                lemma_level_cells_no_columns(
                    metas@,
                    *colors,
                    *flags,
                    option,
                    padding_rules.size_value,
                    depth as nat,
                    metas@.len() as int,
                );
            }
        }
        let (mut all, Ghost(st)) = add_header(flags, &cells);
        proof {
            level_styled = st;
        }
        let ghost h = cells_view(all@);
        let mut rest = cells;
        all.append(&mut rest);
        assert(cells_view(all@) =~= h + level);
        all
    } else {
        cells
    };
    assert(cells_view(all@) == level_all_cells(metas@, *colors, *flags, option, depth as nat, level_styled));
    proof {
        lemma_with_header_room(*flags, level, level_styled, Seq::empty());
    }
    let one_line = flags.layout == Layout::OneLine;
    let spaces: usize = if one_line { 1 } else { 2 };
    let direction = if one_line { GridDirection::LeftToRight } else { GridDirection::TopToBottom };
    let columns = if flags.layout == Layout::Grid { 1 } else { flags.blocks.len() };
    if columns == 0 || !within_grid_bounds(&all, spaces) || all.len() > usize::MAX - columns {
        return (None, Ghost(unstyled));
    }
    let grid = grid_of(&all, spaces, direction);
    let grid_str = if flags.layout == Layout::Grid {
        let effective_width = if depth > 0 {
            let content_indent = (depth + 1) * 2;
            match term_width {
                Some(w) => Some(w.saturating_sub(content_indent)),
                None => None,
            }
        } else {
            term_width
        };
        match effective_width {
            Some(tw) => match grid_fit_into_width(&grid, tw) {
                Some(gridded_output) => gridded_output,
                None => grid_fit_into_columns(&grid, 1),
            },
            None => grid_fit_into_columns(&grid, 1),
        }
    } else {
        grid_fit_into_columns(&grid, flags.blocks.len())
    };
    let mut output: Vec<char> = Vec::new();
    if depth > 0 {
        let content_prefix = repeat_space((depth + 1) * 2);
        append_indented(&mut output, grid_str.as_str(), content_prefix.as_str());
    } else {
        append_chars(&mut output, grid_str.as_str());
    }
    assert(output@ =~= level_text(
        metas@,
        *colors,
        *flags,
        option,
        depth as nat,
        term_width,
        level_styled,
    ));
    let show = should_display_folder_path(depth, metas);
    let ghost level_out = output@;
    let ghost mut subs: Seq<HeaderStyling> = Seq::empty();
    // the contents of each listed directory
    let mut k: usize = 0;
    while k < metas.len()
        invariant
            k <= metas@.len(),
            depth < usize::MAX / 2,
            show == folder_path_shown(depth, metas@),
            subs.len() == k,
            output@ == folders_text(
                metas@,
                *colors,
                *flags,
                depth as nat,
                term_width,
                show,
                subs,
                level_out,
                k as int,
            ),
            folders_fit(metas@, *colors, *flags, depth as nat, 0) == folders_fit(
                metas@,
                *colors,
                *flags,
                depth as nat,
                k as int,
            ),
        decreases metas@.len() - k,
    {
        let ghost before = output@;
        let ghost old_subs = subs;
        match &metas[k].content {
            Some(content) => {
                if show {
                    trim_trailing_newlines(&mut output);
                    output.push('\n');
                    let path_line = display_folder_path(&metas[k], depth);
                    append_chars(&mut output, path_line.as_str());
                }
                proof {
                    assert(decreases_to!(metas@ => metas@[k as int]));
                }
                let (sub_out, Ghost(sub_styling)) = inner_display_grid(
                    DisplayOption::Relative,
                    content,
                    colors,
                    flags,
                    depth + 1,
                    term_width,
                );
                match sub_out {
                    Some(sub) => {
                        let mut sub = sub;
                        let ghost sv = sub@;
                        let ghost mid = output@;
                        output.append(&mut sub);
                        assert(output@ =~= mid + sv);
                        proof {
                            subs = subs.push(sub_styling);
                            lemma_folders_text_frame(
                                metas@,
                                *colors,
                                *flags,
                                depth as nat,
                                term_width,
                                show,
                                subs,
                                old_subs,
                                level_out,
                                k as int,
                            );
                        }
                        let ghost a = if show {
                            trim_newlines(before) + seq!['\n'] + folder_path_text(
                                metas@[k as int].path@,
                                depth as nat,
                            )
                        } else {
                            before
                        };
                        assert(mid =~= a);
                        assert(subs[k as int] == sub_styling);
                    },
                    None => {
                        return (None, Ghost(unstyled));
                    },
                }
            },
            None => {
                proof {
                    subs = subs.push(unstyled);
                    lemma_folders_text_frame(
                        metas@,
                        *colors,
                        *flags,
                        depth as nat,
                        term_width,
                        show,
                        subs,
                        old_subs,
                        level_out,
                        k as int,
                    );
                }
            },
        }
        k = k + 1;
    }
    let ghost hs = HeaderStyling { level: level_styled, subs };
    assert(output@ == grid_text(option, metas@, *colors, *flags, depth as nat, term_width, hs));
    (Some(output), Ghost(hs))
}

/// Lay `metas` out as a grid (or one entry per line): the files given first,
/// then each given directory's contents after its path, one indentation step
/// deeper per level, each level fitted to `term_width` less its indentation.
/// Column titles come back from styling underlined (or, on a console without
/// ANSI escapes, empty); the `hs` of the contract records which.
pub fn grid(metas: &Vec<Meta>, flags: &Flags, colors: &Colors, term_width: Option<usize>) -> (r:
    String)
    requires
        grid_fits(DisplayOption::AsGiven, metas@, *colors, *flags, 0),
    ensures
        exists|hs: HeaderStyling|
            r@ == grid_text(DisplayOption::AsGiven, metas@, *colors, *flags, 0, term_width, hs),
{
    let (out, Ghost(hs)) = inner_display_grid(DisplayOption::AsGiven, metas, colors, flags, 0, term_width);
    match out {
        Some(v) => {
            let r = string_from_chars(&v);
            assert(r@ == grid_text(DisplayOption::AsGiven, metas@, *colors, *flags, 0, term_width, hs));
            r
        },
        None => String::new(),
    }
}

/// `grid`, where the listing completes; `None` where it would leave machine
/// arithmetic or a line listing has no column.
pub fn try_grid(metas: &Vec<Meta>, flags: &Flags, colors: &Colors, term_width: Option<usize>) -> (r:
    Option<String>)
    ensures
        r is Some <==> grid_fits(DisplayOption::AsGiven, metas@, *colors, *flags, 0),
        r matches Some(s) ==> exists|hs: HeaderStyling|
            s@ == grid_text(DisplayOption::AsGiven, metas@, *colors, *flags, 0, term_width, hs),
{
    let (out, Ghost(hs)) = inner_display_grid(DisplayOption::AsGiven, metas, colors, flags, 0, term_width);
    match out {
        Some(v) => {
            let r = string_from_chars(&v);
            assert(r@ == grid_text(DisplayOption::AsGiven, metas@, *colors, *flags, 0, term_width, hs));
            Some(r)
        },
        None => None,
    }
}

} // verus!
