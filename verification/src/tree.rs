//! Tree rendering: each entry on its own line, below its parent, drawn with
//! connectors, with an optional cap on the entries shown per directory.

use vstd::prelude::*;
use crate::color::{Colors, Elem, styled};
use crate::display::{
    Cell, PaddingRules, block_text, cells_view, get_output, padding_fits, hyperlink_always,
    extend_cells, cells_fit, lemma_cells_fit_concat,
};
use crate::flags::{Flags, HyperlinkOption};
use crate::meta::{Meta, DisplayOption, is_dir_like, dir_like};
use crate::text::{concat2, concat3, decimal, decimal_string};
use crate::width::{try_get_visible_width, visible_width, width_fits};

verus! {

broadcast use vstd::string::group_string_axioms;

/// `├──`, before an entry that has later siblings.
pub open spec fn edge() -> Seq<char> {
    seq!['\u{251c}', '\u{2500}', '\u{2500}']
}

/// `│  `, before the children of an entry that has later siblings.
pub open spec fn line() -> Seq<char> {
    seq!['\u{2502}', ' ', ' ']
}

/// `└──`, before the last entry of a directory.
pub open spec fn corner() -> Seq<char> {
    seq!['\u{2514}', '\u{2500}', '\u{2500}']
}

/// Three spaces, before the children of a last entry.
pub open spec fn blank() -> Seq<char> {
    seq![' ', ' ', ' ']
}

/// The connector before an entry: none at the top level, else `└── ` for
/// the last entry of a directory and `├── ` for the others.
pub open spec fn entry_prefix(nested: bool, is_last: bool, prefix: Seq<char>) -> Seq<char> {
    if nested {
        prefix + (if is_last { corner() } else { edge() }) + seq![' ']
    } else {
        prefix
    }
}

/// The connector that an entry's children continue: at the top level the
/// prefix itself, else `    ` below a last entry and `│   ` below the others.
pub open spec fn child_prefix(nested: bool, is_last: bool, prefix: Seq<char>) -> Seq<char> {
    if nested {
        prefix + (if is_last { blank() } else { line() }) + seq![' ']
    } else {
        prefix
    }
}

/// The rows of entry `m` and then of its children.
pub open spec fn entry_rows(
    m: Meta,
    colors: Colors,
    flags: Flags,
    padding: Option<usize>,
    tree_index: usize,
    cap: Option<usize>,
    nested: bool,
    is_last: bool,
    prefix: Seq<char>,
) -> Seq<(Seq<char>, usize)>
    decreases m, 0int, 0nat,
{
    let own = entry_cells(m, colors, flags, padding, tree_index, entry_prefix(nested, is_last, prefix));
    let sub = match m.content {
        Some(c) => tree_cells(
            c@,
            colors,
            flags,
            padding,
            tree_index,
            cap,
            true,
            child_prefix(nested, is_last, prefix),
        ),
        None => Seq::empty(),
    };
    own + sub
}

/// Whether the tree filter lets `m` through: directories always, other
/// entries only where their name matches a set filter.
pub open spec fn kept(m: Meta, flags: Flags) -> bool {
    !flags.tree_filter || is_dir_like(m.file_type) || m.tree_filter_match
}

/// The positions, in order, of the entries among the first `n` of `metas`
/// that the tree filter lets through.
pub open spec fn kept_indices(metas: Seq<Meta>, n: int, flags: Flags) -> Seq<int>
    decreases n,
{
    if n <= 0 {
        Seq::<int>::empty()
    } else {
        let rest = kept_indices(metas, n - 1, flags);
        if kept(metas[n - 1], flags) {
            rest.push(n - 1)
        } else {
            rest
        }
    }
}

/// How many of `count` entries a directory shows under `cap`.
pub open spec fn shown_count(count: int, cap: Option<usize>) -> int {
    match cap {
        Some(c) => if count > c { c as int } else { count },
        None => count,
    }
}

/// The cells of one entry: each column's text and its visible width.
pub open spec fn entry_cells(
    m: Meta,
    colors: Colors,
    flags: Flags,
    padding: Option<usize>,
    tree_index: usize,
    prefix: Seq<char>,
) -> Seq<(Seq<char>, usize)> {
    Seq::new(
        flags.blocks@.len(),
        |i: int|
            {
                let t = block_text(m, colors, flags, DisplayOption::FileName, padding, tree_index, prefix, i);
                (t, visible_width(t, hyperlink_always(flags)) as usize)
            },
    )
}

/// The line closing a truncated directory: `... and N more` after the
/// connector, in the tree-connector style.
pub open spec fn summary_text(colors: Colors, nested: bool, prefix: Seq<char>, hidden: nat) -> Seq<char> {
    let p = if nested { prefix + corner() + seq![' '] } else { prefix };
    styled(
        colors.tree_edge,
        p + seq!['.', '.', '.', ' ', 'a', 'n', 'd', ' '] + decimal(hidden) + seq![' ', 'm', 'o', 'r', 'e'],
    )
}

/// The cells of the summary row: its text in the connector column, empty
/// cells in the others; no row when nothing was hidden.
pub open spec fn summary_cells(
    colors: Colors,
    flags: Flags,
    tree_index: usize,
    nested: bool,
    prefix: Seq<char>,
    hidden: int,
) -> Seq<(Seq<char>, usize)> {
    if hidden > 0 {
        let t = summary_text(colors, nested, prefix, hidden as nat);
        Seq::new(
            flags.blocks@.len(),
            |i: int|
                if i == tree_index {
                    (t, visible_width(t, hyperlink_always(flags)) as usize)
                } else {
                    (Seq::<char>::empty(), 0usize)
                },
        )
    } else {
        Seq::empty()
    }
}

/// The filter keeps at most the entries it looks at, and each kept
/// position names one of them.
pub proof fn lemma_kept_indices(metas: Seq<Meta>, n: int, flags: Flags)
    requires
        0 <= n <= metas.len(),
    ensures
        kept_indices(metas, n, flags).len() <= n,
        forall|j: int|
            0 <= j < kept_indices(metas, n, flags).len() ==> 0 <= #[trigger] kept_indices(
                metas,
                n,
                flags,
            )[j] < n,
    decreases n,
{
    if n > 0 {
        lemma_kept_indices(metas, n - 1, flags);
    }
}

/// The cells of a tree listing of `metas`: for each shown entry its own row
/// and then the rows of its children, and a summary row where the cap hid
/// entries. `nested` is false for the top level, whose entries get no
/// connector.
pub open spec fn tree_cells(
    metas: Seq<Meta>,
    colors: Colors,
    flags: Flags,
    padding: Option<usize>,
    tree_index: usize,
    cap: Option<usize>,
    nested: bool,
    prefix: Seq<char>,
) -> Seq<(Seq<char>, usize)>
    decreases metas, metas.len() + 1, 0nat,
{
    let idx = kept_indices(metas, metas.len() as int, flags);
    let shown = shown_count(idx.len() as int, cap);
    let hidden = idx.len() - shown;
    proof {
        lemma_kept_indices(metas, metas.len() as int, flags);
    }
    items_cells(metas, colors, flags, padding, tree_index, cap, nested, prefix, idx, shown, hidden, 0)
        + summary_cells(colors, flags, tree_index, nested, prefix, hidden)
}

/// The rows of the shown entries from the `j`-th on (`idx` holds the
/// positions of the entries the filter let through).
pub open spec fn items_cells(
    metas: Seq<Meta>,
    colors: Colors,
    flags: Flags,
    padding: Option<usize>,
    tree_index: usize,
    cap: Option<usize>,
    nested: bool,
    prefix: Seq<char>,
    idx: Seq<int>,
    shown: int,
    hidden: int,
    j: int,
) -> Seq<(Seq<char>, usize)>
    decreases metas, shown - j, 0nat,
{
    if j < 0 || j >= shown || shown > idx.len() || !(0 <= idx[j] < metas.len()) {
        Seq::empty()
    } else {
        let is_last = hidden == 0 && j + 1 == shown;
        entry_rows(metas[idx[j]], colors, flags, padding, tree_index, cap, nested, is_last, prefix)
            + items_cells(
            metas,
            colors,
            flags,
            padding,
            tree_index,
            cap,
            nested,
            prefix,
            idx,
            shown,
            hidden,
            j + 1,
        )
    }
}


/// Entries that list no children.
pub open spec fn all_flat(metas: Seq<Meta>) -> bool {
    forall|i: int| 0 <= i < metas.len() ==> (#[trigger] metas[i]).content is None
}

proof fn lemma_items_cells_flat_len(
    metas: Seq<Meta>,
    colors: Colors,
    flags: Flags,
    padding: Option<usize>,
    tree_index: usize,
    cap: Option<usize>,
    nested: bool,
    prefix: Seq<char>,
    idx: Seq<int>,
    shown: int,
    hidden: int,
    j: int,
)
    requires
        all_flat(metas),
        0 <= j <= shown <= idx.len(),
        forall|t: int| 0 <= t < idx.len() ==> 0 <= #[trigger] idx[t] < metas.len(),
    ensures
        items_cells(metas, colors, flags, padding, tree_index, cap, nested, prefix, idx, shown, hidden, j).len()
            == (shown - j) * flags.blocks@.len(),
    decreases shown - j,
{
    if j < shown {
        lemma_items_cells_flat_len(
            metas,
            colors,
            flags,
            padding,
            tree_index,
            cap,
            nested,
            prefix,
            idx,
            shown,
            hidden,
            j + 1,
        );
        let is_last = hidden == 0 && j + 1 == shown;
        assert(metas[idx[j]].content is None);
        assert(entry_rows(metas[idx[j]], colors, flags, padding, tree_index, cap, nested, is_last, prefix).len()
            == flags.blocks@.len());
        assert(items_cells(metas, colors, flags, padding, tree_index, cap, nested, prefix, idx, shown, hidden, j)
            == entry_rows(metas[idx[j]], colors, flags, padding, tree_index, cap, nested, is_last, prefix)
            + items_cells(metas, colors, flags, padding, tree_index, cap, nested, prefix, idx, shown, hidden, j + 1));
        assert((shown - j) * flags.blocks@.len() == (shown - (j + 1)) * flags.blocks@.len()
            + flags.blocks@.len()) by (nonlinear_arith);
    } else {
        assert(shown - j == 0);
        assert((shown - j) * flags.blocks@.len() == 0) by (nonlinear_arith)
            requires
                shown - j == 0,
        ;
    }
}

/// A directory level shows at most `cap` of the entries the filter lets
/// through, one row each, and one summary row where it hid some: for
/// entries without children, the cells are `blocks` per shown entry plus
/// `blocks` for the summary.
pub proof fn lemma_flat_tree_rows(
    metas: Seq<Meta>,
    colors: Colors,
    flags: Flags,
    padding: Option<usize>,
    tree_index: usize,
    cap: Option<usize>,
    nested: bool,
    prefix: Seq<char>,
)
    requires
        all_flat(metas),
    ensures
        ({
            let kept_count = kept_indices(metas, metas.len() as int, flags).len() as int;
            let shown = shown_count(kept_count, cap);
            &&& cap matches Some(c) ==> shown <= c
            &&& shown <= kept_count
            &&& tree_cells(metas, colors, flags, padding, tree_index, cap, nested, prefix).len() == (shown
                + if kept_count > shown { 1int } else { 0int }) * flags.blocks@.len()
        }),
{
    let idx = kept_indices(metas, metas.len() as int, flags);
    lemma_kept_indices(metas, metas.len() as int, flags);
    let shown = shown_count(idx.len() as int, cap);
    let hidden = idx.len() - shown;
    lemma_items_cells_flat_len(metas, colors, flags, padding, tree_index, cap, nested, prefix, idx, shown, hidden, 0);
    let n = flags.blocks@.len() as int;
    assert((shown + 1) * n == shown * n + n) by (nonlinear_arith);
}

/// The tree filter never drops a directory: where every entry is a
/// directory (or a symlink to one), all of them are kept.
pub proof fn lemma_filter_keeps_dirs(metas: Seq<Meta>, flags: Flags, n: int)
    requires
        0 <= n <= metas.len(),
        forall|i: int| 0 <= i < metas.len() ==> is_dir_like(#[trigger] metas[i].file_type),
    ensures
        kept_indices(metas, n, flags) == Seq::new(n as nat, |i: int| i),
    decreases n,
{
    if n > 0 {
        lemma_filter_keeps_dirs(metas, flags, n - 1);
        assert(kept_indices(metas, n, flags) =~= Seq::new(n as nat, |i: int| i));
    } else {
        assert(kept_indices(metas, n, flags) =~= Seq::new(n as nat, |i: int| i));
    }
}

/// The rows of an entry and its children, with the connectors written out:
/// the last entry of a directory is drawn after `└── ` and its children
/// continue four spaces (a blank where the `└──` stands, never `│`); any
/// other entry is drawn after `├── ` and its children continue `│   `; at the
/// top level entries and children continue the prefix as it is.
pub proof fn lemma_entry_connectors(
    m: Meta,
    colors: Colors,
    flags: Flags,
    padding: Option<usize>,
    tree_index: usize,
    cap: Option<usize>,
    is_last: bool,
    prefix: Seq<char>,
)
    ensures
        entry_rows(m, colors, flags, padding, tree_index, cap, true, true, prefix) == entry_cells(
            m,
            colors,
            flags,
            padding,
            tree_index,
            prefix + seq!['\u{2514}', '\u{2500}', '\u{2500}', ' '],
        ) + match m.content {
            Some(c) => tree_cells(
                c@,
                colors,
                flags,
                padding,
                tree_index,
                cap,
                true,
                prefix + seq![' ', ' ', ' ', ' '],
            ),
            None => Seq::empty(),
        },
        entry_rows(m, colors, flags, padding, tree_index, cap, true, false, prefix) == entry_cells(
            m,
            colors,
            flags,
            padding,
            tree_index,
            prefix + seq!['\u{251c}', '\u{2500}', '\u{2500}', ' '],
        ) + match m.content {
            Some(c) => tree_cells(
                c@,
                colors,
                flags,
                padding,
                tree_index,
                cap,
                true,
                prefix + seq!['\u{2502}', ' ', ' ', ' '],
            ),
            None => Seq::empty(),
        },
        entry_rows(m, colors, flags, padding, tree_index, cap, false, is_last, prefix) == entry_cells(
            m,
            colors,
            flags,
            padding,
            tree_index,
            prefix,
        ) + match m.content {
            Some(c) => tree_cells(c@, colors, flags, padding, tree_index, cap, true, prefix),
            None => Seq::empty(),
        },
{
    assert(prefix + corner() + seq![' '] =~= prefix + seq!['\u{2514}', '\u{2500}', '\u{2500}', ' ']);
    assert(prefix + blank() + seq![' '] =~= prefix + seq![' ', ' ', ' ', ' ']);
    assert(prefix + edge() + seq![' '] =~= prefix + seq!['\u{251c}', '\u{2500}', '\u{2500}', ' ']);
    assert(prefix + line() + seq![' '] =~= prefix + seq!['\u{2502}', ' ', ' ', ' ']);
}

/// Whether two flag sets differ at most in asking for packed tree columns.
pub open spec fn same_but_tree_columns(a: Flags, b: Flags) -> bool {
    &&& a.blocks@ == b.blocks@
    &&& a.layout == b.layout
    &&& a.display == b.display
    &&& a.header == b.header
    &&& a.hyperlink == b.hyperlink
    &&& a.no_symlink == b.no_symlink
    &&& a.dereference == b.dereference
    &&& a.max_shown == b.max_shown
    &&& a.tree_filter == b.tree_filter
}

proof fn lemma_kept_indices_same(metas: Seq<Meta>, n: int, a: Flags, b: Flags)
    requires
        same_but_tree_columns(a, b),
    ensures
        kept_indices(metas, n, a) == kept_indices(metas, n, b),
    decreases n,
{
    if n > 0 {
        lemma_kept_indices_same(metas, n - 1, a, b);
    }
}

/// The rows of an entry do not depend on the packing request.
proof fn lemma_entry_rows_same(
    m: Meta,
    colors: Colors,
    a: Flags,
    b: Flags,
    padding: Option<usize>,
    tree_index: usize,
    cap: Option<usize>,
    nested: bool,
    is_last: bool,
    prefix: Seq<char>,
)
    requires
        same_but_tree_columns(a, b),
    ensures
        entry_rows(m, colors, a, padding, tree_index, cap, nested, is_last, prefix) == entry_rows(
            m,
            colors,
            b,
            padding,
            tree_index,
            cap,
            nested,
            is_last,
            prefix,
        ),
    decreases m, 0int, 0nat,
{
    let p = entry_prefix(nested, is_last, prefix);
    assert(entry_cells(m, colors, a, padding, tree_index, p) =~= entry_cells(m, colors, b, padding, tree_index, p));
    match m.content {
        Some(c) => {
            lemma_tree_cells_same(c@, colors, a, b, padding, tree_index, cap, true, child_prefix(nested, is_last, prefix));
        },
        None => {},
    }
}

/// The cells of a tree listing do not depend on the packing request.
pub proof fn lemma_tree_cells_same(
    metas: Seq<Meta>,
    colors: Colors,
    a: Flags,
    b: Flags,
    padding: Option<usize>,
    tree_index: usize,
    cap: Option<usize>,
    nested: bool,
    prefix: Seq<char>,
)
    requires
        same_but_tree_columns(a, b),
    ensures
        tree_cells(metas, colors, a, padding, tree_index, cap, nested, prefix) == tree_cells(
            metas,
            colors,
            b,
            padding,
            tree_index,
            cap,
            nested,
            prefix,
        ),
    decreases metas, metas.len() + 1, 0nat,
{
    lemma_kept_indices_same(metas, metas.len() as int, a, b);
    lemma_kept_indices(metas, metas.len() as int, a);
    let idx = kept_indices(metas, metas.len() as int, a);
    let shown = shown_count(idx.len() as int, cap);
    let hidden = idx.len() - shown;
    lemma_items_cells_same(metas, colors, a, b, padding, tree_index, cap, nested, prefix, idx, shown, hidden, 0);
    assert(summary_cells(colors, a, tree_index, nested, prefix, hidden) =~= summary_cells(
        colors,
        b,
        tree_index,
        nested,
        prefix,
        hidden,
    ));
}

proof fn lemma_items_cells_same(
    metas: Seq<Meta>,
    colors: Colors,
    a: Flags,
    b: Flags,
    padding: Option<usize>,
    tree_index: usize,
    cap: Option<usize>,
    nested: bool,
    prefix: Seq<char>,
    idx: Seq<int>,
    shown: int,
    hidden: int,
    j: int,
)
    requires
        same_but_tree_columns(a, b),
    ensures
        items_cells(metas, colors, a, padding, tree_index, cap, nested, prefix, idx, shown, hidden, j)
            == items_cells(metas, colors, b, padding, tree_index, cap, nested, prefix, idx, shown, hidden, j),
    decreases metas, shown - j, 0nat,
{
    if j < 0 || j >= shown || shown > idx.len() || !(0 <= idx[j] < metas.len()) {
    } else {
        let is_last = hidden == 0 && j + 1 == shown;
        lemma_entry_rows_same(metas[idx[j]], colors, a, b, padding, tree_index, cap, nested, is_last, prefix);
        lemma_items_cells_same(metas, colors, a, b, padding, tree_index, cap, nested, prefix, idx, shown, hidden, j + 1);
    }
}

/// Push one cell per column text in `texts`, each with its visible width;
/// `false`, with nothing said of `cells`, where a text's width cannot be
/// measured.
pub fn push_row(cells: &mut Vec<Cell>, texts: Vec<String>, hyperlink: bool) -> (ok: bool)
    ensures
        ok == (forall|i: int| 0 <= i < texts@.len() ==> width_fits(#[trigger] texts@[i]@, hyperlink)),
        ok ==> cells_view(final(cells)@) == cells_view(old(cells)@) + Seq::new(
            texts@.len(),
            |i: int| (texts@[i]@, visible_width(texts@[i]@, hyperlink) as usize),
        ),
{
    let ghost start = cells_view(cells@);
    let mut b: usize = 0;
    while b < texts.len()
        invariant
            b <= texts@.len(),
            forall|i: int| 0 <= i < b ==> width_fits(#[trigger] texts@[i]@, hyperlink),
            cells_view(cells@) == start + Seq::new(
                b as nat,
                |i: int| (texts@[i]@, visible_width(texts@[i]@, hyperlink) as usize),
            ),
        decreases texts@.len() - b,
    {
        let contents = texts[b].clone();
        let width = match try_get_visible_width(texts[b].as_str(), hyperlink) {
            Some(w) => w,
            None => {
                return false;
            },
        };
        let ghost before = cells_view(cells@);
        cells.push(Cell { contents, width });
        assert(cells_view(cells@) =~= before.push((texts@[b as int]@, width)));
        assert(Seq::new(
            (b + 1) as nat,
            |i: int| (texts@[i]@, visible_width(texts@[i]@, hyperlink) as usize),
        ) =~= Seq::new(
            b as nat,
            |i: int| (texts@[i]@, visible_width(texts@[i]@, hyperlink) as usize),
        ).push((texts@[b as int]@, width)));
        b = b + 1;
    }
    true
}

/// `prefix` followed by `piece` and a space.
fn extend_prefix(prefix: &str, piece: &str) -> (r: String)
    ensures
        r@ == prefix@ + piece@ + seq![' '],
{
    proof {
        reveal_strlit(" ");
    }
    concat3(prefix, piece, " ")
}

/// The cells of a tree listing of `metas` at `depth` below the top, each
/// connector continuing `prefix` (see `tree_cells`); `None` where the width
/// of a cell's text cannot be measured.
pub fn inner_display_tree(
    metas: &Vec<Meta>,
    colors: &Colors,
    flags: &Flags,
    depth: usize,
    prefix: &str,
    padding_rules: &PaddingRules,
    tree_index: usize,
    max_cap: Option<usize>,
) -> (r: Option<Vec<Cell>>)
    requires
        padding_fits(*flags, tree_index, padding_rules.size_value),
    ensures
        r is Some <==> cells_fit(
            tree_cells(
                metas@,
                *colors,
                *flags,
                padding_rules.size_value,
                tree_index,
                max_cap,
                depth > 0,
                prefix@,
            ),
            hyperlink_always(*flags),
        ),
        r matches Some(cells) ==> cells_view(cells@) == tree_cells(
            metas@,
            *colors,
            *flags,
            padding_rules.size_value,
            tree_index,
            max_cap,
            depth > 0,
            prefix@,
        ),
    decreases metas@, 1nat,
{
    let hyperlink = flags.hyperlink == HyperlinkOption::Always;
    let ghost padding = padding_rules.size_value;
    let ghost nested = depth > 0;
    proof {
        reveal_strlit("\u{251c}\u{2500}\u{2500}");
        reveal_strlit("\u{2514}\u{2500}\u{2500}");
        reveal_strlit("\u{2502}  ");
        reveal_strlit("   ");
        assert("\u{251c}\u{2500}\u{2500}"@ =~= edge());
        assert("\u{2514}\u{2500}\u{2500}"@ =~= corner());
        assert("\u{2502}  "@ =~= line());
        assert("   "@ =~= blank());
    }
    // apply the tree filter: directories always shown, other entries must match
    let mut filtered: Vec<usize> = Vec::new();
    let mut i: usize = 0;
    while i < metas.len()
        invariant
            i <= metas@.len(),
            filtered@.map_values(|x: usize| x as int) == kept_indices(metas@, i as int, *flags),
        decreases metas@.len() - i,
    {
        let m = &metas[i];
        let ghost before = filtered@;
        if !flags.tree_filter || dir_like(m.file_type) || m.tree_filter_match {
            filtered.push(i);
            assert(filtered@.map_values(|x: usize| x as int) =~= before.map_values(
                |x: usize| x as int,
            ).push(i as int));
        }
        i = i + 1;
    }
    let ghost idx = kept_indices(metas@, metas@.len() as int, *flags);
    proof {
        lemma_kept_indices(metas@, metas@.len() as int, *flags);
    }
    assert(filtered@.len() == idx.len());
    // truncate to the resolved cap
    let n_filtered = filtered.len();
    let (shown, truncated) = match max_cap {
        Some(n) => if n_filtered > n {
            (n, n_filtered - n)
        } else {
            (n_filtered, 0usize)
        },
        None => (n_filtered, 0usize),
    };
    assert(shown == shown_count(idx.len() as int, max_cap));
    let mut cells: Vec<Cell> = Vec::new();
    let mut j: usize = 0;
    while j < shown
        invariant
            j <= shown <= filtered@.len(),
            filtered@.map_values(|x: usize| x as int) == idx,
            idx == kept_indices(metas@, metas@.len() as int, *flags),
            forall|t: int| 0 <= t < idx.len() ==> 0 <= #[trigger] idx[t] < metas@.len(),
            padding_fits(*flags, tree_index, padding_rules.size_value),
            padding == padding_rules.size_value,
            nested == (depth > 0),
            hyperlink == (flags.hyperlink == HyperlinkOption::Always),
            truncated == idx.len() - shown,
            shown == shown_count(idx.len() as int, max_cap),
            cells_fit(cells_view(cells@), hyperlink),
            cells_view(cells@) + items_cells(
                metas@,
                *colors,
                *flags,
                padding,
                tree_index,
                max_cap,
                nested,
                prefix@,
                idx,
                shown as int,
                truncated as int,
                j as int,
            ) == items_cells(
                metas@,
                *colors,
                *flags,
                padding,
                tree_index,
                max_cap,
                nested,
                prefix@,
                idx,
                shown as int,
                truncated as int,
                0,
            ),
        decreases shown - j,
    {
        let k = filtered[j];
        assert(idx[j as int] == k as int);
        let is_last = truncated == 0 && j + 1 == shown;
        let ghost before = cells_view(cells@);
        let ghost entry = entry_rows(
            metas@[k as int],
            *colors,
            *flags,
            padding,
            tree_index,
            max_cap,
            nested,
            is_last,
            prefix@,
        );
        let ghost rest = items_cells(
            metas@,
            *colors,
            *flags,
            padding,
            tree_index,
            max_cap,
            nested,
            prefix@,
            idx,
            shown as int,
            truncated as int,
            j + 1,
        );
        let ghost here = items_cells(
            metas@,
            *colors,
            *flags,
            padding,
            tree_index,
            max_cap,
            nested,
            prefix@,
            idx,
            shown as int,
            truncated as int,
            j as int,
        );
        assert(here == entry + rest);
        let rows = match render_entry(
            &metas[k],
            colors,
            flags,
            depth,
            is_last,
            prefix,
            padding_rules,
            tree_index,
            max_cap,
        ) {
            Some(rows) => rows,
            None => {
                proof {
                    lemma_cells_fit_concat(entry, rest, hyperlink);
                    lemma_cells_fit_concat(before, here, hyperlink);
                    lemma_tree_cells_fit_items(
                        metas@,
                        *colors,
                        *flags,
                        padding,
                        tree_index,
                        max_cap,
                        nested,
                        prefix@,
                    );
                }
                return None;
            },
        };
        proof {
            lemma_cells_fit_concat(before, cells_view(rows@), hyperlink);
        }
        extend_cells(&mut cells, rows);
        assert(cells_view(cells@) + rest == before + here);
        j = j + 1;
    }
    let ghost items = cells_view(cells@);
    assert(items_cells(
        metas@,
        *colors,
        *flags,
        padding,
        tree_index,
        max_cap,
        nested,
        prefix@,
        idx,
        shown as int,
        truncated as int,
        j as int,
    ) =~= Seq::empty());
    assert(items =~= items + Seq::<(Seq<char>, usize)>::empty());
    let ghost summary = summary_cells(*colors, *flags, tree_index, nested, prefix@, truncated as int);
    if truncated > 0 {
        if !push_summary(&mut cells, colors, flags, depth, prefix, truncated, tree_index) {
            proof {
                lemma_cells_fit_concat(items, summary, hyperlink);
            }
            return None;
        }
    } else {
        assert(cells_view(cells@) =~= cells_view(cells@) + summary);
    }
    proof {
        lemma_cells_fit_concat(items, summary, hyperlink);
    }
    Some(cells)
}

/// A tree listing's cells can be measured exactly when those of its shown
/// entries and of its summary row can.
proof fn lemma_tree_cells_fit_items(
    metas: Seq<Meta>,
    colors: Colors,
    flags: Flags,
    padding: Option<usize>,
    tree_index: usize,
    cap: Option<usize>,
    nested: bool,
    prefix: Seq<char>,
)
    ensures
        ({
            let idx = kept_indices(metas, metas.len() as int, flags);
            let shown = shown_count(idx.len() as int, cap);
            let hidden = idx.len() - shown;
            cells_fit(tree_cells(metas, colors, flags, padding, tree_index, cap, nested, prefix), hyperlink_always(flags))
                == (cells_fit(
                items_cells(metas, colors, flags, padding, tree_index, cap, nested, prefix, idx, shown, hidden, 0),
                hyperlink_always(flags),
            ) && cells_fit(summary_cells(colors, flags, tree_index, nested, prefix, hidden), hyperlink_always(flags)))
        }),
{
    let idx = kept_indices(metas, metas.len() as int, flags);
    let shown = shown_count(idx.len() as int, cap);
    let hidden = idx.len() - shown;
    lemma_cells_fit_concat(
        items_cells(metas, colors, flags, padding, tree_index, cap, nested, prefix, idx, shown, hidden, 0),
        summary_cells(colors, flags, tree_index, nested, prefix, hidden),
        hyperlink_always(flags),
    );
}

/// The rows of entry `meta` and then of its children (see `entry_rows`);
/// `None` where the width of a cell's text cannot be measured.
fn render_entry(
    meta: &Meta,
    colors: &Colors,
    flags: &Flags,
    depth: usize,
    is_last: bool,
    prefix: &str,
    padding_rules: &PaddingRules,
    tree_index: usize,
    max_cap: Option<usize>,
) -> (r: Option<Vec<Cell>>)
    requires
        padding_fits(*flags, tree_index, padding_rules.size_value),
    ensures
        r is Some <==> cells_fit(
            entry_rows(
                *meta,
                *colors,
                *flags,
                padding_rules.size_value,
                tree_index,
                max_cap,
                depth > 0,
                is_last,
                prefix@,
            ),
            hyperlink_always(*flags),
        ),
        r matches Some(cells) ==> cells_view(cells@) == entry_rows(
            *meta,
            *colors,
            *flags,
            padding_rules.size_value,
            tree_index,
            max_cap,
            depth > 0,
            is_last,
            prefix@,
        ),
    decreases *meta, 0nat,
{
    let hyperlink = flags.hyperlink == HyperlinkOption::Always;
    proof {
        reveal_strlit("\u{251c}\u{2500}\u{2500}");
        reveal_strlit("\u{2514}\u{2500}\u{2500}");
        reveal_strlit("\u{2502}  ");
        reveal_strlit("   ");
        assert("\u{251c}\u{2500}\u{2500}"@ =~= edge());
        assert("\u{2514}\u{2500}\u{2500}"@ =~= corner());
        assert("\u{2502}  "@ =~= line());
        assert("   "@ =~= blank());
    }
    let current_prefix = if depth > 0 {
        if !is_last {
            extend_prefix(prefix, "\u{251c}\u{2500}\u{2500}")
        } else {
            extend_prefix(prefix, "\u{2514}\u{2500}\u{2500}")
        }
    } else {
        prefix.to_string()
    };
    assert(current_prefix@ == entry_prefix(depth > 0, is_last, prefix@));
    let mut cells: Vec<Cell> = Vec::new();
    let texts = get_output(
        meta,
        colors,
        flags,
        DisplayOption::FileName,
        padding_rules,
        tree_index,
        current_prefix.as_str(),
    );
    let ghost own = entry_cells(
        *meta,
        *colors,
        *flags,
        padding_rules.size_value,
        tree_index,
        current_prefix@,
    );
    let ghost sub_spec = if meta.content is Some {
        tree_cells(
            meta.content->0@,
            *colors,
            *flags,
            padding_rules.size_value,
            tree_index,
            max_cap,
            true,
            child_prefix(depth > 0, is_last, prefix@),
        )
    } else {
        Seq::empty()
    };
    let ghost tv = texts@;
    assert(entry_rows(
        *meta,
        *colors,
        *flags,
        padding_rules.size_value,
        tree_index,
        max_cap,
        depth > 0,
        is_last,
        prefix@,
    ) == own + sub_spec);
    proof {
        lemma_cells_fit_concat(own, sub_spec, hyperlink);
    }
    if !push_row(&mut cells, texts, hyperlink) {
        proof {
            let i = choose|i: int| 0 <= i < tv.len() && !width_fits(#[trigger] tv[i]@, hyperlink);
            assert(own[i].0 == tv[i]@);
        }
        return None;
    }
    assert(cells_view(cells@) =~= own);
    assert forall|i: int| 0 <= i < own.len() implies width_fits(#[trigger] own[i].0, hyperlink) by {
        assert(own[i].0 == tv[i]@);
    }
    match &meta.content {
        Some(content) => {
            let new_prefix = if depth > 0 {
                if !is_last {
                    extend_prefix(prefix, "\u{2502}  ")
                } else {
                    extend_prefix(prefix, "   ")
                }
            } else {
                prefix.to_string()
            };
            assert(new_prefix@ == child_prefix(depth > 0, is_last, prefix@));
            match inner_display_tree(
                content,
                colors,
                flags,
                depth.saturating_add(1),
                new_prefix.as_str(),
                padding_rules,
                tree_index,
                max_cap,
            ) {
                Some(sub) => {
                    extend_cells(&mut cells, sub);
                },
                None => {
                    return None;
                },
            }
        },
        None => {
            assert(cells_view(cells@) =~= cells_view(cells@) + Seq::<(Seq<char>, usize)>::empty());
        },
    }
    Some(cells)
}

/// Push the summary row of a directory that hid `truncated > 0` entries;
/// `false`, with nothing said of `cells`, where the width of its text cannot
/// be measured.
fn push_summary(
    cells: &mut Vec<Cell>,
    colors: &Colors,
    flags: &Flags,
    depth: usize,
    prefix: &str,
    truncated: usize,
    tree_index: usize,
) -> (ok: bool)
    requires
        truncated > 0,
    ensures
        ok == cells_fit(
            summary_cells(*colors, *flags, tree_index, depth > 0, prefix@, truncated as int),
            hyperlink_always(*flags),
        ),
        ok ==> cells_view(final(cells)@) == cells_view(old(cells)@) + summary_cells(
            *colors,
            *flags,
            tree_index,
            depth > 0,
            prefix@,
            truncated as int,
        ),
{
    let hyperlink = flags.hyperlink == HyperlinkOption::Always;
    proof {
        reveal_strlit("\u{2514}\u{2500}\u{2500}");
        assert("\u{2514}\u{2500}\u{2500}"@ =~= corner());
    }
    let p = if depth > 0 {
        extend_prefix(prefix, "\u{2514}\u{2500}\u{2500}")
    } else {
        prefix.to_string()
    };
    let summary = summary_string(p.as_str(), truncated);
    let colored_summary = colors.colorize(summary.as_str(), Elem::TreeEdge);
    assert(colored_summary@ == summary_text(*colors, depth > 0, prefix@, truncated as nat));
    let ghost before = cells_view(cells@);
    let ghost summary = summary_cells(*colors, *flags, tree_index, depth > 0, prefix@, truncated as int);
    let width = if tree_index < flags.blocks.len() {
        match try_get_visible_width(colored_summary.as_str(), hyperlink) {
            Some(w) => w,
            None => {
                assert(summary[tree_index as int].0 == colored_summary@);
                return false;
            },
        }
    } else {
        0
    };
    assert forall|i: int| 0 <= i < summary.len() implies width_fits(#[trigger] summary[i].0, hyperlink) by {
        if i != tree_index {
            assert(summary[i].0 == Seq::<char>::empty());
            assert(crate::width::invisible_len(Seq::<char>::empty(), hyperlink) == 0);
        }
    }
    let mut b: usize = 0;
    while b < flags.blocks.len()
        invariant
            b <= flags.blocks@.len(),
            cells_view(cells@) == before + Seq::new(
                b as nat,
                |i: int|
                    if i == tree_index {
                        (colored_summary@, width)
                    } else {
                        (Seq::<char>::empty(), 0usize)
                    },
            ),
        decreases flags.blocks@.len() - b,
    {
        let ghost prev = cells_view(cells@);
        if b == tree_index {
            cells.push(Cell { contents: colored_summary.clone(), width });
        } else {
            cells.push(Cell { contents: String::new(), width: 0 });
        }
        assert(cells_view(cells@) =~= prev.push(
            if b == tree_index {
                (colored_summary@, width)
            } else {
                (Seq::<char>::empty(), 0usize)
            },
        ));
        assert(Seq::new(
            (b + 1) as nat,
            |i: int|
                if i == tree_index {
                    (colored_summary@, width)
                } else {
                    (Seq::<char>::empty(), 0usize)
                },
        ) =~= Seq::new(
            b as nat,
            |i: int|
                if i == tree_index {
                    (colored_summary@, width)
                } else {
                    (Seq::<char>::empty(), 0usize)
                },
        ).push(
            if b == tree_index {
                (colored_summary@, width)
            } else {
                (Seq::<char>::empty(), 0usize)
            },
        ));
        b = b + 1;
    }
    assert(cells_view(cells@) =~= before + summary);
    true
}

/// The cells of a tree listing of the single entry `meta` at the top level
/// (the same as `inner_display_tree` on a list holding only `meta`); `None`
/// where the width of a cell's text cannot be measured.
pub fn single_tree_cells(
    meta: &Meta,
    colors: &Colors,
    flags: &Flags,
    padding_rules: &PaddingRules,
    tree_index: usize,
    max_cap: Option<usize>,
) -> (r: Option<Vec<Cell>>)
    requires
        padding_fits(*flags, tree_index, padding_rules.size_value),
    ensures
        r is Some <==> cells_fit(
            tree_cells(
                seq![*meta],
                *colors,
                *flags,
                padding_rules.size_value,
                tree_index,
                max_cap,
                false,
                Seq::empty(),
            ),
            hyperlink_always(*flags),
        ),
        r matches Some(cells) ==> cells_view(cells@) == tree_cells(
            seq![*meta],
            *colors,
            *flags,
            padding_rules.size_value,
            tree_index,
            max_cap,
            false,
            Seq::empty(),
        ),
{
    let hyperlink = flags.hyperlink == HyperlinkOption::Always;
    let ghost metas = seq![*meta];
    let ghost idx = kept_indices(metas, 1, *flags);
    assert(kept_indices(metas, 0, *flags) =~= Seq::<int>::empty());
    let kept = !flags.tree_filter || dir_like(meta.file_type) || meta.tree_filter_match;
    let count: usize = if kept { 1 } else { 0 };
    assert(idx.len() == count);
    let (shown, truncated) = match max_cap {
        Some(n) => if count > n {
            (n, count - n)
        } else {
            (count, 0usize)
        },
        None => (count, 0usize),
    };
    proof {
        reveal_strlit("");
    }
    let ghost items = items_cells(
        metas,
        *colors,
        *flags,
        padding_rules.size_value,
        tree_index,
        max_cap,
        false,
        Seq::empty(),
        idx,
        shown as int,
        truncated as int,
        0,
    );
    let ghost summary = summary_cells(*colors, *flags, tree_index, false, Seq::empty(), truncated as int);
    proof {
        lemma_tree_cells_fit_items(
            metas,
            *colors,
            *flags,
            padding_rules.size_value,
            tree_index,
            max_cap,
            false,
            Seq::empty(),
        );
    }
    assert(""@ =~= Seq::<char>::empty());
    let mut cells: Vec<Cell> = Vec::new();
    if shown > 0 {
        assert(idx[0] == 0);
        assert(items_cells(
            metas,
            *colors,
            *flags,
            padding_rules.size_value,
            tree_index,
            max_cap,
            false,
            Seq::empty(),
            idx,
            shown as int,
            truncated as int,
            1,
        ) =~= Seq::empty());
        assert(items == entry_rows(
            *meta,
            *colors,
            *flags,
            padding_rules.size_value,
            tree_index,
            max_cap,
            false,
            truncated == 0,
            Seq::empty(),
        ) + Seq::<(Seq<char>, usize)>::empty());
        match render_entry(meta, colors, flags, 0, truncated == 0, "", padding_rules, tree_index, max_cap) {
            Some(c) => {
                cells = c;
            },
            None => {
                assert(items =~= entry_rows(
                    *meta,
                    *colors,
                    *flags,
                    padding_rules.size_value,
                    tree_index,
                    max_cap,
                    false,
                    truncated == 0,
                    Seq::empty(),
                ));
                return None;
            },
        }
    } else {
        assert(items =~= Seq::empty());
    }
    assert(cells_view(cells@) =~= items);
    if truncated > 0 {
        if !push_summary(&mut cells, colors, flags, 0, "", truncated, tree_index) {
            return None;
        }
    } else {
        assert(summary =~= Seq::empty());
        assert(cells_view(cells@) =~= items + summary);
    }
    assert(cells_view(cells@) =~= tree_cells(
        metas,
        *colors,
        *flags,
        padding_rules.size_value,
        tree_index,
        max_cap,
        false,
        Seq::empty(),
    ));
    Some(cells)
}

/// `prefix` then `... and N more`.
fn summary_string(prefix: &str, hidden: usize) -> (r: String)
    ensures
        r@ == prefix@ + seq!['.', '.', '.', ' ', 'a', 'n', 'd', ' '] + decimal(hidden as nat) + seq![
            ' ',
            'm',
            'o',
            'r',
            'e',
        ],
{
    proof {
        reveal_strlit("... and ");
        reveal_strlit(" more");
    }
    let n = decimal_string(hidden);
    let mut r = concat3(prefix, "... and ", n.as_str());
    r.append(" more");
    r
}

} // verus!
