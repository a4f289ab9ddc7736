//! Packing of rendered subtrees side by side: the subtrees are laid out in
//! rows, each row holding as many consecutive subtrees as fit the terminal,
//! and the lines of the subtrees of a row are printed next to each other.

use vstd::prelude::*;
use crate::text::{spaces, repeat_space, push_char};
use crate::width::{get_visible_width, visible_width, width_fits, invisible_len};
use vstd::string::StringExecFns;

verus! {

broadcast use vstd::string::group_string_axioms;

/// The spaces between two subtrees of a row.
pub open spec fn gutter() -> int {
    2
}

/// The sum of the first `n` widths.
pub open spec fn sum_upto(ws: Seq<usize>, n: int) -> int
    decreases n,
{
    if n <= 0 {
        0
    } else {
        sum_upto(ws, n - 1) + ws[n - 1]
    }
}

/// The columns a row of subtrees takes: their widths and a gutter between
/// each two.
pub open spec fn row_width(ws: Seq<usize>, row: Seq<int>) -> int
    decreases row.len(),
{
    if row.len() == 0 {
        0
    } else if row.len() == 1 {
        ws[row[0]] as int
    } else {
        row_width(ws, row.drop_last()) + gutter() + ws[row.last()]
    }
}

/// Whether the subtree of width `w` fits after the row `cur` of width `cw`.
pub open spec fn fits_after(cur: Seq<int>, cw: int, w: int, term_width: Option<usize>) -> bool {
    match term_width {
        Some(t) => cur.len() == 0 || cw + gutter() + w <= t,
        None => true,
    }
}

/// The greedy packing of the first `n` widths: the closed rows, the open
/// row, and the open row's width.
pub open spec fn pack_state(ws: Seq<usize>, term_width: Option<usize>, n: int) -> (
    Seq<Seq<int>>,
    Seq<int>,
    int,
)
    decreases n,
{
    if n <= 0 {
        (Seq::empty(), Seq::empty(), 0)
    } else {
        let (rows, cur, cw) = pack_state(ws, term_width, n - 1);
        let w = ws[n - 1] as int;
        if fits_after(cur, cw, w, term_width) {
            (rows, cur.push(n - 1), if cur.len() == 0 { w } else { cw + gutter() + w })
        } else {
            (rows.push(cur), seq![n - 1], w)
        }
    }
}

/// The rows of subtree positions: each subtree, in order, joins the current
/// row where it fits in `term_width` (or where the row is empty, or where
/// the width is unknown), and otherwise starts a new row.
pub open spec fn pack(ws: Seq<usize>, term_width: Option<usize>) -> Seq<Seq<int>> {
    let (rows, cur, _) = pack_state(ws, term_width, ws.len() as int);
    if cur.len() > 0 {
        rows.push(cur)
    } else {
        rows
    }
}

/// Positions, over plain values.
pub open spec fn rows_view(rows: Seq<Vec<usize>>) -> Seq<Seq<int>> {
    rows.map_values(|r: Vec<usize>| r@.map_values(|x: usize| x as int))
}

proof fn lemma_sum_upto_mono(ws: Seq<usize>, k: int, n: int)
    requires
        0 <= k <= n <= ws.len(),
    ensures
        sum_upto(ws, k) <= sum_upto(ws, n),
    decreases n - k,
{
    if k < n {
        lemma_sum_upto_mono(ws, k, n - 1);
    }
}

/// The open row's width is at most what the widths it holds and their
/// gutters add up to, and it ends at position `n - 1`.
proof fn lemma_pack_state_width(ws: Seq<usize>, term_width: Option<usize>, n: int)
    requires
        0 <= n <= ws.len(),
    ensures
        ({
            let (rows, cur, cw) = pack_state(ws, term_width, n);
            &&& 0 <= cw <= sum_upto(ws, n) + gutter() * n
            &&& cur.len() == 0 ==> cw == 0 && n == 0
            &&& cur.len() > 0 ==> cur.last() == n - 1
        }),
    decreases n,
{
    if n > 0 {
        lemma_pack_state_width(ws, term_width, n - 1);
    }
}

proof fn lemma_pack_state_in_range(ws: Seq<usize>, term_width: Option<usize>, n: int)
    requires
        0 <= n <= ws.len(),
    ensures
        ({
            let (rows, cur, cw) = pack_state(ws, term_width, n);
            &&& rows_in_range(rows, n)
            &&& forall|p: int| 0 <= p < cur.len() ==> 0 <= #[trigger] cur[p] < n
        }),
    decreases n,
{
    if n > 0 {
        lemma_pack_state_in_range(ws, term_width, n - 1);
    }
}

/// Every position that `pack` puts in a row names one of the subtrees.
pub proof fn lemma_pack_in_range(ws: Seq<usize>, term_width: Option<usize>)
    ensures
        rows_in_range(pack(ws, term_width), ws.len() as int),
{
    lemma_pack_state_in_range(ws, term_width, ws.len() as int);
}

/// The positions `0..n`, in order.
pub open spec fn positions(n: int) -> Seq<int> {
    Seq::new(n as nat, |i: int| i)
}

/// What every prefix of the greedy packing keeps: its rows and open row
/// hold the positions so far in order; no row is empty; the open row's width
/// is its `row_width`; with a known width, every row of two or more fits, and
/// each row's first subtree would not have fit after the row before it.
pub open spec fn pack_state_inv(ws: Seq<usize>, term_width: Option<usize>, n: int) -> bool {
    let (rows, cur, cw) = pack_state(ws, term_width, n);
    &&& rows.flatten() + cur == positions(n)
    &&& forall|k: int| 0 <= k < rows.len() ==> #[trigger] rows[k].len() > 0
    &&& cw == row_width(ws, cur)
    &&& term_width is None ==> rows.len() == 0
    &&& (term_width matches Some(t) ==> {
        &&& forall|k: int| 0 <= k < rows.len() && #[trigger] rows[k].len() >= 2 ==> row_width(ws, rows[k]) <= t
        &&& cur.len() >= 2 ==> cw <= t
        &&& forall|k: int|
            0 <= k < rows.len() - 1 ==> row_width(ws, #[trigger] rows[k]) + gutter() + ws[rows[k + 1][0]]
                > t
        &&& rows.len() > 0 && cur.len() > 0 ==> row_width(ws, rows.last()) + gutter() + ws[cur[0]] > t
    })
}

proof fn lemma_pack_state_inv(ws: Seq<usize>, term_width: Option<usize>, n: int)
    requires
        0 <= n <= ws.len(),
    ensures
        pack_state_inv(ws, term_width, n),
    decreases n,
{
    broadcast use Seq::lemma_flatten_push;

    if n == 0 {
        assert(Seq::<Seq<int>>::empty().flatten() =~= Seq::<int>::empty());
        assert(positions(0) =~= Seq::<int>::empty());
    } else {
        lemma_pack_state_inv(ws, term_width, n - 1);
        let (rows, cur, cw) = pack_state(ws, term_width, n - 1);
        let w = ws[n - 1] as int;
        assert(positions(n) =~= positions(n - 1).push(n - 1));
        if fits_after(cur, cw, w, term_width) {
            let cur2 = cur.push(n - 1);
            assert(rows.flatten() + cur2 =~= (rows.flatten() + cur).push(n - 1));
            assert(cur2.drop_last() =~= cur);
            if cur.len() > 0 {
                assert(cur2[0] == cur[0]);
            }
        } else {
            assert(cur.len() > 0);
            let rows2 = rows.push(cur);
            assert(rows2.flatten() =~= rows.flatten() + cur);
            assert(rows2.flatten() + seq![n - 1] =~= (rows.flatten() + cur).push(n - 1));
            assert(seq![n - 1].len() == 1);
            assert(row_width(ws, seq![n - 1]) == w);
            assert forall|k: int| 0 <= k < rows2.len() implies #[trigger] rows2[k].len() > 0 by {
                if k < rows.len() {
                    assert(rows2[k] == rows[k]);
                }
            }
            if let Some(t) = term_width {
                assert forall|k: int|
                    0 <= k < rows2.len() && #[trigger] rows2[k].len() >= 2 implies row_width(
                    ws,
                    rows2[k],
                ) <= t by {
                    if k < rows.len() {
                        assert(rows2[k] == rows[k]);
                    }
                }
                assert forall|k: int| 0 <= k < rows2.len() - 1 implies row_width(
                    ws,
                    #[trigger] rows2[k],
                ) + gutter() + ws[rows2[k + 1][0]] > t by {
                    if k < rows.len() - 1 {
                        assert(rows2[k] == rows[k]);
                        assert(rows2[k + 1] == rows[k + 1]);
                    } else {
                        assert(rows2[k] == rows.last());
                        assert(rows2[k + 1] == cur);
                    }
                }
            }
        }
    }
}

/// The rows of `pack` hold every subtree exactly once, in order, and none is empty.
pub proof fn lemma_pack_partition(ws: Seq<usize>, term_width: Option<usize>)
    ensures
        pack(ws, term_width).flatten() == positions(ws.len() as int),
        forall|k: int|
            0 <= k < pack(ws, term_width).len() ==> #[trigger] pack(ws, term_width)[k].len() > 0,
{
    broadcast use Seq::lemma_flatten_push;

    lemma_pack_state_inv(ws, term_width, ws.len() as int);
    let (rows, cur, cw) = pack_state(ws, term_width, ws.len() as int);
    if cur.len() > 0 {
        assert(rows.push(cur).flatten() =~= rows.flatten() + cur);
        assert forall|k: int| 0 <= k < rows.push(cur).len() implies #[trigger] rows.push(cur)[k].len()
            > 0 by {
            if k < rows.len() {
                assert(rows.push(cur)[k] == rows[k]);
            }
        }
    } else {
        assert(rows.flatten() + cur =~= rows.flatten());
    }
}

/// With a known terminal width, every row that holds more than one subtree
/// fits in it (a single subtree wider than the terminal gets a row of its
/// own), and no row could have taken the first subtree of the next row.
pub proof fn lemma_pack_fits(ws: Seq<usize>, t: usize)
    ensures
        forall|k: int|
            0 <= k < pack(ws, Some(t)).len() && #[trigger] pack(ws, Some(t))[k].len() >= 2
                ==> row_width(ws, pack(ws, Some(t))[k]) <= t,
        forall|k: int|
            0 <= k < pack(ws, Some(t)).len() - 1 ==> row_width(ws, #[trigger] pack(ws, Some(t))[k])
                + gutter() + ws[pack(ws, Some(t))[k + 1][0]] > t,
{
    lemma_pack_state_inv(ws, Some(t), ws.len() as int);
    let (rows, cur, cw) = pack_state(ws, Some(t), ws.len() as int);
    if cur.len() > 0 {
        let all = rows.push(cur);
        assert forall|k: int| 0 <= k < all.len() && #[trigger] all[k].len() >= 2 implies row_width(
            ws,
            all[k],
        ) <= t by {
            if k < rows.len() {
                assert(all[k] == rows[k]);
            }
        }
        assert forall|k: int| 0 <= k < all.len() - 1 implies row_width(ws, #[trigger] all[k])
            + gutter() + ws[all[k + 1][0]] > t by {
            if k < rows.len() - 1 {
                assert(all[k] == rows[k]);
                assert(all[k + 1] == rows[k + 1]);
            } else {
                assert(all[k] == rows.last());
                assert(all[k + 1] == cur);
            }
        }
    }
}

/// Where the terminal width is unknown, all subtrees share one row.
pub proof fn lemma_pack_unknown_width_one_row(ws: Seq<usize>)
    ensures
        pack(ws, None).len() <= 1,
        ws.len() > 0 ==> pack(ws, None) == seq![positions(ws.len() as int)],
{
    broadcast use Seq::lemma_flatten_push;

    lemma_pack_state_inv(ws, None, ws.len() as int);
    let (rows, cur, cw) = pack_state(ws, None, ws.len() as int);
    assert(rows.len() == 0);
    assert(rows.flatten() =~= Seq::<int>::empty());
    assert(cur =~= positions(ws.len() as int));
    if ws.len() > 0 {
        assert(pack(ws, None) =~= seq![positions(ws.len() as int)]);
    }
}

/// Pack subtrees of widths `widths` into rows; see `pack`.
pub fn pack_rows(widths: &Vec<usize>, term_width: Option<usize>) -> (rows: Vec<Vec<usize>>)
    requires
        sum_upto(widths@, widths@.len() as int) + gutter() * widths@.len() <= usize::MAX,
    ensures
        rows_view(rows@) == pack(widths@, term_width),
{
    let mut rows: Vec<Vec<usize>> = Vec::new();
    let mut current_row: Vec<usize> = Vec::new();
    let mut current_width: usize = 0;
    let mut idx: usize = 0;
    while idx < widths.len()
        invariant
            idx <= widths@.len(),
            sum_upto(widths@, widths@.len() as int) + gutter() * widths@.len() <= usize::MAX,
            pack_state(widths@, term_width, idx as int) == (
                rows_view(rows@),
                current_row@.map_values(|x: usize| x as int),
                current_width as int,
            ),
        decreases widths@.len() - idx,
    {
        proof {
            lemma_pack_state_width(widths@, term_width, idx as int);
            lemma_sum_upto_mono(widths@, idx + 1, widths@.len() as int);
        }
        let w = widths[idx];
        let added_width = if current_row.len() == 0 {
            w
        } else {
            2 + w
        };
        let fits = match term_width {
            Some(tw) => current_row.len() == 0 || current_width + added_width <= tw,
            None => true,
        };
        let ghost rows_before = rows_view(rows@);
        let ghost cur_before = current_row@.map_values(|x: usize| x as int);
        if fits {
            current_row.push(idx);
            current_width = current_width + added_width;
            assert(current_row@.map_values(|x: usize| x as int) =~= cur_before.push(idx as int));
        } else {
            let mut taken: Vec<usize> = Vec::new();
            std::mem::swap(&mut taken, &mut current_row);
            rows.push(taken);
            current_row.push(idx);
            current_width = w;
            assert(rows_view(rows@) =~= rows_before.push(cur_before));
            assert(current_row@.map_values(|x: usize| x as int) =~= seq![idx as int]);
        }
        idx = idx + 1;
    }
    if current_row.len() > 0 {
        let ghost rows_before = rows_view(rows@);
        let ghost cur = current_row@.map_values(|x: usize| x as int);
        rows.push(current_row);
        assert(rows_view(rows@) =~= rows_before.push(cur));
    }
    rows
}


/// Lines of text, over plain values.
pub open spec fn lines_view(b: Vec<String>) -> Seq<Seq<char>> {
    b@.map_values(|s: String| s@)
}

/// Blocks of lines, over plain values.
pub open spec fn blocks_view(blocks: Seq<Vec<String>>) -> Seq<Seq<Seq<char>>> {
    blocks.map_values(|b: Vec<String>| lines_view(b))
}

/// Whether the width of every line of `lines` can be measured: its
/// invisible bytes are no more than its Unicode width.
pub open spec fn lines_fit(lines: Seq<Seq<char>>, hyperlink: bool) -> bool {
    forall|k: int| 0 <= k < lines.len() ==> width_fits(#[trigger] lines[k], hyperlink)
}

/// The `li`-th line of a block; empty below its last line.
pub open spec fn line_at(lines: Seq<Seq<char>>, li: int) -> Seq<char> {
    if 0 <= li < lines.len() {
        lines[li]
    } else {
        Seq::empty()
    }
}

/// `line` padded with spaces to `w` visible columns.
pub open spec fn padded(line: Seq<char>, w: usize, hyperlink: bool) -> Seq<char> {
    let v = visible_width(line, hyperlink);
    if v < w {
        line + spaces((w - v) as nat)
    } else {
        line
    }
}

/// Padding keeps a subtree's line as it is and only adds spaces after it.
pub proof fn lemma_padded_keeps_line(line: Seq<char>, w: usize, hyperlink: bool)
    ensures
        padded(line, w, hyperlink).len() >= line.len(),
        padded(line, w, hyperlink).take(line.len() as int) == line,
        forall|k: int| line.len() <= k < padded(line, w, hyperlink).len() ==> #[trigger] padded(line, w, hyperlink)[k] == ' ',
{
    assert(padded(line, w, hyperlink).take(line.len() as int) =~= line);
}

/// The `li`-th output line of a row, over its first `n` subtrees: each
/// subtree's line padded to the subtree's width, with a gutter between.
pub open spec fn line_text(
    blocks: Seq<Seq<Seq<char>>>,
    widths: Seq<usize>,
    row: Seq<int>,
    li: int,
    n: int,
    hyperlink: bool,
) -> Seq<char>
    decreases n,
{
    if n <= 0 {
        Seq::empty()
    } else {
        line_text(blocks, widths, row, li, n - 1, hyperlink) + (if n - 1 > 0 {
            seq![' ', ' ']
        } else {
            Seq::empty()
        }) + padded(line_at(blocks[row[n - 1]], li), widths[row[n - 1]], hyperlink)
    }
}

/// The number of lines of the tallest of the first `n` subtrees of a row.
pub open spec fn row_height(blocks: Seq<Seq<Seq<char>>>, row: Seq<int>, n: int) -> int
    decreases n,
{
    if n <= 0 {
        0
    } else {
        let rest = row_height(blocks, row, n - 1);
        let h = blocks[row[n - 1]].len() as int;
        if h > rest { h } else { rest }
    }
}

/// The first `m` output lines of a row, each ended by a newline.
pub open spec fn row_lines(
    blocks: Seq<Seq<Seq<char>>>,
    widths: Seq<usize>,
    row: Seq<int>,
    hyperlink: bool,
    m: int,
) -> Seq<char>
    decreases m,
{
    if m <= 0 {
        Seq::empty()
    } else {
        row_lines(blocks, widths, row, hyperlink, m - 1) + line_text(
            blocks,
            widths,
            row,
            m - 1,
            row.len() as int,
            hyperlink,
        ) + seq!['\n']
    }
}

/// The output of the first `k` rows: each as many lines as its tallest subtree.
pub open spec fn rows_text(
    blocks: Seq<Seq<Seq<char>>>,
    widths: Seq<usize>,
    rows: Seq<Seq<int>>,
    hyperlink: bool,
    k: int,
) -> Seq<char>
    decreases k,
{
    if k <= 0 {
        Seq::empty()
    } else {
        rows_text(blocks, widths, rows, hyperlink, k - 1) + row_lines(
            blocks,
            widths,
            rows[k - 1],
            hyperlink,
            row_height(blocks, rows[k - 1], rows[k - 1].len() as int),
        )
    }
}

/// The `p`-th subtree's piece of the `li`-th line of a row: its line,
/// padded to its width.
pub open spec fn segment(
    blocks: Seq<Seq<Seq<char>>>,
    widths: Seq<usize>,
    row: Seq<int>,
    li: int,
    p: int,
    hyperlink: bool,
) -> Seq<char> {
    padded(line_at(blocks[row[p]], li), widths[row[p]], hyperlink)
}

/// Where the `p`-th subtree's piece starts in the `li`-th line of a row:
/// after the pieces before it and, past the first, a two-space gutter.
pub open spec fn segment_start(
    blocks: Seq<Seq<Seq<char>>>,
    widths: Seq<usize>,
    row: Seq<int>,
    li: int,
    p: int,
    hyperlink: bool,
) -> int {
    line_text(blocks, widths, row, li, p, hyperlink).len() + if p > 0 { 2int } else { 0int }
}

proof fn lemma_line_text_prefix(
    blocks: Seq<Seq<Seq<char>>>,
    widths: Seq<usize>,
    row: Seq<int>,
    li: int,
    m: int,
    n: int,
    hyperlink: bool,
)
    requires
        0 <= m <= n,
    ensures
        line_text(blocks, widths, row, li, m, hyperlink).len() <= line_text(blocks, widths, row, li, n, hyperlink).len(),
        line_text(blocks, widths, row, li, n, hyperlink).take(
            line_text(blocks, widths, row, li, m, hyperlink).len() as int,
        ) == line_text(blocks, widths, row, li, m, hyperlink),
    decreases n - m,
{
    let t = line_text(blocks, widths, row, li, n, hyperlink);
    if m == n {
        assert(t.take(t.len() as int) =~= t);
    } else {
        lemma_line_text_prefix(blocks, widths, row, li, m, n - 1, hyperlink);
        let u = line_text(blocks, widths, row, li, n - 1, hyperlink);
        let v = line_text(blocks, widths, row, li, m, hyperlink);
        assert(t.take(v.len() as int) =~= u.take(v.len() as int));
    }
}

/// Each line of a packed row shows every subtree of the row, left to right:
/// the `p`-th subtree's line, padded with spaces to its width, stands at
/// `segment_start`, after a two-space gutter where it is not the first;
/// the line ends with the last subtree's piece.
pub proof fn lemma_row_line_segments(
    blocks: Seq<Seq<Seq<char>>>,
    widths: Seq<usize>,
    row: Seq<int>,
    li: int,
    hyperlink: bool,
)
    ensures
        forall|p: int|
            0 <= p < row.len() ==> {
                let t = line_text(blocks, widths, row, li, row.len() as int, hyperlink);
                let st = segment_start(blocks, widths, row, li, p, hyperlink);
                let sg = #[trigger] segment(blocks, widths, row, li, p, hyperlink);
                &&& st + sg.len() <= t.len()
                &&& t.subrange(st, st + sg.len()) == sg
                &&& p > 0 ==> t[st - 2] == ' ' && t[st - 1] == ' '
                &&& p == row.len() - 1 ==> st + sg.len() == t.len()
            },
{
    let n = row.len() as int;
    let t = line_text(blocks, widths, row, li, n, hyperlink);
    assert forall|p: int| 0 <= p < row.len() implies {
        let st = segment_start(blocks, widths, row, li, p, hyperlink);
        let sg = #[trigger] segment(blocks, widths, row, li, p, hyperlink);
        &&& st + sg.len() <= t.len()
        &&& t.subrange(st, st + sg.len()) == sg
        &&& p > 0 ==> t[st - 2] == ' ' && t[st - 1] == ' '
        &&& p == row.len() - 1 ==> st + sg.len() == t.len()
    } by {
        lemma_line_text_prefix(blocks, widths, row, li, p + 1, n, hyperlink);
        let u = line_text(blocks, widths, row, li, p + 1, hyperlink);
        let before = line_text(blocks, widths, row, li, p, hyperlink);
        let sep = if p > 0 { seq![' ', ' '] } else { Seq::<char>::empty() };
        let sg = segment(blocks, widths, row, li, p, hyperlink);
        let st = segment_start(blocks, widths, row, li, p, hyperlink);
        assert(u == before + sep + sg);
        assert(st + sg.len() == u.len());
        assert(t.subrange(st, st + sg.len()) =~= u.subrange(st, st + sg.len()));
        assert(u.subrange(st, st + sg.len()) =~= sg);
        if p > 0 {
            assert(t[st - 2] == u[st - 2]);
            assert(t[st - 1] == u[st - 1]);
        }
    }
}

/// A row is as tall as its tallest subtree: every subtree's lines all fit
/// in it.
pub proof fn lemma_row_height_covers(blocks: Seq<Seq<Seq<char>>>, row: Seq<int>, n: int, p: int)
    requires
        0 <= p < n,
    ensures
        blocks[row[p]].len() <= row_height(blocks, row, n),
    decreases n,
{
    if p < n - 1 {
        lemma_row_height_covers(blocks, row, n - 1, p);
    }
}

proof fn lemma_row_lines_prefix(
    blocks: Seq<Seq<Seq<char>>>,
    widths: Seq<usize>,
    row: Seq<int>,
    hyperlink: bool,
    m: int,
    n: int,
)
    requires
        0 <= m <= n,
    ensures
        row_lines(blocks, widths, row, hyperlink, m).len() <= row_lines(blocks, widths, row, hyperlink, n).len(),
        row_lines(blocks, widths, row, hyperlink, n).take(row_lines(blocks, widths, row, hyperlink, m).len() as int)
            == row_lines(blocks, widths, row, hyperlink, m),
    decreases n - m,
{
    let t = row_lines(blocks, widths, row, hyperlink, n);
    if m == n {
        assert(t.take(t.len() as int) =~= t);
    } else {
        lemma_row_lines_prefix(blocks, widths, row, hyperlink, m, n - 1);
        let u = row_lines(blocks, widths, row, hyperlink, n - 1);
        let v = row_lines(blocks, widths, row, hyperlink, m);
        assert(t.take(v.len() as int) =~= u.take(v.len() as int));
    }
}

/// The lines of a row come in order, each ended by a newline: line `li`
/// stands right after lines `0..li`.
pub proof fn lemma_row_lines_in_order(
    blocks: Seq<Seq<Seq<char>>>,
    widths: Seq<usize>,
    row: Seq<int>,
    hyperlink: bool,
    li: int,
    m: int,
)
    requires
        0 <= li < m,
    ensures
        ({
            let t = row_lines(blocks, widths, row, hyperlink, m);
            let a = row_lines(blocks, widths, row, hyperlink, li).len() as int;
            let l = line_text(blocks, widths, row, li, row.len() as int, hyperlink);
            a + l.len() + 1 <= t.len() && t.subrange(a, a + l.len() + 1) == l.push('\n')
        }),
{
    lemma_row_lines_prefix(blocks, widths, row, hyperlink, li + 1, m);
    let t = row_lines(blocks, widths, row, hyperlink, m);
    let u = row_lines(blocks, widths, row, hyperlink, li + 1);
    let a = row_lines(blocks, widths, row, hyperlink, li).len() as int;
    let l = line_text(blocks, widths, row, li, row.len() as int, hyperlink);
    assert(t.subrange(a, a + l.len() + 1) =~= u.subrange(a, a + l.len() + 1));
    assert(u.subrange(a, a + l.len() + 1) =~= l.push('\n'));
}

proof fn lemma_rows_text_prefix(
    blocks: Seq<Seq<Seq<char>>>,
    widths: Seq<usize>,
    rows: Seq<Seq<int>>,
    hyperlink: bool,
    m: int,
    n: int,
)
    requires
        0 <= m <= n,
    ensures
        rows_text(blocks, widths, rows, hyperlink, m).len() <= rows_text(blocks, widths, rows, hyperlink, n).len(),
        rows_text(blocks, widths, rows, hyperlink, n).take(rows_text(blocks, widths, rows, hyperlink, m).len() as int)
            == rows_text(blocks, widths, rows, hyperlink, m),
    decreases n - m,
{
    let t = rows_text(blocks, widths, rows, hyperlink, n);
    if m == n {
        assert(t.take(t.len() as int) =~= t);
    } else {
        lemma_rows_text_prefix(blocks, widths, rows, hyperlink, m, n - 1);
        let u = rows_text(blocks, widths, rows, hyperlink, n - 1);
        let v = rows_text(blocks, widths, rows, hyperlink, m);
        assert(t.take(v.len() as int) =~= u.take(v.len() as int));
    }
}

/// The rows come in order: row `k`'s lines stand right after those of rows
/// `0..k`, as many as its tallest subtree has.
pub proof fn lemma_rows_in_order(
    blocks: Seq<Seq<Seq<char>>>,
    widths: Seq<usize>,
    rows: Seq<Seq<int>>,
    hyperlink: bool,
    k: int,
    n: int,
)
    requires
        0 <= k < n,
    ensures
        ({
            let t = rows_text(blocks, widths, rows, hyperlink, n);
            let a = rows_text(blocks, widths, rows, hyperlink, k).len() as int;
            let r = row_lines(blocks, widths, rows[k], hyperlink, row_height(blocks, rows[k], rows[k].len() as int));
            a + r.len() <= t.len() && t.subrange(a, a + r.len()) == r
        }),
{
    lemma_rows_text_prefix(blocks, widths, rows, hyperlink, k + 1, n);
    let t = rows_text(blocks, widths, rows, hyperlink, n);
    let u = rows_text(blocks, widths, rows, hyperlink, k + 1);
    let a = rows_text(blocks, widths, rows, hyperlink, k).len() as int;
    let r = row_lines(blocks, widths, rows[k], hyperlink, row_height(blocks, rows[k], rows[k].len() as int));
    assert(t.subrange(a, a + r.len()) =~= u.subrange(a, a + r.len()));
    assert(u.subrange(a, a + r.len()) =~= r);
}

/// Whether each row position names a subtree.
pub open spec fn rows_in_range(rows: Seq<Seq<int>>, n: int) -> bool {
    forall|k: int, p: int| 0 <= k < rows.len() && 0 <= p < rows[k].len() ==> 0 <= #[trigger] rows[k][p] < n
}

/// Append the `li`-th line of `block`, padded to `w` visible columns.
fn push_padded_line(output: &mut String, block: &Vec<String>, li: usize, w: usize, hyperlink: bool)
    requires
        lines_fit(lines_view(*block), hyperlink),
    ensures
        final(output)@ == old(output)@ + padded(line_at(lines_view(*block), li as int), w, hyperlink),
{
    proof {
        reveal_strlit("");
    }
    let line: &str = if li < block.len() {
        block[li].as_str()
    } else {
        ""
    };
    assert(line@ == line_at(lines_view(*block), li as int));
    assert(invisible_len(Seq::<char>::empty(), hyperlink) == 0);
    output.append(line);
    let line_visible = get_visible_width(line, hyperlink);
    if line_visible < w {
        let pad = repeat_space(w - line_visible);
        output.append(pad.as_str());
    }
}

/// Print the subtrees `blocks` (widths `widths`) side by side, row by row.
pub fn render_rows(
    blocks: &Vec<Vec<String>>,
    widths: &Vec<usize>,
    rows: &Vec<Vec<usize>>,
    hyperlink: bool,
) -> (out: String)
    requires
        blocks@.len() == widths@.len(),
        rows_in_range(rows_view(rows@), blocks@.len() as int),
        forall|b: int| 0 <= b < blocks@.len() ==> lines_fit(#[trigger] blocks_view(blocks@)[b], hyperlink),
    ensures
        out@ == rows_text(
            blocks_view(blocks@),
            widths@,
            rows_view(rows@),
            hyperlink,
            rows@.len() as int,
        ),
{
    let ghost bv = blocks_view(blocks@);
    let ghost rv = rows_view(rows@);
    let mut output = String::new();
    let mut k: usize = 0;
    while k < rows.len()
        invariant
            k <= rows@.len(),
            blocks@.len() == widths@.len(),
            bv == blocks_view(blocks@),
            rv == rows_view(rows@),
            rows_in_range(rv, blocks@.len() as int),
            forall|b: int| 0 <= b < blocks@.len() ==> lines_fit(#[trigger] bv[b], hyperlink),
            output@ == rows_text(bv, widths@, rv, hyperlink, k as int),
        decreases rows@.len() - k,
    {
        let row = &rows[k];
        let ghost r = rv[k as int];
        assert(r == row@.map_values(|x: usize| x as int));
        // the row's height
        let mut height: usize = 0;
        let mut p: usize = 0;
        while p < row.len()
            invariant
                p <= row@.len(),
                r == row@.map_values(|x: usize| x as int),
                blocks@.len() == widths@.len(),
                bv == blocks_view(blocks@),
                forall|q: int| 0 <= q < r.len() ==> 0 <= #[trigger] r[q] < blocks@.len(),
                height == row_height(bv, r, p as int),
            decreases row@.len() - p,
        {
            assert(r[p as int] == row@[p as int] as int);
            let h = blocks[row[p]].len();
            assert(bv[r[p as int]].len() == h);
            if h > height {
                height = h;
            }
            p = p + 1;
        }
        let ghost before_row = output@;
        let mut li: usize = 0;
        while li < height
            invariant
                li <= height,
                height == row_height(bv, r, r.len() as int),
                r == row@.map_values(|x: usize| x as int),
                blocks@.len() == widths@.len(),
                bv == blocks_view(blocks@),
                forall|q: int| 0 <= q < r.len() ==> 0 <= #[trigger] r[q] < blocks@.len(),
                forall|b: int| 0 <= b < blocks@.len() ==> lines_fit(#[trigger] bv[b], hyperlink),
                output@ == before_row + row_lines(bv, widths@, r, hyperlink, li as int),
            decreases height - li,
        {
            let ghost before_line = output@;
            let mut pos: usize = 0;
            while pos < row.len()
                invariant
                    pos <= row@.len(),
                    r == row@.map_values(|x: usize| x as int),
                    blocks@.len() == widths@.len(),
                    bv == blocks_view(blocks@),
                    forall|q: int| 0 <= q < r.len() ==> 0 <= #[trigger] r[q] < blocks@.len(),
                    forall|b: int| 0 <= b < blocks@.len() ==> lines_fit(#[trigger] bv[b], hyperlink),
                    output@ == before_line + line_text(bv, widths@, r, li as int, pos as int, hyperlink),
                decreases row@.len() - pos,
            {
                let ghost start = output@;
                if pos > 0 {
                    push_char(&mut output, ' ');
                    push_char(&mut output, ' ');
                }
                let b = row[pos];
                assert(r[pos as int] == b as int);
                assert(bv[b as int] == lines_view(blocks@[b as int]));
                push_padded_line(&mut output, &blocks[b], li, widths[b], hyperlink);
                assert(output@ == start + (if pos > 0 { seq![' ', ' '] } else { Seq::<char>::empty() })
                    + padded(line_at(bv[b as int], li as int), widths@[b as int], hyperlink));
                pos = pos + 1;
            }
            push_char(&mut output, '\n');
            li = li + 1;
        }
        k = k + 1;
    }
    output
}

} // verus!
